//! The scene: surfaces, lights and a camera.

use crate::basics::Vector3;
use crate::image::{address, lemma_address_in_range, lemma_address_injective, Image};
use crate::schedule::{
    generate_tasks, is_task_for, pixel_color, render_task, Collector, PixelResult, Task,
};
use crate::shapes::{in_world, is_in_world, Light, Primitive, SceneObject};
use vstd::prelude::*;

verus! {

/// The point that every primary ray leaves from.
#[derive(Copy, Clone, Debug, PartialEq, Eq, Structural)]
pub struct Camera {
    pub position: Vector3,
}

/// The width in pixels of the picture that `Scene::render` makes.
pub const IMAGE_WIDTH: usize = 500;

/// The height in pixels of the picture that `Scene::render` makes.
pub const IMAGE_HEIGHT: usize = 500;

/// The depth to which `Scene::render` follows reflections.
pub const MAX_DEPTH: isize = 10;

impl Camera {
    pub fn new(position: Vector3) -> (res: Self)
        ensures
            res.position == position,
    {
        Camera { position }
    }

    /// Renders the scene as seen from this camera: every pixel of the
    /// picture gets the color seen along the ray through it.
    pub fn render(&self, scene: &Scene, width: usize, height: usize, depth: isize) -> (res: Image)
        requires
            scene.wf(),
            in_world(self.position@),
            width * height <= usize::MAX,
        ensures
            res.wf(),
            res.width == width,
            res.height == height,
            forall|x: int, y: int|
                0 <= x < width && 0 <= y < height ==> (#[trigger] res.at(x, y))@ == pixel_color(
                    *scene,
                    self.position@,
                    x,
                    y,
                    width as int,
                    height as int,
                    depth as int,
                ),
    {
        let tasks: Vec<Task> = generate_tasks(width, height);
        let mut collector: Collector = Collector::new(width, height);
        let mut y: usize = 0;
        while y < height
            invariant
                scene.wf(),
                in_world(self.position@),
                width * height <= usize::MAX,
                tasks@.len() == width * height,
                forall|k: int| 0 <= k < tasks@.len() ==> (#[trigger] tasks@[k]).wf(),
                forall|i: int, j: int|
                    0 <= i < width && 0 <= j < height ==> is_task_for(
                        #[trigger] tasks@[address(i, j, width as int)],
                        i,
                        j,
                        width as int,
                        height as int,
                    ),
                collector.wf(),
                collector.image.width == width,
                collector.image.height == height,
                0 <= y <= height,
                collector.collected == y * width,
                forall|i: int, j: int|
                    0 <= i < width && 0 <= j < y ==> (#[trigger] collector.image.at(i, j))@
                        == pixel_color(
                        *scene,
                        self.position@,
                        i,
                        j,
                        width as int,
                        height as int,
                        depth as int,
                    ),
            decreases height - y,
        {
            let mut x: usize = 0;
            while x < width
                invariant
                    scene.wf(),
                    in_world(self.position@),
                    width * height <= usize::MAX,
                    tasks@.len() == width * height,
                    forall|k: int| 0 <= k < tasks@.len() ==> (#[trigger] tasks@[k]).wf(),
                    forall|i: int, j: int|
                        0 <= i < width && 0 <= j < height ==> is_task_for(
                            #[trigger] tasks@[address(i, j, width as int)],
                            i,
                            j,
                            width as int,
                            height as int,
                        ),
                    collector.wf(),
                    collector.image.width == width,
                    collector.image.height == height,
                    0 <= y < height,
                    0 <= x <= width,
                    collector.collected == y * width + x,
                    forall|i: int, j: int|
                        0 <= i < width && 0 <= j < y ==> (#[trigger] collector.image.at(i, j))@
                            == pixel_color(
                            *scene,
                            self.position@,
                            i,
                            j,
                            width as int,
                            height as int,
                            depth as int,
                        ),
                    forall|i: int|
                        0 <= i < x ==> (#[trigger] collector.image.at(i, y as int))@ == pixel_color(
                            *scene,
                            self.position@,
                            i,
                            y as int,
                            width as int,
                            height as int,
                            depth as int,
                        ),
                decreases width - x,
            {
                proof {
                    lemma_address_in_range(x as int, y as int, width as int, height as int);
                }
                let task: &Task = &tasks[y * width + x];
                assert(is_task_for(
                    tasks@[address(x as int, y as int, width as int)],
                    x as int,
                    y as int,
                    width as int,
                    height as int,
                ));
                let result: PixelResult = render_task(scene, self.position, task, depth);
                let ghost before = collector.image;
                let _ = collector.accept(result);
                proof {
                    assert forall|i: int, j: int| 0 <= i < width && 0 <= j < y implies (
                    #[trigger] collector.image.at(i, j))@ == pixel_color(
                        *scene,
                        self.position@,
                        i,
                        j,
                        width as int,
                        height as int,
                        depth as int,
                    ) by {
                        lemma_address_in_range(i, j, width as int, height as int);
                        if address(i, j, width as int) == address(x as int, y as int, width as int) {
                            lemma_address_injective(i, j, x as int, y as int, width as int);
                        }
                        assert(collector.image.at(i, j) == before.at(i, j));
                    }
                    assert forall|i: int| 0 <= i < x + 1 implies (#[trigger] collector.image.at(
                        i,
                        y as int,
                    ))@ == pixel_color(
                        *scene,
                        self.position@,
                        i,
                        y as int,
                        width as int,
                        height as int,
                        depth as int,
                    ) by {
                        lemma_address_in_range(i, y as int, width as int, height as int);
                        if i < x {
                            assert(collector.image.at(i, y as int) == before.at(i, y as int));
                        }
                    }
                }
                x = x + 1;
            }
            proof {
                assert((y + 1) * width == y * width + width) by (nonlinear_arith);
            }
            y = y + 1;
        }
        collector.finish()
    }
}

/// Everything that a render reads: surfaces in the order in which they were
/// added, lights in the order in which they were added, and the camera.
pub struct Scene {
    pub camera: Camera,
    pub lights: Vec<Light>,
    pub objects: Vec<Primitive>,
}

/// Every surface of the sequence is well formed.
pub open spec fn surfaces_wf(objects: Seq<Primitive>) -> bool {
    forall|i: int| 0 <= i < objects.len() ==> (#[trigger] objects[i]).wf()
}

/// Every light of the sequence is well formed.
pub open spec fn lights_wf(lights: Seq<Light>) -> bool {
    forall|i: int| 0 <= i < lights.len() ==> (#[trigger] lights[i]).wf()
}

impl Scene {
    /// The camera, every surface and every light lie in the world.
    pub open spec fn wf(&self) -> bool {
        &&& in_world(self.camera.position@)
        &&& surfaces_wf(self.objects@)
        &&& lights_wf(self.lights@)
    }

    /// Decides whether the scene is well formed.
    pub fn is_valid(&self) -> (res: bool)
        ensures
            res == self.wf(),
    {
        if !is_in_world(&self.camera.position) {
            return false;
        }
        let mut i: usize = 0;
        while i < self.objects.len()
            invariant
                0 <= i <= self.objects.len(),
                forall|j: int| 0 <= j < i ==> (#[trigger] self.objects@[j]).wf(),
            decreases self.objects.len() - i,
        {
            if !self.objects[i].is_valid() {
                return false;
            }
            i = i + 1;
        }
        let mut k: usize = 0;
        while k < self.lights.len()
            invariant
                0 <= k <= self.lights.len(),
                forall|j: int| 0 <= j < k ==> (#[trigger] self.lights@[j]).wf(),
            decreases self.lights.len() - k,
        {
            if !self.lights[k].is_valid() {
                return false;
            }
            k = k + 1;
        }
        true
    }

    /// An empty scene seen from the given point.
    pub fn new(camera_position: Vector3) -> (res: Self)
        ensures
            res.camera.position == camera_position,
            res.objects@ == Seq::<Primitive>::empty(),
            res.lights@ == Seq::<Light>::empty(),
            in_world(camera_position@) ==> res.wf(),
    {
        Scene { camera: Camera::new(camera_position), lights: Vec::new(), objects: Vec::new() }
    }

    /// Appends a surface.
    pub fn add(&mut self, object: Primitive)
        ensures
            final(self).objects@ == old(self).objects@.push(object),
            final(self).lights@ == old(self).lights@,
            final(self).camera == old(self).camera,
            old(self).wf() && object.wf() ==> final(self).wf(),
    {
        self.objects.push(object);
    }

    /// Appends a light.
    pub fn add_light(&mut self, light: Light)
        ensures
            final(self).lights@ == old(self).lights@.push(light),
            final(self).objects@ == old(self).objects@,
            final(self).camera == old(self).camera,
            old(self).wf() && light.wf() ==> final(self).wf(),
    {
        self.lights.push(light);
    }

    pub fn get_objects(&self) -> (res: &Vec<Primitive>)
        ensures
            *res == self.objects,
    {
        &self.objects
    }

    pub fn get_lights(&self) -> (res: &Vec<Light>)
        ensures
            *res == self.lights,
    {
        &self.lights
    }

    pub fn get_camera(&self) -> (res: &Camera)
        ensures
            *res == self.camera,
    {
        &self.camera
    }

    /// Renders the scene from its camera, `IMAGE_WIDTH` by `IMAGE_HEIGHT`
    /// pixels, following reflections `MAX_DEPTH` deep.
    pub fn render(scene: Self) -> (res: Image)
        requires
            scene.wf(),
        ensures
            res.wf(),
            res.width == IMAGE_WIDTH,
            res.height == IMAGE_HEIGHT,
            forall|x: int, y: int|
                0 <= x < IMAGE_WIDTH && 0 <= y < IMAGE_HEIGHT ==> (#[trigger] res.at(x, y))@
                    == pixel_color(
                    scene,
                    scene.camera.position@,
                    x,
                    y,
                    IMAGE_WIDTH as int,
                    IMAGE_HEIGHT as int,
                    MAX_DEPTH as int,
                ),
    {
        scene.camera.render(&scene, IMAGE_WIDTH, IMAGE_HEIGHT, MAX_DEPTH)
    }
}

} // verus!
