//! The work of a render: one task for each pixel, what a worker does with a
//! task, and the collector that puts the results into the picture.
//!
//! Nothing here starts a thread. A task carries all that a worker needs
//! besides the scene, and a result carries the place it belongs to, so tasks
//! may be worked on, and results may arrive, in any order.

use crate::basics::{Vec3, Vector3};
use crate::image::{address, blank, lemma_address_in_range, lemma_address_injective, Image};
use crate::material::Color;
use crate::numeric::{lemma_quot, quot, ONE};
use crate::raycast::{Ray, RayView};
use crate::scene::Scene;
use crate::shading::{radiance, ColorRay};
use crate::shapes::in_world;
use vstd::prelude::*;

verus! {

/// The work for one pixel: its column, its row, and the direction in which
/// the camera looks through it.
#[derive(Copy, Clone, Debug, PartialEq, Eq, Structural)]
pub struct Task {
    pub x: usize,
    pub y: usize,
    pub direction: Vector3,
}

impl Task {
    /// The direction of the task is one that a ray can be sent in.
    pub open spec fn wf(&self) -> bool {
        self.direction@.within(ONE as int) && !self.direction@.is_zero()
    }
}

/// The color found for one pixel, with the column and the row of the pixel.
#[derive(Copy, Clone, Debug, PartialEq, Eq, Structural)]
pub struct PixelResult {
    pub x: usize,
    pub y: usize,
    pub color: Color,
}

/// The direction through the pixel in column `x` of row `y`: the columns
/// are spread over the interval from -1 to 1 from left to right and the rows
/// from 1 down to -1, on a plane one unit in front of the camera.
pub open spec fn pixel_direction(x: int, y: int, width: int, height: int) -> Vec3 {
    Vec3 {
        x: quot(2 * ONE * x, width) - ONE,
        y: ONE - quot(2 * ONE * y, height),
        z: ONE as int,
    }
}

/// The ray from the camera through a pixel.
pub open spec fn primary_ray(camera: Vec3, direction: Vec3) -> RayView {
    RayView { origin: camera, direction: direction.unit() }
}

/// The task is the one for the pixel in column `x` of row `y`.
pub open spec fn is_task_for(task: Task, x: int, y: int, width: int, height: int) -> bool {
    task.x == x && task.y == y && task.direction@ == pixel_direction(x, y, width, height)
}

/// The color of the pixel in column `x` of row `y` of a picture of the
/// scene.
pub open spec fn pixel_color(
    scene: Scene,
    camera: Vec3,
    x: int,
    y: int,
    width: int,
    height: int,
    depth: int,
) -> Vec3 {
    radiance(
        scene.objects@,
        scene.lights@,
        primary_ray(camera, pixel_direction(x, y, width, height)),
        depth,
    )
}

/// Computes the direction through a pixel.
pub fn direction_through(x: usize, y: usize, width: usize, height: usize) -> (res: Vector3)
    requires
        x < width,
        y < height,
    ensures
        res@ == pixel_direction(x as int, y as int, width as int, height as int),
        res@.within(ONE as int),
        res.z == ONE,
{
    proof {
        lemma_pixel_direction(x as int, y as int, width as int, height as int);
        assert(2 * ONE * x <= 2 * ONE * usize::MAX && 2 * ONE * y <= 2 * ONE * usize::MAX)
            by (nonlinear_arith)
            requires
                0 <= x <= usize::MAX,
                0 <= y <= usize::MAX,
        ;
    }
    let two: i128 = 2 * ONE as i128;
    let across: i128 = (two * x as i128) / (width as i128);
    let down: i128 = (two * y as i128) / (height as i128);
    Vector3 { x: (across - ONE as i128) as i64, y: (ONE as i128 - down) as i64, z: ONE }
}

/// The direction through a pixel of the picture has no component longer
/// than `ONE` and looks forward.
pub proof fn lemma_pixel_direction(x: int, y: int, width: int, height: int)
    requires
        0 <= x < width,
        0 <= y < height,
    ensures
        pixel_direction(x, y, width, height).within(ONE as int),
        !pixel_direction(x, y, width, height).is_zero(),
        0 <= quot(2 * ONE * x, width) < 2 * ONE,
        0 <= quot(2 * ONE * y, height) < 2 * ONE,
{
    assert(0 <= 2 * ONE * x < 2 * ONE * width) by (nonlinear_arith)
        requires
            0 <= x < width,
    ;
    assert(0 <= 2 * ONE * y < 2 * ONE * height) by (nonlinear_arith)
        requires
            0 <= y < height,
    ;
    lemma_below_two(2 * ONE * x, width);
    lemma_below_two(2 * ONE * y, height);
}

proof fn lemma_below_two(a: int, b: int)
    requires
        0 <= a < 2 * ONE * b,
        b > 0,
    ensures
        0 <= quot(a, b) < 2 * ONE,
{
    lemma_quot(a, b);
    assert(quot(a, b) < 2 * ONE) by (nonlinear_arith)
        requires
            b * quot(a, b) <= a,
            a < 2 * ONE * b,
            b > 0,
    ;
}

/// The task stands at place `k` of the list of tasks of a picture: it is
/// the task for the pixel whose place in the buffer is `k`.
pub open spec fn is_raster_task(task: Task, k: int, width: int, height: int) -> bool {
    &&& task.x < width
    &&& task.y < height
    &&& address(task.x as int, task.y as int, width) == k
    &&& task.direction@ == pixel_direction(task.x as int, task.y as int, width, height)
}

/// The tasks are those of a picture of the given size, row by row.
pub open spec fn is_raster(tasks: Seq<Task>, width: int, height: int) -> bool {
    &&& tasks.len() == width * height
    &&& forall|k: int| 0 <= k < tasks.len() ==> is_raster_task(#[trigger] tasks[k], k, width, height)
}

/// In the list of the tasks of a picture, the task for a pixel stands at
/// the place of the pixel, and every task has a direction to look in.
pub proof fn lemma_raster(tasks: Seq<Task>, width: int, height: int)
    requires
        is_raster(tasks, width, height),
    ensures
        forall|x: int, y: int|
            0 <= x < width && 0 <= y < height ==> is_task_for(
                #[trigger] tasks[address(x, y, width)],
                x,
                y,
                width,
                height,
            ),
        forall|k: int| 0 <= k < tasks.len() ==> (#[trigger] tasks[k]).wf(),
{
    assert forall|x: int, y: int| 0 <= x < width && 0 <= y < height implies is_task_for(
        #[trigger] tasks[address(x, y, width)],
        x,
        y,
        width,
        height,
    ) by {
        lemma_address_in_range(x, y, width, height);
        let t = tasks[address(x, y, width)];
        lemma_address_injective(t.x as int, t.y as int, x, y, width);
    }
    assert forall|k: int| 0 <= k < tasks.len() implies (#[trigger] tasks[k]).wf() by {
        lemma_pixel_direction(tasks[k].x as int, tasks[k].y as int, width, height);
    }
}

/// Lists the tasks of a picture, row by row.
pub fn generate_tasks(width: usize, height: usize) -> (res: Vec<Task>)
    requires
        width * height <= usize::MAX,
    ensures
        is_raster(res@, width as int, height as int),
        forall|x: int, y: int|
            0 <= x < width && 0 <= y < height ==> is_task_for(
                #[trigger] res@[address(x, y, width as int)],
                x,
                y,
                width as int,
                height as int,
            ),
        forall|k: int| 0 <= k < res@.len() ==> (#[trigger] res@[k]).wf(),
{
    let mut tasks: Vec<Task> = Vec::new();
    let mut y: usize = 0;
    while y < height
        invariant
            width * height <= usize::MAX,
            0 <= y <= height,
            tasks@.len() == y * width,
            forall|k: int|
                0 <= k < tasks@.len() ==> is_raster_task(
                    #[trigger] tasks@[k],
                    k,
                    width as int,
                    height as int,
                ),
        decreases height - y,
    {
        let mut x: usize = 0;
        while x < width
            invariant
                width * height <= usize::MAX,
                0 <= y < height,
                0 <= x <= width,
                tasks@.len() == y * width + x,
                forall|k: int|
                    0 <= k < tasks@.len() ==> is_raster_task(
                        #[trigger] tasks@[k],
                        k,
                        width as int,
                        height as int,
                    ),
            decreases width - x,
        {
            let task: Task = Task { x, y, direction: direction_through(x, y, width, height) };
            tasks.push(task);
            x = x + 1;
        }
        proof {
            assert((y + 1) * width == y * width + width) by (nonlinear_arith);
        }
        y = y + 1;
    }
    proof {
        assert(height * width == width * height) by (nonlinear_arith);
        lemma_raster(tasks@, width as int, height as int);
    }
    tasks
}

/// The tasks of a picture in the order in which workers take them: first
/// in, first out.
pub struct TaskQueue {
    pub tasks: Vec<Task>,
    pub taken: usize,
}

impl TaskQueue {
    /// No more tasks were taken than there are, and every task has a
    /// direction to look in.
    pub open spec fn wf(&self) -> bool {
        &&& self.taken <= self.tasks@.len()
        &&& forall|k: int| 0 <= k < self.tasks@.len() ==> (#[trigger] self.tasks@[k]).wf()
    }

    /// The tasks that are still waiting, the next one first.
    pub open spec fn waiting(&self) -> Seq<Task> {
        self.tasks@.subrange(self.taken as int, self.tasks@.len() as int)
    }

    /// The queue of all tasks of a picture, row by row.
    pub fn new(width: usize, height: usize) -> (res: Self)
        requires
            width * height <= usize::MAX,
        ensures
            res.wf(),
            res.taken == 0,
            is_raster(res.tasks@, width as int, height as int),
    {
        TaskQueue { tasks: generate_tasks(width, height), taken: 0 }
    }

    /// Takes the next task, or finds the queue empty.
    pub fn pop(&mut self) -> (res: Option<Task>)
        requires
            old(self).wf(),
        ensures
            final(self).wf(),
            final(self).tasks == old(self).tasks,
            match res {
                Some(task) => {
                    &&& old(self).taken < old(self).tasks@.len()
                    &&& task == old(self).tasks@[old(self).taken as int]
                    &&& task.wf()
                    &&& final(self).taken == old(self).taken + 1
                    &&& old(self).waiting() == seq![task] + final(self).waiting()
                },
                None => old(self).taken == old(self).tasks@.len() && final(self).taken == old(
                    self,
                ).taken,
            },
    {
        if self.taken < self.tasks.len() {
            let task: Task = self.tasks[self.taken];
            self.taken = self.taken + 1;
            assert(old(self).waiting() =~= seq![task] + self.waiting());
            Some(task)
        } else {
            None
        }
    }
}

/// What a worker does with one task: it shades the ray from the camera
/// through the pixel and labels the color with the place of the pixel.
pub fn render_task(scene: &Scene, camera: Vector3, task: &Task, depth: isize) -> (res:
    PixelResult)
    requires
        scene.wf(),
        in_world(camera@),
        task.wf(),
    ensures
        res.x == task.x,
        res.y == task.y,
        res.color@ == radiance(
            scene.objects@,
            scene.lights@,
            primary_ray(camera@, task.direction@),
            depth as int,
        ),
        res.color.in_range(),
{
    let shader: ColorRay = ColorRay {  };
    let ray: Ray = Ray::new(camera, task.direction);
    let color: Color = shader.cast(scene, &ray, depth);
    PixelResult { x: task.x, y: task.y, color }
}

/// The buffer after the results were written to it one after the other,
/// each to the place it names.
pub open spec fn collect(pixels: Seq<Color>, width: int, results: Seq<PixelResult>) -> Seq<Color>
    decreases results.len(),
{
    if results.len() == 0 {
        pixels
    } else {
        collect(pixels, width, results.drop_last()).update(
            address(results.last().x as int, results.last().y as int, width),
            results.last().color,
        )
    }
}

/// How many hundredths of `total` results the first `count` are.
pub open spec fn percent(count: int, total: int) -> int {
    count * 100 / total
}

/// What there is to report when the `count`-th of `total` results has
/// arrived: the percentage reached, if this result was the one to reach it.
pub open spec fn progress(count: int, total: int) -> Option<int> {
    if percent(count, total) > percent(count - 1, total) {
        Some(percent(count, total))
    } else {
        None
    }
}

/// Gathers the results of a render into a picture.
pub struct Collector {
    pub image: Image,
    pub collected: usize,
}

impl Collector {
    /// The picture is well formed and no more results were counted than
    /// the picture has pixels.
    pub open spec fn wf(&self) -> bool {
        self.image.wf() && self.collected <= self.image.width * self.image.height
    }

    /// The number of results that a complete picture takes.
    pub open spec fn total(&self) -> int {
        self.image.width * self.image.height
    }

    /// A collector for a picture of the given size, all black so far.
    pub fn new(width: usize, height: usize) -> (res: Self)
        requires
            width * height <= usize::MAX,
        ensures
            res.wf(),
            res.collected == 0,
            res.image.width == width,
            res.image.height == height,
            forall|k: int| 0 <= k < width * height ==> res.image.pixels@[k] == blank(),
    {
        Collector { image: Image::new(width, height), collected: 0 }
    }

    /// Takes one result: writes its color to its place and counts it.
    /// Returns the percentage of the picture that is done if this result
    /// was the one to reach it.
    pub fn accept(&mut self, result: PixelResult) -> (res: Option<usize>)
        requires
            old(self).wf(),
            old(self).collected < old(self).total(),
            result.x < old(self).image.width,
            result.y < old(self).image.height,
        ensures
            final(self).wf(),
            final(self).image.width == old(self).image.width,
            final(self).image.height == old(self).image.height,
            final(self).collected == old(self).collected + 1,
            final(self).image.pixels@ == old(self).image.pixels@.update(
                address(result.x as int, result.y as int, old(self).image.width as int),
                result.color,
            ),
            match res {
                Some(p) => progress(final(self).collected as int, old(self).total()) == Some(
                    p as int,
                ),
                None => progress(final(self).collected as int, old(self).total()) is None,
            },
    {
        self.image.store(result.x, result.y, result.color);
        let total: u128 = self.image.width as u128 * self.image.height as u128;
        let before: u128 = (self.collected as u128 * 100) / total;
        self.collected = self.collected + 1;
        let after: u128 = (self.collected as u128 * 100) / total;
        proof {
            assert(after <= 100) by (nonlinear_arith)
                requires
                    after == (self.collected * 100) / (total as int),
                    0 < self.collected <= total,
            ;
        }
        if after > before {
            Some(after as usize)
        } else {
            None
        }
    }

    /// Every result of the picture has arrived.
    pub fn is_complete(&self) -> (res: bool)
        requires
            self.wf(),
        ensures
            res == (self.collected == self.total()),
    {
        self.collected >= self.image.width * self.image.height
    }

    /// Hands out the picture.
    pub fn finish(self) -> (res: Image)
        ensures
            res == self.image,
    {
        self.image
    }
}

/// One of the results is for the pixel in column `x` of row `y`.
pub open spec fn names(results: Seq<PixelResult>, x: int, y: int) -> bool {
    exists|i: int| 0 <= i < results.len() && (#[trigger] results[i]).x == x && results[i].y == y
}

/// The picture that the collector ends with does not depend on the order
/// in which workers finish: where every pixel of the picture is named by
/// one of the results, no place is named twice, and each result holds the
/// color seen through its pixel, the buffer holds at every place the color
/// seen through that pixel.
pub proof fn lemma_collected_picture(
    scene: Scene,
    camera: Vec3,
    width: int,
    height: int,
    depth: int,
    pixels: Seq<Color>,
    results: Seq<PixelResult>,
)
    requires
        pixels.len() == width * height,
        places_distinct(results, width),
        forall|i: int|
            0 <= i < results.len() ==> (#[trigger] results[i]).x < width && results[i].y < height
                && results[i].color@ == pixel_color(
                scene,
                camera,
                results[i].x as int,
                results[i].y as int,
                width,
                height,
                depth,
            ),
        forall|x: int, y: int| 0 <= x < width && 0 <= y < height ==> #[trigger] names(results, x, y),
    ensures
        collect(pixels, width, results).len() == width * height,
        forall|x: int, y: int|
            0 <= x < width && 0 <= y < height ==> (#[trigger] collect(
                pixels,
                width,
                results,
            )[address(x, y, width)])@ == pixel_color(scene, camera, x, y, width, height, depth),
{
    assert(places_in_range(results, width, pixels.len() as int)) by {
        assert forall|i: int| 0 <= i < results.len() implies 0 <= address(
            (#[trigger] results[i]).x as int,
            results[i].y as int,
            width,
        ) < pixels.len() by {
            lemma_address_in_range(results[i].x as int, results[i].y as int, width, height);
        }
    }
    assert forall|x: int, y: int| 0 <= x < width && 0 <= y < height implies (#[trigger] collect(
        pixels,
        width,
        results,
    )[address(x, y, width)])@ == pixel_color(scene, camera, x, y, width, height, depth) by {
        assert(names(results, x, y));
        let i = choose|i: int|
            0 <= i < results.len() && (#[trigger] results[i]).x == x && results[i].y == y;
        lemma_address_in_range(x, y, width, height);
        lemma_collect_places(pixels, width, results, address(x, y, width));
    }
    if width * height > 0 {
        lemma_collect_places(pixels, width, results, 0);
    } else {
        if results.len() > 0 {
            assert(results[0].x < width);
            lemma_address_in_range(results[0].x as int, results[0].y as int, width, height);
        }
    }
}

/// No two results of the sequence name the same place.
pub open spec fn places_distinct(results: Seq<PixelResult>, width: int) -> bool {
    forall|i: int, j: int|
        0 <= i < results.len() && 0 <= j < results.len() && i != j ==> address(
            (#[trigger] results[i]).x as int,
            results[i].y as int,
            width,
        ) != address((#[trigger] results[j]).x as int, results[j].y as int, width)
}

/// Every result of the sequence names a place within the buffer.
pub open spec fn places_in_range(results: Seq<PixelResult>, width: int, len: int) -> bool {
    forall|i: int|
        0 <= i < results.len() ==> 0 <= address(
            (#[trigger] results[i]).x as int,
            results[i].y as int,
            width,
        ) < len
}

/// Collecting keeps the length of the buffer; a place that no result names
/// keeps its pixel, and a place that a result names gets the color of the
/// last result that names it.
pub proof fn lemma_collect_places(
    pixels: Seq<Color>,
    width: int,
    results: Seq<PixelResult>,
    k: int,
)
    requires
        0 <= k < pixels.len(),
        places_in_range(results, width, pixels.len() as int),
    ensures
        collect(pixels, width, results).len() == pixels.len(),
        (forall|i: int|
            0 <= i < results.len() ==> address(
                (#[trigger] results[i]).x as int,
                results[i].y as int,
                width,
            ) != k) ==> collect(pixels, width, results)[k] == pixels[k],
        forall|i: int|
            0 <= i < results.len() && address(
                (#[trigger] results[i]).x as int,
                results[i].y as int,
                width,
            ) == k && (forall|j: int|
                i < j < results.len() ==> address(
                    (#[trigger] results[j]).x as int,
                    results[j].y as int,
                    width,
                ) != k) ==> collect(pixels, width, results)[k] == results[i].color,
    decreases results.len(),
{
    if results.len() > 0 {
        let front = results.drop_last();
        let last = results.last();
        assert forall|i: int| 0 <= i < front.len() implies 0 <= address(
            (#[trigger] front[i]).x as int,
            front[i].y as int,
            width,
        ) < pixels.len() by {
            assert(front[i] == results[i]);
        }
        lemma_collect_places(pixels, width, front, k);
        assert(results[results.len() - 1] == last);
        assert forall|i: int| 0 <= i < front.len() implies front[i] == results[i] by {}
        let done = collect(pixels, width, results);
        if forall|i: int|
            0 <= i < results.len() ==> address(
                (#[trigger] results[i]).x as int,
                results[i].y as int,
                width,
            ) != k {
            assert forall|i: int| 0 <= i < front.len() implies address(
                (#[trigger] front[i]).x as int,
                front[i].y as int,
                width,
            ) != k by {
                assert(front[i] == results[i]);
            }
            assert(done[k] == pixels[k]);
        }
        assert forall|i: int|
            0 <= i < results.len() && address(
                (#[trigger] results[i]).x as int,
                results[i].y as int,
                width,
            ) == k && (forall|j: int|
                i < j < results.len() ==> address(
                    (#[trigger] results[j]).x as int,
                    results[j].y as int,
                    width,
                ) != k) implies done[k] == results[i].color by {
            if i < results.len() - 1 {
                assert(front[i] == results[i]);
                assert forall|j: int| i < j < front.len() implies address(
                    (#[trigger] front[j]).x as int,
                    front[j].y as int,
                    width,
                ) != k by {
                    assert(front[j] == results[j]);
                }
            }
        }
    }
}

/// The collector does not depend on the order in which results arrive: two
/// sequences that hold the same results, none of them naming a place twice,
/// leave the same buffer.
pub proof fn lemma_collect_any_order(
    pixels: Seq<Color>,
    width: int,
    first: Seq<PixelResult>,
    second: Seq<PixelResult>,
)
    requires
        places_in_range(first, width, pixels.len() as int),
        places_distinct(first, width),
        first.to_multiset() == second.to_multiset(),
    ensures
        collect(pixels, width, first) == collect(pixels, width, second),
{
    broadcast use vstd::seq_lib::group_to_multiset_ensures;

    let a = collect(pixels, width, first);
    let b = collect(pixels, width, second);
    first.to_multiset_ensures();
    second.to_multiset_ensures();
    // the second sequence names places in range, each once
    assert forall|i: int| 0 <= i < second.len() implies first.contains(#[trigger] second[i]) by {
        assert(second.contains(second[i]));
        assert(second.to_multiset().count(second[i]) > 0);
    }
    assert forall|i: int| 0 <= i < first.len() implies second.contains(#[trigger] first[i]) by {
        assert(first.contains(first[i]));
        assert(first.to_multiset().count(first[i]) > 0);
    }
    assert(places_in_range(second, width, pixels.len() as int)) by {
        assert forall|i: int| 0 <= i < second.len() implies 0 <= address(
            (#[trigger] second[i]).x as int,
            second[i].y as int,
            width,
        ) < pixels.len() by {
            let m = choose|m: int| 0 <= m < first.len() && first[m] == second[i];
            assert(first[m] == second[i]);
        }
    }
    assert(places_distinct(second, width)) by {
        assert forall|i: int, j: int|
            0 <= i < second.len() && 0 <= j < second.len() && i != j implies address(
            (#[trigger] second[i]).x as int,
            second[i].y as int,
            width,
        ) != address((#[trigger] second[j]).x as int, second[j].y as int, width) by {
            let m = choose|m: int| 0 <= m < first.len() && first[m] == second[i];
            let n = choose|n: int| 0 <= n < first.len() && first[n] == second[j];
            assert(first[m] == second[i] && first[n] == second[j]);
            if m == n {
                // one result of the first sequence would occur twice in the second
                lemma_count_twice(second, i, j);
                lemma_count_once(first, width, m);
            }
        }
    }
    if pixels.len() > 0 {
        lemma_collect_places(pixels, width, first, 0);
        lemma_collect_places(pixels, width, second, 0);
    }
    assert forall|k: int| 0 <= k < pixels.len() implies a[k] == b[k] by {
        lemma_collect_places(pixels, width, first, k);
        lemma_collect_places(pixels, width, second, k);
        if exists|i: int|
            0 <= i < first.len() && address(
                (#[trigger] first[i]).x as int,
                first[i].y as int,
                width,
            ) == k {
            let i = choose|i: int|
                0 <= i < first.len() && address(
                    (#[trigger] first[i]).x as int,
                    first[i].y as int,
                    width,
                ) == k;
            let j = choose|j: int| 0 <= j < second.len() && second[j] == first[i];
            assert(second[j] == first[i]);
            assert(a[k] == first[i].color);
            assert(b[k] == second[j].color);
        } else {
            assert forall|j: int| 0 <= j < second.len() implies address(
                (#[trigger] second[j]).x as int,
                second[j].y as int,
                width,
            ) != k by {
                let m = choose|m: int| 0 <= m < first.len() && first[m] == second[j];
                assert(first[m] == second[j]);
            }
        }
    }
    if pixels.len() == 0 {
        if first.len() > 0 {
            assert(0 <= address(first[0].x as int, first[0].y as int, width) < pixels.len());
        }
        assert(second.to_multiset().len() == second.len());
        assert(first.to_multiset().len() == first.len());
    }
    assert(a =~= b);
}

/// A value that stands at two places of a sequence occurs in it at least
/// twice.
proof fn lemma_count_twice(s: Seq<PixelResult>, i: int, j: int)
    requires
        0 <= i < s.len(),
        0 <= j < s.len(),
        i != j,
        s[i] == s[j],
    ensures
        s.to_multiset().count(s[i]) >= 2,
    decreases s.len(),
{
    broadcast use vstd::seq_lib::group_to_multiset_ensures;

    let hi = if i < j {
        j
    } else {
        i
    };
    let lo = if i < j {
        i
    } else {
        j
    };
    let front = s.drop_last();
    assert(s =~= front.push(s.last()));
    front.to_multiset_ensures();
    if hi == s.len() - 1 {
        assert(front[lo] == s[lo]);
        assert(front.contains(s[lo]));
        assert(front.to_multiset().count(s[lo]) > 0);
        assert(s.to_multiset() =~= front.to_multiset().insert(s.last()));
    } else {
        assert(front[i] == s[i] && front[j] == s[j]);
        lemma_count_twice(front, i, j);
        assert(s.to_multiset() =~= front.to_multiset().insert(s.last()));
    }
}

/// In a sequence that names no place twice every result occurs once.
proof fn lemma_count_once(s: Seq<PixelResult>, width: int, m: int)
    requires
        places_distinct(s, width),
        0 <= m < s.len(),
    ensures
        s.to_multiset().count(s[m]) == 1,
    decreases s.len(),
{
    broadcast use vstd::seq_lib::group_to_multiset_ensures;

    let front = s.drop_last();
    assert(s =~= front.push(s.last()));
    front.to_multiset_ensures();
    assert(s.to_multiset() =~= front.to_multiset().insert(s.last()));
    assert forall|i: int, j: int|
        0 <= i < front.len() && 0 <= j < front.len() && i != j implies address(
        (#[trigger] front[i]).x as int,
        front[i].y as int,
        width,
    ) != address((#[trigger] front[j]).x as int, front[j].y as int, width) by {
        assert(front[i] == s[i] && front[j] == s[j]);
    }
    if m == s.len() - 1 {
        if front.contains(s[m]) {
            let i = choose|i: int| 0 <= i < front.len() && front[i] == s[m];
            assert(s[i] == front[i]);
            assert(false);
        }
        assert(front.to_multiset().count(s[m]) == 0);
    } else {
        assert(front[m] == s[m]);
        lemma_count_once(front, width, m);
        if s.last() == s[m] {
            assert(s[s.len() - 1] == s[m]);
            assert(false);
        }
    }
}

} // verus!
