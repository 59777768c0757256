//! The pixel buffer and its serialization as plain-text portable pixmap.

use crate::material::{channel_level, Color};
use vstd::prelude::*;

verus! {

/// The place of the pixel in column `x` of row `y` in a row-major buffer of
/// rows `width` long.
pub open spec fn address(x: int, y: int, width: int) -> int {
    y * width + x
}

/// A pixel of the image has its place within the buffer.
pub proof fn lemma_address_in_range(x: int, y: int, width: int, height: int)
    requires
        0 <= x < width,
        0 <= y < height,
    ensures
        0 <= y * width <= address(x, y, width) < width * height,
        width * height == height * width,
{
    assert(0 <= y * width && y * width + width <= height * width && height * width == width
        * height) by (nonlinear_arith)
        requires
            0 <= y < height,
            0 < width,
    ;
}

/// Two pixels with the same place in the buffer are the same pixel.
pub proof fn lemma_address_injective(x1: int, y1: int, x2: int, y2: int, width: int)
    requires
        0 <= x1 < width,
        0 <= x2 < width,
        address(x1, y1, width) == address(x2, y2, width),
    ensures
        x1 == x2,
        y1 == y2,
{
    assert(y1 == y2) by (nonlinear_arith)
        requires
            0 <= x1 < width,
            0 <= x2 < width,
            y1 * width + x1 == y2 * width + x2,
    ;
}

/// The color of a pixel that nothing was written to.
pub open spec fn blank() -> Color {
    Color { r: 0, g: 0, b: 0 }
}

/// The decimal digits of a number, as text.
pub open spec fn decimal(n: nat) -> Seq<u8>
    decreases n,
{
    if n < 10 {
        seq![(48 + n) as u8]
    } else {
        decimal(n / 10).push((48 + n % 10) as u8)
    }
}

/// The text of one pixel: its three levels, each followed by a space.
pub open spec fn pixel_text(c: Color) -> Seq<u8> {
    decimal(channel_level(c.r as int) as nat).push(32u8) + decimal(
        channel_level(c.g as int) as nat,
    ).push(32u8) + decimal(channel_level(c.b as int) as nat).push(32u8)
}

/// The text of the first `count` pixels of a row that starts at `start`.
pub open spec fn row_text(pixels: Seq<Color>, start: int, count: int) -> Seq<u8>
    decreases count,
{
    if count <= 0 {
        Seq::<u8>::empty()
    } else {
        row_text(pixels, start, count - 1) + pixel_text(pixels[start + count - 1])
    }
}

/// The text of the first `rows` rows, each ended by a line feed.
pub open spec fn rows_text(pixels: Seq<Color>, width: int, rows: int) -> Seq<u8>
    decreases rows,
{
    if rows <= 0 {
        Seq::<u8>::empty()
    } else {
        rows_text(pixels, width, rows - 1) + row_text(pixels, (rows - 1) * width, width).push(10u8)
    }
}

/// The header line: the magic number of plain-text pixmaps, the width, the
/// height and the largest level, 255.
pub open spec fn header_text(width: nat, height: nat) -> Seq<u8> {
    seq![80u8, 51u8, 32u8] + decimal(width).push(32u8) + decimal(height).push(32u8) + seq![
        50u8,
        53u8,
        53u8,
        10u8,
    ]
}

/// The whole file: the header line, then one line for each row.
pub open spec fn ppm_text(pixels: Seq<Color>, width: nat, height: nat) -> Seq<u8> {
    header_text(width, height) + rows_text(pixels, width as int, height as int)
}

/// Appends the decimal digits of a number.
pub fn push_decimal(out: &mut Vec<u8>, n: usize)
    ensures
        final(out)@ == old(out)@ + decimal(n as nat),
    decreases n,
{
    if n < 10 {
        out.push(48u8 + n as u8);
        assert(out@ =~= old(out)@ + decimal(n as nat));
    } else {
        push_decimal(out, n / 10);
        out.push(48u8 + (n % 10) as u8);
        assert(out@ =~= old(out)@ + decimal(n as nat));
    }
}

/// A picture: `height` rows of `width` pixels, kept row by row.
pub struct Image {
    pub width: usize,
    pub height: usize,
    pub pixels: Vec<Color>,
}

impl Image {
    /// The buffer holds one pixel for each place of the picture.
    pub open spec fn wf(&self) -> bool {
        self.pixels@.len() == self.width * self.height && self.width * self.height <= usize::MAX
    }

    /// The pixel in column `x` of row `y`.
    pub open spec fn at(&self, x: int, y: int) -> Color {
        self.pixels@[address(x, y, self.width as int)]
    }

    /// A black picture.
    pub fn new(width: usize, height: usize) -> (res: Self)
        requires
            width * height <= usize::MAX,
        ensures
            res.wf(),
            res.width == width,
            res.height == height,
            forall|k: int| 0 <= k < width * height ==> res.pixels@[k] == blank(),
    {
        let total: usize = width * height;
        let mut pixels: Vec<Color> = Vec::new();
        let mut k: usize = 0;
        while k < total
            invariant
                0 <= k <= total,
                pixels@.len() == k,
                forall|j: int| 0 <= j < k ==> pixels@[j] == blank(),
            decreases total - k,
        {
            pixels.push(Color::default());
            k = k + 1;
        }
        Image { width, height, pixels }
    }

    /// Writes one pixel.
    pub fn store(&mut self, x: usize, y: usize, color: Color)
        requires
            old(self).wf(),
            x < old(self).width,
            y < old(self).height,
        ensures
            final(self).wf(),
            final(self).width == old(self).width,
            final(self).height == old(self).height,
            final(self).pixels@ == old(self).pixels@.update(
                address(x as int, y as int, old(self).width as int),
                color,
            ),
    {
        proof {
            lemma_address_in_range(x as int, y as int, self.width as int, self.height as int);
        }
        let k: usize = y * self.width + x;
        self.pixels[k] = color;
    }

    /// Reads one pixel.
    pub fn get(&self, x: usize, y: usize) -> (res: Color)
        requires
            self.wf(),
            x < self.width,
            y < self.height,
        ensures
            res == self.at(x as int, y as int),
    {
        proof {
            lemma_address_in_range(x as int, y as int, self.width as int, self.height as int);
        }
        self.pixels[y * self.width + x]
    }

    /// The picture as a plain-text portable pixmap.
    pub fn to_ppm(&self) -> (res: Vec<u8>)
        requires
            self.wf(),
        ensures
            res@ == ppm_text(self.pixels@, self.width as nat, self.height as nat),
    {
        let mut out: Vec<u8> = Vec::new();
        out.push(80u8);
        out.push(51u8);
        out.push(32u8);
        push_decimal(&mut out, self.width);
        out.push(32u8);
        push_decimal(&mut out, self.height);
        out.push(32u8);
        out.push(50u8);
        out.push(53u8);
        out.push(53u8);
        out.push(10u8);
        assert(out@ =~= header_text(self.width as nat, self.height as nat));
        let ghost header = out@;
        let mut y: usize = 0;
        while y < self.height
            invariant
                self.wf(),
                0 <= y <= self.height,
                header == header_text(self.width as nat, self.height as nat),
                out@ == header + rows_text(self.pixels@, self.width as int, y as int),
            decreases self.height - y,
        {
            let ghost before = out@;
            let mut x: usize = 0;
            while x < self.width
                invariant
                    self.wf(),
                    0 <= y < self.height,
                    0 <= x <= self.width,
                    out@ == before + row_text(self.pixels@, y * self.width, x as int),
                decreases self.width - x,
            {
                proof {
                    lemma_address_in_range(x as int, y as int, self.width as int, self.height as int);
                }
                let c: Color = self.pixels[y * self.width + x];
                let levels: (u8, u8, u8) = c.levels();
                let ghost row_before = out@;
                push_decimal(&mut out, levels.0 as usize);
                out.push(32u8);
                push_decimal(&mut out, levels.1 as usize);
                out.push(32u8);
                push_decimal(&mut out, levels.2 as usize);
                out.push(32u8);
                assert(out@ =~= row_before + pixel_text(c));
                x = x + 1;
                assert(out@ =~= before + row_text(self.pixels@, y * self.width, x as int));
            }
            out.push(10u8);
            y = y + 1;
            assert(out@ =~= header + rows_text(self.pixels@, self.width as int, y as int));
        }
        out
    }
}

} // verus!
