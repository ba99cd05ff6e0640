//! Raster textures held in memory, row after row.

use vstd::prelude::*;

verus! {

/// How a renderer is to read the four bytes of a pixel.
#[derive(Clone, Copy, Debug, PartialEq, Eq, Structural)]
pub enum PixelFormat {
    /// Red, green, blue and alpha, the colours gamma-encoded.
    Rgba8UnormSrgb,
    /// Red, green, blue and alpha, all linear.
    Rgba8Unorm,
}

/// A raster of `width` by `height` pixels. The pixel at `(x, y)` is
/// `values[x + y * width]`.
#[derive(Clone, Debug)]
pub struct RgbaTexture<T> {
    pub values: Vec<T>,
    pub format: PixelFormat,
    pub height: u32,
    pub width: u32,
}

/// Two different places of a raster have different indices.
pub proof fn lemma_index_is_injective(width: int, x1: int, y1: int, x2: int, y2: int)
    requires
        0 <= x1 < width,
        0 <= x2 < width,
        0 <= y1,
        0 <= y2,
        x1 + y1 * width == x2 + y2 * width,
    ensures
        x1 == x2,
        y1 == y2,
{
    if y1 < y2 {
        assert(y2 * width >= (y1 + 1) * width) by (nonlinear_arith)
            requires
                y1 < y2,
                width > 0,
        ;
        assert((y1 + 1) * width == y1 * width + width) by (nonlinear_arith);
    } else if y2 < y1 {
        assert(y1 * width >= (y2 + 1) * width) by (nonlinear_arith)
            requires
                y2 < y1,
                width > 0,
        ;
        assert((y2 + 1) * width == y2 * width + width) by (nonlinear_arith);
    }
}

/// Every place of a raster has an index below the number of its pixels.
pub proof fn lemma_index_in_range(width: int, height: int, x: int, y: int)
    requires
        0 <= x < width,
        0 <= y < height,
    ensures
        0 <= x + y * width < width * height,
{
    assert(y * width + width <= height * width) by (nonlinear_arith)
        requires
            y < height,
            width > 0,
    ;
    assert(y * width >= 0) by (nonlinear_arith)
        requires
            y >= 0,
            width > 0,
    ;
    assert(height * width == width * height) by (nonlinear_arith);
}

impl<T: Copy> RgbaTexture<T> {
    /// The buffer holds one value for each pixel.
    pub open spec fn wf(&self) -> bool {
        self.values.len() == self.width * self.height
    }

    /// The pixel at `(x, y)`.
    pub open spec fn pixel(&self, x: int, y: int) -> T {
        self.values[x + y * self.width]
    }

    /// A texture whose pixels all hold `pixel`.
    pub fn filled(width: u32, height: u32, format: PixelFormat, pixel: T) -> (tex: Self)
        requires
            width * height <= usize::MAX,
        ensures
            tex.wf(),
            tex.width == width,
            tex.height == height,
            tex.format == format,
            forall|i: int| 0 <= i < width * height ==> #[trigger] tex.values[i] == pixel,
    {
        let count: usize = width as usize * height as usize;
        let mut values: Vec<T> = Vec::with_capacity(count);
        let mut i: usize = 0;
        while i < count
            invariant
                i <= count,
                values.len() == i,
                forall|j: int| 0 <= j < i ==> #[trigger] values[j] == pixel,
            decreases count - i,
        {
            values.push(pixel);
            i += 1;
        }
        RgbaTexture { values, format, height, width }
    }

    /// Writes the pixel at `(x, y)`, which must lie within the texture.
    pub fn set_pixel(&mut self, x: u32, y: u32, pixel: T)
        requires
            old(self).wf(),
            x < old(self).width,
            y < old(self).height,
        ensures
            final(self).wf(),
            final(self).width == old(self).width,
            final(self).height == old(self).height,
            final(self).format == old(self).format,
            final(self).values@ == old(self).values@.update(x + y * old(self).width, pixel),
            final(self).pixel(x as int, y as int) == pixel,
            forall|x2: int, y2: int|
                0 <= x2 < old(self).width && 0 <= y2 < old(self).height && (x2 != x || y2 != y)
                    ==> #[trigger] final(self).pixel(x2, y2) == old(self).pixel(x2, y2),
    {
        proof {
            lemma_index_in_range(self.width as int, self.height as int, x as int, y as int);
            assert(y * self.width >= 0) by (nonlinear_arith)
                requires
                    y >= 0,
                    self.width >= 0,
            ;
        }
        let idx: usize = x as usize + y as usize * self.width as usize;
        self.values[idx] = pixel;
        proof {
            assert forall|x2: int, y2: int|
                0 <= x2 < old(self).width && 0 <= y2 < old(self).height && (x2 != x || y2
                    != y) implies #[trigger] self.pixel(x2, y2) == old(self).pixel(x2, y2) by {
                lemma_index_in_range(self.width as int, self.height as int, x2, y2);
                if x2 + y2 * self.width == x + y * self.width {
                    lemma_index_is_injective(self.width as int, x2, y2, x as int, y as int);
                }
            }
        }
    }

    /// Reads the pixel at `(x, y)`, which must lie within the texture.
    pub fn get_pixel(&self, x: u32, y: u32) -> (pixel: T)
        requires
            self.wf(),
            x < self.width,
            y < self.height,
        ensures
            pixel == self.pixel(x as int, y as int),
    {
        proof {
            lemma_index_in_range(self.width as int, self.height as int, x as int, y as int);
            assert(y * self.width >= 0) by (nonlinear_arith)
                requires
                    y >= 0,
                    self.width >= 0,
            ;
        }
        let idx: usize = x as usize + y as usize * self.width as usize;
        self.values[idx]
    }
}

} // verus!
