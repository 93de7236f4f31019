use vstd::prelude::*;

verus! {

/// A binarized image: one boolean per pixel, row-major, `true` for a dark
/// pixel. This is the boolean-grid contract that the thresholding stage
/// hands to the core.
pub struct BinaryImage {
    pub width: usize,
    pub height: usize,
    pub bits: Vec<bool>,
}

impl BinaryImage {
    pub open spec fn wf(&self) -> bool {
        &&& self.bits@.len() == self.width * self.height
        &&& self.width <= 0x100000
        &&& self.height <= 0x100000
    }

    /// The pixel at column `x`, row `y`; `true` is dark.
    pub open spec fn pixel(&self, x: int, y: int) -> bool {
        self.bits@[y * self.width + x]
    }

    /// The sample taken at a possibly out-of-range coordinate: pixels
    /// outside the image read as light.
    pub open spec fn spec_sample(&self, x: int, y: int) -> bool {
        0 <= x < self.width && 0 <= y < self.height && self.pixel(x, y)
    }

    /// Every pixel equals the first one: an all-dark or all-light image.
    pub open spec fn is_constant(&self) -> bool {
        forall|i: int| 0 <= i < self.bits@.len() ==> #[trigger] self.bits@[i] == self.bits@[0]
    }

    pub fn new(width: usize, height: usize, bits: Vec<bool>) -> (r: BinaryImage)
        requires
            width <= 0x100000,
            height <= 0x100000,
            bits@.len() == width * height,
        ensures
            r.wf(),
            r.width == width,
            r.height == height,
            r.bits@ == bits@,
    {
        BinaryImage { width, height, bits }
    }

    pub fn get(&self, x: usize, y: usize) -> (r: bool)
        requires
            self.wf(),
            x < self.width,
            y < self.height,
        ensures
            r == self.pixel(x as int, y as int),
    {
        let _n = self.bits.len();
        proof {
            assert(y * self.width + x < self.width * self.height) by (nonlinear_arith)
                requires
                    x < self.width,
                    y < self.height,
            ;
        }
        self.bits[y * self.width + x]
    }

    /// Sample at a signed coordinate; out-of-range samples read as light.
    pub fn sample(&self, x: i64, y: i64) -> (r: bool)
        requires
            self.wf(),
        ensures
            r == self.spec_sample(x as int, y as int),
    {
        if 0 <= x && x < self.width as i64 && 0 <= y && y < self.height as i64 {
            self.get(x as usize, y as usize)
        } else {
            false
        }
    }
}

} // verus!
