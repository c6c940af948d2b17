//! Grids of luminance samples.

use vstd::prelude::*;

verus! {

/// A grid of luminance samples, stored row by row from the top left.
#[derive(Debug)]
pub struct Raster {
    pub width: u32,
    pub height: u32,
    pub data: Vec<u8>,
}

impl Raster {
    /// One sample is stored for each position of the grid.
    pub open spec fn wf(&self) -> bool {
        self.data@.len() == self.width * self.height
    }

    /// The sample in column `x` of row `y`.
    pub open spec fn sample(&self, x: int, y: int) -> u8
        recommends
            0 <= x < self.width,
            0 <= y < self.height,
    {
        self.data@[y * self.width + x]
    }

    /// Number of samples in the grid.
    pub open spec fn pixel_count(&self) -> int {
        self.width * self.height
    }

    /// Makes a raster from its samples, if there is exactly one per position.
    pub fn new(width: u32, height: u32, data: Vec<u8>) -> (r: Option<Raster>)
        ensures
            r is Some <==> data@.len() == width * height,
            r matches Some(raster) ==> raster.wf() && raster.width == width && raster.height
                == height && raster.data@ == data@,
    {
        assert(width * height <= 0xffff_ffff * 0xffff_ffff) by (nonlinear_arith)
            requires
                width <= 0xffff_ffff,
                height <= 0xffff_ffff,
        ;
        let expected: u64 = (width as u64) * (height as u64);
        if data.len() as u64 == expected {
            Some(Raster { width, height, data })
        } else {
            None
        }
    }

    /// Reads the sample in column `x` of row `y`.
    pub fn get(&self, x: u32, y: u32) -> (v: u8)
        requires
            self.wf(),
            x < self.width,
            y < self.height,
        ensures
            v == self.sample(x as int, y as int),
    {
        let stride: usize = self.width as usize;
        let row: usize = y as usize;
        let column: usize = x as usize;
        let stored: usize = self.data.len();
        let ghost rows = self.height as int;
        assert(0 <= row * stride && row * stride + column < stride * rows) by (nonlinear_arith)
            requires
                column < stride,
                row < rows,
        ;
        assert(row * stride + column < stored);
        self.data[row * stride + column]
    }
}

} // verus!
