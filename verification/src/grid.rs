//! Dense row-major grids sized from the image resolution.

use vstd::prelude::*;

verus! {

/// A dense height x width grid stored row-major.
pub struct Grid<T> {
    pub data: Vec<T>,
    pub height: usize,
    pub width: usize,
}

impl<T: Copy> Grid<T> {
    /// Structural invariant: the backing vector matches the declared
    /// resolution, and each dimension is small enough that indices
    /// cannot overflow the machine word.
    pub open spec fn wf(self) -> bool {
        &&& self.data@.len() == self.height * self.width
        &&& self.height <= 0x3FFF_FFFF
        &&& self.width <= 0x3FFF_FFFF
    }

    /// The element at row y, column x.
    pub open spec fn at(self, y: int, x: int) -> T {
        self.data@[y * self.width + x]
    }

    /// Allocate a grid filled with one value.
    pub fn new(height: usize, width: usize, fill: T) -> (r: Self)
        requires
            height <= 0x3FFF_FFFF,
            width <= 0x3FFF_FFFF,
            height * width <= usize::MAX,
        ensures
            r.wf(),
            r.height == height,
            r.width == width,
            r.data@ == Seq::new((height * width) as nat, |i: int| fill),
    {
        let n: usize = height * width;
        let mut data: Vec<T> = Vec::new();
        let mut i: usize = 0;
        while i < n
            invariant
                i <= n,
                data@ =~= Seq::new(i as nat, |k: int| fill),
            decreases n - i,
        {
            data.push(fill);
            i = i + 1;
        }
        Grid { data, height, width }
    }

    /// Read the element at row y, column x.
    pub fn get(&self, y: usize, x: usize) -> (r: T)
        requires
            self.wf(),
            y < self.height,
            x < self.width,
        ensures
            r == self.at(y as int, x as int),
    {
        let n: usize = self.data.len();
        proof {
            assert(y * self.width + x < self.height * self.width) by (nonlinear_arith)
                requires y < self.height, x < self.width;
        }
        self.data[y * self.width + x]
    }

    /// Write the element at row y, column x.
    pub fn set(&mut self, y: usize, x: usize, v: T)
        requires
            old(self).wf(),
            y < old(self).height,
            x < old(self).width,
        ensures
            final(self).wf(),
            final(self).height == old(self).height,
            final(self).width == old(self).width,
            final(self).data@ == old(self).data@.update(y * old(self).width + x, v),
    {
        let n: usize = self.data.len();
        proof {
            assert(y * self.width + x < self.height * self.width) by (nonlinear_arith)
                requires y < self.height, x < self.width;
        }
        let i: usize = y * self.width + x;
        self.data.set(i, v);
    }

    /// An identical copy of the grid.
    pub fn duplicate(&self) -> (r: Self)
        requires
            self.wf(),
        ensures
            r.wf(),
            r.height == self.height,
            r.width == self.width,
            r.data@ == self.data@,
    {
        let mut data: Vec<T> = Vec::new();
        let mut i: usize = 0;
        let n: usize = self.data.len();
        while i < n
            invariant
                i <= n,
                n == self.data@.len(),
                data@ =~= self.data@.subrange(0, i as int),
            decreases n - i,
        {
            data.push(self.data[i]);
            i = i + 1;
        }
        proof {
            assert(data@ =~= self.data@);
        }
        Grid { data, height: self.height, width: self.width }
    }
}

/// A dense height x width x channels pixel buffer stored row-major,
/// one IEEE binary32 bit pattern per channel sample.
pub struct ImageBuffer {
    pub data: Vec<u32>,
    pub height: usize,
    pub width: usize,
    pub channels: usize,
}

impl ImageBuffer {
    /// Structural invariant: the backing vector matches the declared
    /// resolution and channel count, and each dimension is bounded.
    pub open spec fn wf(self) -> bool {
        &&& self.data@.len() == self.height * self.width * self.channels
        &&& self.height <= 0x3FFF_FFFF
        &&& self.width <= 0x3FFF_FFFF
        &&& 1 <= self.channels <= 0x3FFF_FFFF
    }

    /// Index of channel ch of the pixel at row y, column x.
    pub open spec fn index(self, y: int, x: int, ch: int) -> int {
        (y * self.width + x) * self.channels + ch
    }

    /// The sample at row y, column x, channel ch.
    pub open spec fn at(self, y: int, x: int, ch: int) -> u32 {
        self.data@[self.index(y, x, ch)]
    }

    /// Build a buffer from its parts.
    pub fn from_parts(data: Vec<u32>, height: usize, width: usize, channels: usize)
        -> (r: core::result::Result<Self, crate::error::Error>)
        ensures
            match r {
                Ok(b) => {
                    &&& b.wf()
                    &&& b.height == height
                    &&& b.width == width
                    &&& b.channels == channels
                    &&& b.data@ == data@
                    &&& data@.len() == height * width * channels
                },
                Err(e) => {
                    &&& e == crate::error::Error::Shape
                    &&& !(data@.len() == height * width * channels
                        && height <= 0x3FFF_FFFF && width <= 0x3FFF_FFFF
                        && 1 <= channels <= 0x3FFF_FFFF)
                },
            },
    {
        if height > 0x3FFF_FFFF || width > 0x3FFF_FFFF || channels > 0x3FFF_FFFF || channels == 0 {
            return Err(crate::error::Error::Shape);
        }
        proof {
            assert(height * width <= 0x3FFF_FFFF * 0x3FFF_FFFF) by (nonlinear_arith)
                requires height <= 0x3FFF_FFFF, width <= 0x3FFF_FFFF;
            assert(height * width * channels < 0x1000_0000_0000_0000_0000_0000) by (nonlinear_arith)
                requires height * width <= 0x3FFF_FFFF * 0x3FFF_FFFF, channels <= 0x3FFF_FFFF;
        }
        let need: u128 = ((height as u128) * (width as u128)) * (channels as u128);
        if (data.len() as u128) != need {
            return Err(crate::error::Error::Shape);
        }
        Ok(ImageBuffer { data, height, width, channels })
    }

    /// Read the sample at row y, column x, channel ch.
    pub fn get(&self, y: usize, x: usize, ch: usize) -> (r: u32)
        requires
            self.wf(),
            y < self.height,
            x < self.width,
            ch < self.channels,
        ensures
            r == self.at(y as int, x as int, ch as int),
    {
        let n: usize = self.data.len();
        proof {
            assert((y * self.width + x) * self.channels + ch < self.height * self.width * self.channels
                && y * self.width + x < self.height * self.width
                && (y * self.width + x) * self.channels <= (y * self.width + x) * self.channels + ch
                && self.height * self.width <= self.height * self.width * self.channels)
                by (nonlinear_arith)
                requires y < self.height, x < self.width, ch < self.channels, 1 <= self.channels;
        }
        let i: usize = (y * self.width + x) * self.channels + ch;
        self.data[i]
    }

    /// Write the sample at row y, column x, channel ch.
    pub fn set(&mut self, y: usize, x: usize, ch: usize, v: u32)
        requires
            old(self).wf(),
            y < old(self).height,
            x < old(self).width,
            ch < old(self).channels,
        ensures
            final(self).wf(),
            final(self).height == old(self).height,
            final(self).width == old(self).width,
            final(self).channels == old(self).channels,
            final(self).data@ == old(self).data@.update(old(self).index(y as int, x as int, ch as int), v),
    {
        let n: usize = self.data.len();
        proof {
            assert((y * self.width + x) * self.channels + ch < self.height * self.width * self.channels
                && y * self.width + x < self.height * self.width
                && (y * self.width + x) * self.channels <= (y * self.width + x) * self.channels + ch
                && self.height * self.width <= self.height * self.width * self.channels)
                by (nonlinear_arith)
                requires y < self.height, x < self.width, ch < self.channels, 1 <= self.channels;
        }
        let i: usize = (y * self.width + x) * self.channels + ch;
        self.data.set(i, v);
    }
}

} // verus!
