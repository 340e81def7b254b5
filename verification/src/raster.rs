//! A rectangle of pixels, whatever a pixel is.
use vstd::prelude::*;

verus! {

/// An image of `width` by `height` pixels, held row by row.
#[derive(Debug, PartialEq, Eq)]
pub struct Raster<P> {
    pub width: u32,
    pub height: u32,
    pub pixels: Vec<P>,
}

impl<P: Copy> Raster<P> {
    /// There is exactly one pixel for each place.
    pub open spec fn wf(self) -> bool {
        self.pixels.len() == self.width * self.height
    }

    /// The place `(x, y)` lies inside the image.
    pub open spec fn holds(self, x: int, y: int) -> bool {
        0 <= x < self.width && 0 <= y < self.height
    }

    /// The pixel at `(x, y)`.
    pub open spec fn at(self, x: int, y: int) -> P {
        self.pixels[y * self.width + x]
    }

    /// Where the pixel at `(x, y)` is kept.
    pub proof fn lemma_place(self, x: int, y: int)
        requires
            self.wf(),
            self.holds(x, y),
        ensures
            0 <= y * self.width + x < self.pixels.len(),
            y * self.width + x <= usize::MAX,
    {
        let w = self.width as int;
        let h = self.height as int;
        assert(y * w + x < h * w && y * w >= 0) by (nonlinear_arith)
            requires
                0 <= x < w,
                0 <= y < h,
        ;
        assert(h * w == w * h) by (nonlinear_arith);
    }

    /// An image of the given size with every pixel set to `fill`; none when
    /// the machine cannot count that many pixels.
    pub fn new(width: u32, height: u32, fill: P) -> (made: Option<Raster<P>>)
        ensures
            made is Some <==> width * height <= usize::MAX,
            made is Some ==> {
                &&& made->0.wf()
                &&& made->0.width == width
                &&& made->0.height == height
                &&& forall|i: int| 0 <= i < made->0.pixels.len() ==> made->0.pixels[i] == fill
            },
    {
        assert(width * height <= 0xffff_ffff * 0xffff_ffff) by (nonlinear_arith)
            requires
                0 <= width <= 0xffff_ffff,
                0 <= height <= 0xffff_ffff,
        ;
        let area: u64 = (width as u64) * (height as u64);
        if area > usize::MAX as u64 {
            return None;
        }
        let count: usize = area as usize;
        let mut pixels: Vec<P> = Vec::new();
        let mut i: usize = 0;
        while i < count
            invariant
                i <= count,
                pixels.len() == i,
                forall|j: int| 0 <= j < i ==> pixels[j] == fill,
            decreases count - i,
        {
            pixels.push(fill);
            i += 1;
        }
        Some(Raster { width, height, pixels })
    }

    /// The image that the pixels make when laid out row by row; none when
    /// their number is not `width` times `height`.
    pub fn from_vec(width: u32, height: u32, pixels: Vec<P>) -> (made: Option<Raster<P>>)
        ensures
            made is Some <==> pixels.len() == width * height,
            made is Some ==> made->0.wf() && made->0.width == width && made->0.height == height
                && made->0.pixels == pixels,
    {
        assert(width * height <= 0xffff_ffff * 0xffff_ffff) by (nonlinear_arith)
            requires
                0 <= width <= 0xffff_ffff,
                0 <= height <= 0xffff_ffff,
        ;
        let area: u64 = (width as u64) * (height as u64);
        if pixels.len() as u64 == area {
            Some(Raster { width, height, pixels })
        } else {
            None
        }
    }

    /// The pixel at `(x, y)`.
    pub fn get_pixel(&self, x: u32, y: u32) -> (pixel: P)
        requires
            self.wf(),
            self.holds(x as int, y as int),
        ensures
            pixel == self.at(x as int, y as int),
    {
        proof {
            self.lemma_place(x as int, y as int);
        }
        self.pixels[(y as usize) * (self.width as usize) + (x as usize)]
    }

    /// The pixel at `(x, y)`, or none when the place lies outside the
    /// image.
    pub fn get_pixel_checked(&self, x: u32, y: u32) -> (pixel: Option<P>)
        requires
            self.wf(),
        ensures
            pixel is Some <==> self.holds(x as int, y as int),
            pixel is Some ==> pixel->0 == self.at(x as int, y as int),
    {
        if x < self.width && y < self.height {
            Some(self.get_pixel(x, y))
        } else {
            None
        }
    }

    /// Sets the pixel at `(x, y)` and leaves every other pixel as it is.
    pub fn put_pixel(&mut self, x: u32, y: u32, pixel: P)
        requires
            old(self).wf(),
            old(self).holds(x as int, y as int),
        ensures
            final(self).wf(),
            final(self).width == old(self).width,
            final(self).height == old(self).height,
            final(self).pixels@ == old(self).pixels@.update(
                y * old(self).width + x,
                pixel,
            ),
            final(self).at(x as int, y as int) == pixel,
    {
        proof {
            self.lemma_place(x as int, y as int);
        }
        let place: usize = (y as usize) * (self.width as usize) + (x as usize);
        self.pixels.set(place, pixel);
    }
}

} // verus!
