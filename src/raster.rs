use vstd::prelude::*;
use crate::color::Rgba;
use crate::widget::Frame;

verus! {

/// A row-major RGBA pixel buffer: pixel `(x, y)` is `pixels[y * width + x]`.
#[derive(Debug)]
pub struct Raster {
    pub width: u32,
    pub height: u32,
    pub pixels: Vec<Rgba>,
}

/// The fully transparent black pixel a new raster starts with.
pub open spec fn transparent() -> Rgba {
    Rgba { r: 0, g: 0, b: 0, a: 0 }
}

/// The index of pixel `(x, y)` in a row-major buffer `width` pixels wide.
pub open spec fn index_of(x: int, y: int, width: int) -> int {
    y * width + x
}

/// Whether `(x, y)` lies in the box `f`.
pub open spec fn in_frame(x: int, y: int, f: Frame) -> bool {
    f.x <= x < f.x + f.width && f.y <= y < f.y + f.height
}

/// `pixels` (a buffer `width` pixels wide) with every pixel inside `f` set to `c`.
pub open spec fn filled(pixels: Seq<Rgba>, width: int, f: Frame, c: Rgba) -> Seq<Rgba> {
    Seq::new(
        pixels.len(),
        |i: int|
            if in_frame(i % width, i / width, f) {
                c
            } else {
                pixels[i]
            },
    )
}

proof fn lemma_index_in_range(x: int, y: int, w: int, h: int)
    requires
        0 <= x < w,
        0 <= y < h,
    ensures
        0 <= y * w <= index_of(x, y, w) < w * h,
{
    assert(0 <= y * w <= y * w + x < w * h) by (nonlinear_arith)
        requires
            0 <= x < w,
            0 <= y < h,
    ;
}

impl Raster {
    /// The buffer holds exactly one pixel per coordinate.
    pub open spec fn wf(&self) -> bool {
        self.pixels@.len() == self.width as nat * self.height as nat
    }

    /// The pixel at `(x, y)`.
    pub open spec fn at(&self, x: int, y: int) -> Rgba {
        self.pixels@[index_of(x, y, self.width as int)]
    }

    /// A `width × height` raster of transparent pixels.
    pub fn new(width: u32, height: u32) -> (r: Raster)
        requires
            width as nat * height as nat <= usize::MAX,
        ensures
            r.wf(),
            r.width == width,
            r.height == height,
            forall|i: int| 0 <= i < r.pixels@.len() ==> r.pixels@[i] == transparent(),
    {
        let n = (width as usize) * (height as usize);
        let mut pixels: Vec<Rgba> = Vec::new();
        let mut i: usize = 0;
        while i < n
            invariant
                i <= n,
                pixels@.len() == i,
                forall|k: int| 0 <= k < i ==> pixels@[k] == transparent(),
            decreases n - i,
        {
            pixels.push(Rgba { r: 0, g: 0, b: 0, a: 0 });
            i = i + 1;
        }
        Raster { width, height, pixels }
    }

    /// A raster over `pixels`, or `None` when their number is not `width × height`.
    pub fn from_pixels(width: u32, height: u32, pixels: Vec<Rgba>) -> (r: Option<Raster>)
        ensures
            r is Some <==> pixels@.len() == width as nat * height as nat,
            r matches Some(ras) ==> ras.wf() && ras.width == width && ras.height == height
                && ras.pixels@ == pixels@,
    {
        proof {
            assert(width as nat * height as nat <= u32::MAX as nat * u32::MAX as nat)
                by (nonlinear_arith);
        }
        if (width as u128) * (height as u128) != pixels.len() as u128 {
            return None;
        }
        Some(Raster { width, height, pixels })
    }

    /// The pixel at `(x, y)`.
    pub fn get_pixel(&self, x: u32, y: u32) -> (r: Rgba)
        requires
            self.wf(),
            x < self.width,
            y < self.height,
        ensures
            r == self.at(x as int, y as int),
    {
        let len = self.pixels.len();
        proof {
            lemma_index_in_range(x as int, y as int, self.width as int, self.height as int);
            assert(index_of(x as int, y as int, self.width as int) < len);
        }
        let row = (y as usize) * (self.width as usize);
        self.pixels[row + (x as usize)]
    }

    /// Writes `c` at `(x, y)` and nothing else.
    pub fn put_pixel(&mut self, x: u32, y: u32, c: Rgba)
        requires
            old(self).wf(),
            x < old(self).width,
            y < old(self).height,
        ensures
            final(self).wf(),
            final(self).width == old(self).width,
            final(self).height == old(self).height,
            final(self).pixels@ == old(self).pixels@.update(
                index_of(x as int, y as int, old(self).width as int),
                c,
            ),
    {
        let len = self.pixels.len();
        proof {
            lemma_index_in_range(x as int, y as int, self.width as int, self.height as int);
            assert(index_of(x as int, y as int, self.width as int) < len);
        }
        let row = (y as usize) * (self.width as usize);
        let i = row + (x as usize);
        self.pixels.set(i, c);
    }

    /// Overwrites every pixel of the box `f` that lies on the raster with `c`;
    /// the parts of `f` off the raster are clipped.
    pub fn fill_box(&mut self, f: Frame, c: Rgba)
        requires
            old(self).wf(),
        ensures
            final(self).wf(),
            final(self).width == old(self).width,
            final(self).height == old(self).height,
            final(self).pixels@ == filled(old(self).pixels@, old(self).width as int, f, c),
    {
        let ghost start = self.pixels@;
        let n = self.pixels.len();
        let w = self.width as usize;
        let mut i: usize = 0;
        while i < n
            invariant
                n == self.pixels@.len(),
                n == start.len(),
                w == self.width,
                self.wf(),
                self.width == old(self).width,
                self.height == old(self).height,
                start == old(self).pixels@,
                i <= n,
                forall|k: int| 0 <= k < i ==> self.pixels@[k] == filled(start, w as int, f, c)[k],
                forall|k: int| i <= k < n ==> self.pixels@[k] == start[k],
            decreases n - i,
        {
            proof {
                assert(w > 0) by (nonlinear_arith)
                    requires
                        i < n,
                        n == w as nat * self.height as nat,
                ;
            }
            let x = (i % w) as u64;
            let y = (i / w) as u64;
            if (f.x as u64) <= x && x < (f.x as u64) + (f.width as u64) && (f.y as u64) <= y && y
                < (f.y as u64) + (f.height as u64) {
                self.pixels.set(i, c);
            }
            i = i + 1;
        }
        proof {
            assert(self.pixels@ =~= filled(start, w as int, f, c));
        }
    }
}

} // verus!
