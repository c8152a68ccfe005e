use vstd::prelude::*;

use crate::palette::{condense, packed_code};

verus! {

/// A decoded true-color raster: `width * height` pixels in row-major order,
/// three bytes (red, green, blue) each.
pub struct RgbRaster {
    width: u32,
    height: u32,
    data: Vec<u8>,
}

impl RgbRaster {
    pub closed spec fn width_spec(&self) -> nat {
        self.width as nat
    }

    pub closed spec fn height_spec(&self) -> nat {
        self.height as nat
    }

    /// The raw samples, three per pixel.
    pub closed spec fn bytes(&self) -> Seq<u8> {
        self.data@
    }

    pub open spec fn pixel_count(&self) -> nat {
        self.width_spec() * self.height_spec()
    }

    /// The sample buffer holds exactly three bytes per pixel.
    pub open spec fn wf(&self) -> bool {
        self.bytes().len() == 3 * self.pixel_count()
    }

    /// The packed code of pixel `k`, counted in row-major order.
    pub open spec fn code_at(&self, k: int) -> u16 {
        packed_code(self.bytes()[3 * k], self.bytes()[3 * k + 1], self.bytes()[3 * k + 2])
    }

    /// The packed codes of all pixels in row-major order.
    pub open spec fn codes(&self) -> Seq<u16> {
        Seq::new(self.pixel_count(), |k: int| self.code_at(k))
    }

    /// A raster over `data`, or `None` when `data` does not hold exactly
    /// three bytes for each of the `width * height` pixels.
    pub fn new(width: u32, height: u32, data: Vec<u8>) -> (r: Option<Self>)
        ensures
            (r is Some) <==> data@.len() == 3 * (width as nat * height as nat),
            r matches Some(im) ==> im.wf() && im.width_spec() == width && im.height_spec() == height
                && im.bytes() == data@,
    {
        let len = data.len();
        proof {
            let (w, h) = (width as nat, height as nat);
            assert(w * h <= 0xFFFF_FFFFnat * 0xFFFF_FFFFnat) by (nonlinear_arith)
                requires
                    w <= 0xFFFF_FFFFnat,
                    h <= 0xFFFF_FFFFnat,
            ;
        }
        let n = (width as u64) * (height as u64);
        if len % 3 == 0 && (len / 3) as u64 == n {
            Some(RgbRaster { width, height, data })
        } else {
            None
        }
    }

    pub fn width(&self) -> (w: u32)
        ensures
            w == self.width_spec(),
    {
        self.width
    }

    pub fn height(&self) -> (h: u32)
        ensures
            h == self.height_spec(),
    {
        self.height
    }

    /// The number of pixels.
    pub fn num_pixels(&self) -> (n: usize)
        requires
            self.wf(),
        ensures
            n == self.pixel_count(),
    {
        self.data.len() / 3
    }

    /// The packed code of pixel `k` in row-major order.
    pub fn pixel_code(&self, k: usize) -> (code: u16)
        requires
            self.wf(),
            k < self.pixel_count(),
        ensures
            code == self.code_at(k as int),
    {
        let len = self.data.len();
        proof {
            let pc = self.pixel_count();
            assert(3 * k + 2 < len);
        }
        condense(self.data[3 * k], self.data[3 * k + 1], self.data[3 * k + 2])
    }

    /// The codes of the reserved strip: the last eight pixels of row 0.
    pub open spec fn strip_codes(&self) -> Seq<u16> {
        self.codes().subrange(self.width_spec() - 8, self.width_spec() as int)
    }

    /// With at least one row, every pixel of row 0 is a pixel of the raster.
    pub proof fn lemma_row_zero(&self)
        requires
            self.height_spec() >= 1,
        ensures
            self.width_spec() <= self.pixel_count(),
    {
        let (w, h) = (self.width_spec(), self.height_spec());
        assert(w <= w * h) by (nonlinear_arith)
            requires
                h >= 1,
        ;
    }
}

} // verus!
