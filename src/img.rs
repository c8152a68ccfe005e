use vstd::prelude::*;

use crate::palette::{first_seen, Error, Palette, PALETTE_LEN};
use crate::raster::RgbRaster;

verus! {

/// An indexed image: its size, its palette and one palette index per pixel
/// in row-major order.
pub struct Image {
    width: u32,
    height: u32,
    pal: Palette,
    data: Vec<u8>,
}

impl Image {
    pub closed spec fn width_spec(&self) -> nat {
        self.width as nat
    }

    pub closed spec fn height_spec(&self) -> nat {
        self.height as nat
    }

    pub closed spec fn pal_spec(&self) -> Palette {
        self.pal
    }

    pub closed spec fn data_spec(&self) -> Seq<u8> {
        self.data@
    }

    /// The image has the size of `im`, and its indices give, for each pixel of
    /// `im`, the first slot of its palette in use that holds the pixel's code.
    pub open spec fn indexes_raster(&self, im: RgbRaster) -> bool {
        &&& self.width_spec() == im.width_spec()
        &&& self.height_spec() == im.height_spec()
        &&& self.pal_spec().indexes(im.codes(), self.data_spec())
    }

    /// Converts `im`. With `indexed`, the palette is read from the reserved
    /// strip (the last eight pixels of row 0) and every pixel must have a code
    /// found there; without it, the palette collects the image's codes in order
    /// of first appearance and must not need more than sixteen slots.
    pub fn init(im: RgbRaster, indexed: bool) -> (r: Result<Self, Error>)
        requires
            im.wf(),
            indexed ==> im.width_spec() >= 8 && im.height_spec() >= 1,
        ensures
            indexed ==> ((r is Ok) <==> (forall|k: int|
                0 <= k < im.pixel_count() ==> first_seen(im.strip_codes()).contains(#[trigger] im.codes()[k]))),
            !indexed ==> ((r is Ok) <==> im.codes().to_set().len() <= PALETTE_LEN),
            r matches Ok(img) ==> img.indexes_raster(im),
            r matches Ok(img) ==> indexed ==> img.pal_spec().holds_exactly(first_seen(im.strip_codes())),
            r matches Ok(img) ==> !indexed ==> img.pal_spec().holds_exactly(first_seen(im.codes())),
            r matches Err(e) ==> e == (if indexed { Error::UnindexedColor } else { Error::TooManyColors }),
    {
        if indexed {
            Self::init_indexed(im)
        } else {
            Self::init_unindexed(im)
        }
    }

    pub fn width(&self) -> (w: u32)
        ensures
            w == self.width_spec(),
    {
        self.width
    }

    pub fn height(&self) -> (h: u32)
        ensures
            h == self.height_spec(),
    {
        self.height
    }

    pub fn pal(&self) -> (p: &Palette)
        ensures
            *p == self.pal_spec(),
    {
        &self.pal
    }

    /// Splits the image into its index buffer and its palette.
    pub fn data(self) -> (r: (Vec<u8>, Palette))
        ensures
            r.0@ == self.data_spec(),
            r.1 == self.pal_spec(),
    {
        (self.data, self.pal)
    }

    fn init_indexed(im: RgbRaster) -> (r: Result<Self, Error>)
        requires
            im.wf(),
            im.width_spec() >= 8,
            im.height_spec() >= 1,
        ensures
            (r is Ok) <==> (forall|k: int|
                0 <= k < im.pixel_count() ==> first_seen(im.strip_codes()).contains(#[trigger] im.codes()[k])),
            r matches Ok(img) ==> img.indexes_raster(im)
                && img.pal_spec().holds_exactly(first_seen(im.strip_codes())),
            r matches Err(e) ==> e == Error::UnindexedColor,
    {
        let pal = Palette::from_indexed_image(&im);
        let data = match pal.index_image(&im) {
            Ok(data) => data,
            Err(e) => {
                return Err(e);
            },
        };
        Ok(Image { width: im.width(), height: im.height(), data, pal })
    }

    fn init_unindexed(im: RgbRaster) -> (r: Result<Self, Error>)
        requires
            im.wf(),
        ensures
            (r is Ok) <==> im.codes().to_set().len() <= PALETTE_LEN,
            r matches Ok(img) ==> img.indexes_raster(im)
                && img.pal_spec().holds_exactly(first_seen(im.codes())),
            r matches Err(e) ==> e == Error::TooManyColors,
    {
        let (pal, data) = match Palette::from_unindexed_image(&im) {
            Ok(res) => res,
            Err(e) => {
                return Err(e);
            },
        };
        Ok(Image { width: im.width(), height: im.height(), data, pal })
    }
}

} // verus!
