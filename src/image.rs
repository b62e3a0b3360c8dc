use vstd::prelude::*;

use crate::point::Point2;

verus! {

/// Decoded pixels, row by row, `bpp` bytes per pixel.
pub struct Image {
    data: Vec<u8>,
    size: Point2<usize>,
    bpp: usize,
}

impl Image {
    pub closed spec fn data_spec(&self) -> Seq<u8> {
        self.data@
    }

    pub closed spec fn size_spec(&self) -> Point2<usize> {
        self.size
    }

    pub closed spec fn bpp_spec(&self) -> usize {
        self.bpp
    }

    /// An image of RGBA pixels, four bytes each.
    pub fn from_rgba(data: Vec<u8>, size: Point2<usize>) -> (r: Self)
        ensures
            r.data_spec() == data@,
            r.size_spec() == size,
            r.bpp_spec() == 4,
    {
        Image { data, size, bpp: 4 }
    }

    pub fn data(&self) -> (r: &[u8])
        ensures
            r@ == self.data_spec(),
    {
        self.data.as_slice()
    }

    pub fn size(&self) -> (r: &Point2<usize>)
        ensures
            *r == self.size_spec(),
    {
        &self.size
    }

    pub fn bpp(&self) -> (r: usize)
        ensures
            r == self.bpp_spec(),
    {
        self.bpp
    }

    /// Bytes in one row of pixels.
    pub fn bytes_row(&self) -> (r: usize)
        requires
            self.bpp_spec() * self.size_spec().x <= usize::MAX,
        ensures
            r == self.bpp_spec() * self.size_spec().x,
    {
        self.bpp * self.size.x
    }
}

} // verus!
