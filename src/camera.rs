//! The integer part of the camera's set-up: the size of the image.
use vstd::prelude::*;

verus! {

/// The ratio `horizontal : vertical` of an image's width to its height, such
/// as 16:9.
#[derive(PartialEq, Eq, Structural, Clone, Copy, Debug)]
pub struct AspectRatio {
    pub horizontal: u32,
    pub vertical: u32,
}

/// The height of an image `image_width` pixels wide: the width divided by the
/// aspect ratio, rounded down, and at least one row.
pub open spec fn image_height_of(image_width: nat, aspect: AspectRatio) -> nat {
    let h = image_width * aspect.vertical as nat / aspect.horizontal as nat;
    if h < 1 {
        1
    } else {
        h
    }
}

impl AspectRatio {
    /// The height in rows of an image `image_width` pixels wide.
    pub fn image_height(&self, image_width: u32) -> (h: u64)
        requires
            self.horizontal > 0,
        ensures
            h == image_height_of(image_width as nat, *self),
            h >= 1,
    {
        let (w, v) = (image_width as u64, self.vertical as u64);
        assert(w * v <= 0xFFFF_FFFF * 0xFFFF_FFFF) by (nonlinear_arith)
            requires
                w <= 0xFFFF_FFFF,
                v <= 0xFFFF_FFFF,
        ;
        let scaled: u64 = w * v;
        let h: u64 = scaled / self.horizontal as u64;
        if h < 1 {
            1
        } else {
            h
        }
    }
}

} // verus!
