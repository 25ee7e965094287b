use vstd::prelude::*;

verus! {

/// An owned, immutable pixel buffer: `width * height` pixels of 24-bit RGB,
/// row-major, with no row padding.
pub struct Frame {
    pub width: u32,
    pub height: u32,
    pub pixels: Vec<u8>,
}

/// The mathematical content of a [`Frame`].
pub ghost struct FrameView {
    pub width: int,
    pub height: int,
    pub pixels: Seq<u8>,
}

impl View for Frame {
    type V = FrameView;

    open spec fn view(&self) -> FrameView {
        FrameView {
            width: self.width as int,
            height: self.height as int,
            pixels: self.pixels@,
        }
    }
}

impl FrameView {
    /// A frame is well formed when it has at least one pixel in each
    /// dimension and its buffer holds exactly 3 bytes per pixel.
    pub open spec fn wf(self) -> bool {
        &&& 1 <= self.width
        &&& 1 <= self.height
        &&& self.pixels.len() == self.width * self.height * 3
    }
}

impl Frame {
    pub open spec fn wf(self) -> bool {
        self@.wf()
    }

    /// Builds a frame, checking that the buffer length matches the
    /// dimensions; rejects empty dimensions and mismatched buffers.
    pub fn new(width: u32, height: u32, pixels: Vec<u8>) -> (r: Option<Frame>)
        ensures
            r is Some <==> (1 <= width && 1 <= height && pixels@.len() == width * height * 3),
            r matches Some(f) ==> f.width == width && f.height == height && f.pixels == pixels
                && f.wf(),
    {
        proof {
            assert((width as u128) * (height as u128) * 3 < u128::MAX) by (nonlinear_arith)
                requires
                    width <= u32::MAX,
                    height <= u32::MAX,
            ;
        }
        let expected: u128 = (width as u128) * (height as u128) * 3;
        if width >= 1 && height >= 1 && (pixels.len() as u128) == expected {
            Some(Frame { width, height, pixels })
        } else {
            None
        }
    }
}

} // verus!
