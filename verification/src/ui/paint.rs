//! Painting a whole frame into the payload of a shared slot.
//!
//! A payload is the header of the frame and then its pixels. Publishing the
//! slot is up to the caller.
use vstd::prelude::*;

use crate::ui::canvas::Canvas;

verus! {

/// Bytes of a frame header.
pub const HDR_BYTES: usize = 32;

/// The header of a frame: its geometry, and the bytes that announce it.
#[derive(Debug, Clone, Copy)]
pub struct FrameHeader {
    pub width: u16,
    pub height: u16,
    pub encoded: [u8; 32],
}

impl FrameHeader {
    /// Bytes of the frame: the header and four per pixel.
    pub open spec fn size(&self) -> int {
        32 + self.width * self.height * 4
    }

    /// Bytes of the frame, or the largest number there is.
    pub fn frame_bytes(&self) -> (r: usize)
        ensures
            r == (if self.size() > usize::MAX {
                usize::MAX as int
            } else {
                self.size()
            }),
    {
        let exact: u64 = self.exact_bytes();
        if exact > usize::MAX as u64 {
            usize::MAX
        } else {
            exact as usize
        }
    }

    fn exact_bytes(&self) -> (r: u64)
        ensures
            r == self.size(),
    {
        assert(self.width * self.height <= 0xffff * 0xffff) by (nonlinear_arith)
            requires
                self.width <= 0xffff,
                self.height <= 0xffff,
        ;
        32 + self.width as u64 * self.height as u64 * 4
    }
}

/// Errors of [`paint_frame`].
#[derive(Debug, PartialEq, Eq)]
pub enum PaintError {
    /// The payload does not have the size that the header declares. The frame
    /// must not be published.
    SizeMismatch { w: u16, h: u16, want: usize, got: usize },
}

/// Writes the header and lends the rest of the payload as a canvas.
pub fn begin_frame<'a>(payload: &'a mut [u8], hdr: &FrameHeader) -> (r: Result<
    Canvas<'a>,
    PaintError,
>)
    ensures
        r is Ok <==> old(payload)@.len() == hdr.size() && hdr.width > 0 && hdr.height > 0,
        r matches Ok(c) ==> c.wf() && c.w == hdr.width && c.h == hdr.height && c.buf@
            == old(payload)@.skip(32) && final(payload)@ == hdr.encoded@ + final(c.buf)@,
        r matches Err(PaintError::SizeMismatch { w, h, want, got }) ==> w == hdr.width && h
            == hdr.height && got == old(payload)@.len() && want == (if hdr.size() > usize::MAX {
            usize::MAX as int
        } else {
            hdr.size()
        }),
        r is Err && old(payload)@.len() != hdr.size() ==> final(payload)@ == old(payload)@,
        r is Err && old(payload)@.len() == hdr.size() ==> final(payload)@ == hdr.encoded@,
{
    let want: usize = hdr.frame_bytes();
    let got: usize = payload.len();
    let (w, h) = (hdr.width, hdr.height);
    if got as u64 != hdr.exact_bytes() {
        return Err(PaintError::SizeMismatch { w, h, want, got });
    }
    assert(w * h >= 0) by (nonlinear_arith)
        requires
            w >= 0,
            h >= 0,
    ;
    let (head, pixels) = payload.split_at_mut(32);
    let mut i: usize = 0;
    let ghost head_end = final(head)@;
    while i < 32
        invariant
            i <= 32,
            head@.len() == 32,
            final(head)@ == head_end,
            forall|k: int| 0 <= k < i ==> head@[k] == hdr.encoded@[k],
        decreases 32 - i,
    {
        head[i] = hdr.encoded[i];
        i += 1;
    }
    assert(head@ =~= hdr.encoded@);
    match Canvas::new_rgba(pixels, w as u32, h as u32) {
        Ok(canvas) => Ok(canvas),
        Err(_) => {
            assert(w == 0 || h == 0);
            assert(w * h == 0) by (nonlinear_arith)
                requires
                    w == 0 || h == 0,
            ;
            Err(PaintError::SizeMismatch { w, h, want, got })
        },
    }
}

/// Paints a frame: checks the geometry, writes the header, and lets `painter`
/// draw on the pixels.
pub fn paint_frame<F: FnOnce(&mut Canvas)>(
    payload: &mut [u8],
    hdr: &FrameHeader,
    painter: F,
) -> (r: Result<(), PaintError>)
    requires
        forall|c: &mut Canvas|
            c.wf() && c.w == hdr.width && c.h == hdr.height && c.buf@ == old(payload)@.skip(32)
                ==> call_requires(painter, (c,)),
    ensures
        r is Ok <==> old(payload)@.len() == hdr.size() && hdr.width > 0 && hdr.height > 0,
        r is Ok ==> final(payload)@.take(32) == hdr.encoded@,
        r is Ok ==> exists|c: &mut Canvas|
            {
                &&& c.wf()
                &&& c.w == hdr.width
                &&& c.h == hdr.height
                &&& c.buf@ == old(payload)@.skip(32)
                &&& #[trigger] call_ensures(painter, (c,), ())
                &&& final(final(c).buf)@ == final(c.buf)@ ==> final(payload)@.skip(32)
                    == final(c).buf@
            },
        r matches Err(PaintError::SizeMismatch { w, h, want, got }) ==> w == hdr.width && h
            == hdr.height && got == old(payload)@.len() && want == (if hdr.size() > usize::MAX {
            usize::MAX as int
        } else {
            hdr.size()
        }),
        r is Err && old(payload)@.len() != hdr.size() ==> final(payload)@ == old(payload)@,
        r is Err && old(payload)@.len() == hdr.size() ==> final(payload)@ == hdr.encoded@,
{
    match begin_frame(payload, hdr) {
        Ok(canvas) => {
            let mut canvas = canvas;
            painter(&mut canvas);
            Ok(())
        },
        Err(e) => Err(e),
    }
}

} // verus!
