//! The capability that every wire format offers: decode one frame at a
//! position of a stream, or signal a clean end, or fail.
use vstd::prelude::*;
use crate::model::{DecodeError, FrameStep};

verus! {

/// A decoder of one wire format.
pub trait FrameDecoder {
    /// What a frame decodes to.
    type Frame;

    /// The framing of the frame at `p`: end, failure, or where the next
    /// frame starts.
    spec fn step(b: Seq<u8>, p: int) -> FrameStep;

    /// Decode the frame at `pos`: `Ok(None)` exactly at a clean end, the
    /// frame and the position after it, or the error.
    fn decode(b: &[u8], pos: usize) -> (r: Result<Option<(Self::Frame, usize)>, DecodeError>)
        requires
            pos <= b.len(),
        ensures
            match Self::step(b@, pos as int) {
                FrameStep::End => r matches Ok(None),
                FrameStep::Fail(e) => match r {
                    Err(e2) => e2 == e,
                    _ => false,
                },
                FrameStep::Next(n) => pos < n <= b@.len() && match r {
                    Ok(Some(x)) => x.1 == n,
                    _ => false,
                },
            },
    ;
}

/// The number of frames from `p` to the end of the stream, or the first
/// error.
pub open spec fn frame_count<D: FrameDecoder>(b: Seq<u8>, p: int) -> Result<nat, DecodeError>
    decreases b.len() - p,
{
    if p < 0 || p > b.len() {
        Err(DecodeError::Truncated { position: p as usize })
    } else {
        match D::step(b, p) {
            FrameStep::End => Ok(0),
            FrameStep::Fail(e) => Err(e),
            FrameStep::Next(n) => if p < n <= b.len() {
                match frame_count::<D>(b, n) {
                    Ok(c) => Ok(c + 1),
                    Err(e) => Err(e),
                }
            } else {
                Err(DecodeError::Truncated { position: p as usize })
            },
        }
    }
}

/// Decode every frame from `start` to the end of the stream and count them.
pub fn count_frames<D: FrameDecoder>(b: &[u8], start: usize) -> (r: Result<usize, DecodeError>)
    requires
        start <= b.len(),
    ensures
        match frame_count::<D>(b@, start as int) {
            Ok(c) => r == Ok::<usize, DecodeError>(c as usize),
            Err(e) => r == Err::<usize, DecodeError>(e),
        },
{
    let mut pos: usize = start;
    let mut count: usize = 0;
    while pos <= b.len()
        invariant
            start <= pos <= b.len(),
            count <= pos - start,
            frame_count::<D>(b@, start as int) == (match frame_count::<D>(b@, pos as int) {
                Ok(c) => Ok((c + count) as nat),
                Err(e) => Err::<nat, DecodeError>(e),
            }),
        decreases b.len() - pos,
    {
        match D::decode(b, pos) {
            Ok(Some((_, next))) => {
                count = count + 1;
                pos = next;
            },
            Ok(None) => {
                return Ok(count);
            },
            Err(e) => {
                return Err(e);
            },
        }
    }
    Err(DecodeError::Truncated { position: pos })
}

} // verus!
