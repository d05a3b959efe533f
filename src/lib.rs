//! An RTSP client and RTP reflector for relaying a camera's live video.
use vstd::prelude::*;

pub mod number;
pub mod text;
pub mod message;
pub mod codec;
pub mod session;
pub mod relay;
pub mod uri;
pub mod config;

verus! {

/// Takes the next command sequence number and advances the counter by one.
pub fn fetch_add_1(c_seq: &mut usize) -> (r: usize)
    requires
        *old(c_seq) < usize::MAX,
    ensures
        r == *old(c_seq),
        *final(c_seq) == *old(c_seq) + 1,
{
    let r = *c_seq;
    *c_seq = r + 1;
    r
}

} // verus!
