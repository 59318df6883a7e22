//! Hard bounds enforced when decoding peer-controlled wire fields.
//!
//! Every allocation sized from a value read off the wire consults one of
//! these constants, or [`bounded_size`] / [`bounded_count`], first. Without
//! them a single hostile peer could claim a 4 GiB allocation in the link
//! handshake before authentication has had a chance to run.

use vstd::prelude::*;

use crate::proto::error::{ProtoError, Result};

verus! {

/// Cap on `LinkHeader::size`, the bytes of the message that follows the link
/// header. The biggest legitimate value is `LinkReply` plus a modest cap
/// array, well under 1 KiB. 4 KiB leaves headroom.
pub const MAX_LINK_PAYLOAD: usize = 4096;

/// Cap on each `num_caps` field in a link mess or reply.
pub const MAX_CAPS_ENTRIES: usize = 64;

/// Cap on `MAIN_CHANNELS_LIST` channel-id entries (each is 2 bytes).
pub const MAX_CHANNELS_LIST: usize = 256;

/// Cap on the total size of chunked data. Mirrors the channel framing cap.
pub const MAX_CHUNK_BYTES: usize = 33_554_432;

/// Cap on the chunk count of chunked data. Each chunk adds at least 4 bytes
/// of header, so this matches the byte cap.
pub const MAX_CHUNK_COUNT: usize = 8_388_608;

/// What a declared size comes to under a limit.
pub open spec fn bounded(claimed: u32, max: usize) -> Result<usize> {
    if claimed > max {
        Err(
            ProtoError::SizeTooLarge {
                declared: claimed,
                max: if max > u32::MAX { u32::MAX } else { max as u32 },
            },
        )
    } else {
        Ok(claimed as usize)
    }
}

/// Validate that `claimed` is within `[0, max]` and return it as `usize`.
pub fn bounded_size(claimed: u32, max: usize) -> (r: Result<usize>)
    ensures
        r == bounded(claimed, max),
{
    let n: usize = claimed as usize;
    if n > max {
        // `max` is below a u32 here.
        return Err(ProtoError::SizeTooLarge { declared: claimed, max: max as u32 });
    }
    Ok(n)
}

/// [`bounded_size`], for a number of entries.
pub fn bounded_count(claimed: u32, max: usize) -> (r: Result<usize>)
    ensures
        r == bounded(claimed, max),
{
    bounded_size(claimed, max)
}

} // verus!
