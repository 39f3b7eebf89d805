//! What the socket shell is sized by, and how it cuts a frame header out of
//! the bytes a read brought in. The reading itself is the caller's.
use vstd::prelude::*;

use crate::proto::{Tag, be32, read_be32};

verus! {

/// The first read of a quiet connection, which lives in every idle session:
/// sized for a statement rather than for a result set.
pub const FIRST_READ: usize = 512;

/// Every read after that, into the buffer already held.
pub const HELD_READ: usize = 16 * 1024;

/// The largest message read before a client has authenticated: a startup
/// packet or a password, neither of which is large.
pub const MAX_HANDSHAKE_FRAME: usize = 32 * 1024;

/// The largest message read once a session is established: a gigabyte,
/// sized for the largest `DataRow` a server may send.
pub const DEFAULT_MAX_FRAME: usize = 1024 * 1024 * 1024;

/// Why bytes were not a frame.
#[derive(Debug, Clone, Copy, PartialEq, Eq, Structural)]
pub enum FrameError {
    /// A length that does not even cover itself.
    TooShort(u32),
    /// A body longer than the reader accepts.
    TooLong(u32),
}

/// What a tagged header at the front of `buf` says: nothing yet when fewer
/// than five bytes are there, otherwise the tag and the body length, unless
/// the length is refused.
pub open spec fn spec_decode_header(buf: Seq<u8>, max_frame: int) -> Result<Option<(Tag, int)>, FrameError> {
    if buf.len() < 5 {
        Ok(None)
    } else if be32(buf, 1) < 4 {
        Err(FrameError::TooShort(be32(buf, 1) as u32))
    } else if be32(buf, 1) - 4 > max_frame {
        Err(FrameError::TooLong(be32(buf, 1) as u32))
    } else {
        Ok(Some((Tag(buf[0]), be32(buf, 1) - 4)))
    }
}

/// Reads a tagged frame header: a tag byte, then a 32-bit length that counts
/// itself and the body but not the tag.
pub fn decode_header(buf: &[u8], max_frame: usize) -> (r: Result<Option<(Tag, usize)>, FrameError>)
    ensures
        match spec_decode_header(buf@, max_frame as int) {
            Ok(Some((tag, n))) => r matches Ok(Some((t, m))) && t == tag && m == n,
            Ok(None) => r matches Ok(None),
            Err(e) => r == Err::<Option<(Tag, usize)>, FrameError>(e),
        },
{
    if buf.len() < 5 {
        return Ok(None);
    }
    let len = read_be32(buf, 1);
    if len < 4 {
        return Err(FrameError::TooShort(len));
    }
    let body = len - 4;
    if (body as u64) > (max_frame as u64) {
        return Err(FrameError::TooLong(len));
    }
    Ok(Some((Tag(buf[0]), body as usize)))
}

/// What an untagged header says, as a startup packet has one: the 32-bit
/// length alone.
pub open spec fn spec_decode_untagged(buf: Seq<u8>, max_frame: int) -> Result<Option<int>, FrameError> {
    if buf.len() < 4 {
        Ok(None)
    } else if be32(buf, 0) < 4 {
        Err(FrameError::TooShort(be32(buf, 0) as u32))
    } else if be32(buf, 0) - 4 > max_frame {
        Err(FrameError::TooLong(be32(buf, 0) as u32))
    } else {
        Ok(Some(be32(buf, 0) - 4))
    }
}

/// Reads an untagged header: the body length of a startup packet.
pub fn decode_untagged(buf: &[u8], max_frame: usize) -> (r: Result<Option<usize>, FrameError>)
    ensures
        match spec_decode_untagged(buf@, max_frame as int) {
            Ok(Some(n)) => r == Ok::<Option<usize>, FrameError>(Some(n as usize)),
            Ok(None) => r matches Ok(None),
            Err(e) => r == Err::<Option<usize>, FrameError>(e),
        },
{
    if buf.len() < 4 {
        return Ok(None);
    }
    let len = read_be32(buf, 0);
    if len < 4 {
        return Err(FrameError::TooShort(len));
    }
    let body = len - 4;
    if (body as u64) > (max_frame as u64) {
        return Err(FrameError::TooLong(len));
    }
    Ok(Some(body as usize))
}

} // verus!
