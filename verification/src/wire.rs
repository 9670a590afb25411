//! Framing of the byte-stream channel that carries the remote-access
//! variant of the storage facade: each message is sent as an 8-byte
//! little-endian length prefix followed by the payload bytes.

use vstd::prelude::*;

use crate::digest::push_u64_le;
use crate::digest::u64_le;

verus! {

/// The value that an 8-byte little-endian prefix encodes.
pub open spec fn le64_value(b: Seq<u8>) -> int {
    b[0] + 256 * (b[1] + 256 * (b[2] + 256 * (b[3] + 256 * (b[4] + 256 * (b[5] + 256 * (b[6] + 256
        * b[7]))))))
}

/// Frame a message for the channel: its length as 8 little-endian bytes,
/// followed by its bytes.
pub fn frame_message(payload: &Vec<u8>) -> (r: Vec<u8>)
    ensures
        r@ == u64_le(payload@.len() as u64) + payload@,
{
    let mut out: Vec<u8> = Vec::new();
    push_u64_le(&mut out, payload.len() as u64);
    let ghost mid = out@;
    let mut i: usize = 0;
    proof {
        assert(out@ =~= mid + payload@.take(0));
    }
    while i < payload.len()
        invariant
            i <= payload.len(),
            mid == u64_le(payload@.len() as u64),
            out@ == mid + payload@.take(i as int),
        decreases payload.len() - i,
    {
        out.push(payload[i]);
        proof {
            assert(out@ =~= mid + payload@.take(i + 1));
        }
        i = i + 1;
    }
    proof {
        assert(payload@.take(payload@.len() as int) =~= payload@);
    }
    out
}

/// Parse one framed message from the front of a buffer: the payload whose
/// length the 8-byte prefix announces. Returns nothing when the buffer is
/// shorter than the prefix, or shorter than the announced payload.
pub fn parse_frame(buf: &[u8]) -> (r: Option<Vec<u8>>)
    ensures
        match r {
            Option::Some(p) => buf@.len() >= 8 && p@.len() == le64_value(buf@.subrange(0, 8))
                && p@ == buf@.subrange(8, 8 + p@.len() as int),
            Option::None => buf@.len() < 8 || buf@.len() - 8 < le64_value(buf@.subrange(0, 8)),
        },
{
    if buf.len() < 8 {
        return None;
    }
    let b0 = buf[0] as u64;
    let b1 = buf[1] as u64;
    let b2 = buf[2] as u64;
    let b3 = buf[3] as u64;
    let b4 = buf[4] as u64;
    let b5 = buf[5] as u64;
    let b6 = buf[6] as u64;
    let b7 = buf[7] as u64;
    let n: u64 = b0 + 256 * b1 + 65536 * b2 + 16777216 * b3 + 4294967296 * b4 + 1099511627776 * b5
        + 281474976710656 * b6 + 72057594037927936 * b7;
    proof {
        assert(n == le64_value(buf@.subrange(0, 8)));
    }
    if n > (usize::MAX as u64) || (buf.len() - 8) < (n as usize) {
        return None;
    }
    let len: usize = n as usize;
    let payload = vstd::slice::slice_to_vec(vstd::slice::slice_subrange(buf, 8, 8 + len));
    proof {
        assert(payload@ =~= buf@.subrange(8, 8 + len as int));
    }
    Some(payload)
}

} // verus!
