//! Content-derived commit identifiers.
//!
//! A commit's identifier is a cryptographic digest over a deterministic
//! serialization of the commit's metadata and payload (its timestamp, its
//! parent identifier and its payload), excluding the identifier itself. This
//! makes commit identifiers globally verifiable and the chain tamper-evident.

use vstd::prelude::*;
use vstd::utf8::encode_utf8;

use crate::models::Commit;
use crate::models::CommitPayload;
use crate::models::CommitV;
use crate::models::PayloadV;

verus! {

/// The little-endian 8-byte encoding of a 64-bit integer.
pub open spec fn u64_le(x: u64) -> Seq<u8> {
    seq![
        (x % 256) as u8,
        ((x / 256) % 256) as u8,
        ((x / 65536) % 256) as u8,
        ((x / 16777216) % 256) as u8,
        ((x / 4294967296) % 256) as u8,
        ((x / 1099511627776) % 256) as u8,
        ((x / 281474976710656) % 256) as u8,
        ((x / 72057594037927936) % 256) as u8,
    ]
}

/// The little-endian 16-byte encoding of a 128-bit integer.
pub open spec fn u128_le(x: u128) -> Seq<u8> {
    u64_le((x % 18446744073709551616) as u64) + u64_le((x / 18446744073709551616) as u64)
}

/// A length-prefixed byte field: the length as 8 little-endian bytes,
/// followed by the bytes themselves.
pub open spec fn length_prefixed(b: Seq<u8>) -> Seq<u8> {
    u64_le(b.len() as u64) + b
}

/// The tag byte that identifies a payload kind in the serialized form.
pub open spec fn payload_tag(p: PayloadV) -> u8 {
    match p {
        PayloadV::CreatePost { .. } => 1,
        PayloadV::UpdatePost { .. } => 2,
        PayloadV::DeletePost { .. } => 3,
        PayloadV::CreateResource { .. } => 4,
        PayloadV::DeleteResource { .. } => 5,
    }
}

/// The serialized body of a payload: the slug in UTF-8, length-prefixed, or
/// the resource identifier in 16 little-endian bytes.
pub open spec fn payload_body(p: PayloadV) -> Seq<u8> {
    match p {
        PayloadV::CreatePost { slug } => length_prefixed(encode_utf8(slug)),
        PayloadV::UpdatePost { slug } => length_prefixed(encode_utf8(slug)),
        PayloadV::DeletePost { slug } => length_prefixed(encode_utf8(slug)),
        PayloadV::CreateResource { id } => u128_le(id),
        PayloadV::DeleteResource { id } => u128_le(id),
    }
}

/// The deterministic serialization of a commit's metadata and payload over
/// which its identifier is computed.
pub open spec fn commit_meta_bytes(timestamp: i64, prev: Seq<u8>, payload: PayloadV) -> Seq<u8> {
    u64_le(timestamp as u64) + length_prefixed(prev) + seq![payload_tag(payload)]
        + payload_body(payload)
}

/// The digest of an input byte sequence, as computed by the SHA-256 hash.
/// The digest is a function of the input bytes alone.
pub uninterp spec fn sha256_of(data: Seq<u8>) -> Seq<u8>;

/// Relies on sha2::Sha256 through the Digest interface: the returned digest
/// depends on the input bytes alone, and is always 32 bytes long.
#[verifier::external_body]
fn sha256(data: &Vec<u8>) -> (r: Vec<u8>)
    ensures
        r@ == sha256_of(data@),
        r@.len() == 32,
{
    let mut hasher = <sha2::Sha256 as sha2::Digest>::new();
    sha2::Digest::update(&mut hasher, data.as_slice());
    let out = sha2::Digest::finalize(hasher);
    out.as_slice().to_vec()
}

/// The identifier that a commit with the given metadata and payload must
/// carry: the SHA-256 digest of the deterministic serialization.
pub open spec fn commit_digest(timestamp: i64, prev: Seq<u8>, payload: PayloadV) -> Seq<u8> {
    sha256_of(commit_meta_bytes(timestamp, prev, payload))
}

/// A well-formed commit carries a non-negative timestamp and the identifier
/// derived from its own metadata and payload.
pub open spec fn commit_wf(c: CommitV) -> bool {
    &&& c.timestamp >= 0
    &&& c.id == commit_digest(c.timestamp, c.prev_commit_id, c.payload)
}

pub(crate) fn push_u64_le(out: &mut Vec<u8>, x: u64)
    ensures
        final(out)@ == old(out)@ + u64_le(x),
{
    out.push((x % 256) as u8);
    out.push(((x / 256) % 256) as u8);
    out.push(((x / 65536) % 256) as u8);
    out.push(((x / 16777216) % 256) as u8);
    out.push(((x / 4294967296) % 256) as u8);
    out.push(((x / 1099511627776) % 256) as u8);
    out.push(((x / 281474976710656) % 256) as u8);
    out.push(((x / 72057594037927936) % 256) as u8);
    proof {
        assert(final(out)@ =~= old(out)@ + u64_le(x));
    }
}

fn push_u128_le(out: &mut Vec<u8>, x: u128)
    ensures
        final(out)@ == old(out)@ + u128_le(x),
{
    push_u64_le(out, (x % 18446744073709551616) as u64);
    push_u64_le(out, (x / 18446744073709551616) as u64);
    proof {
        assert(final(out)@ =~= old(out)@ + u128_le(x));
    }
}

fn push_byte_field(out: &mut Vec<u8>, b: &[u8])
    ensures
        final(out)@ == old(out)@ + length_prefixed(b@),
{
    push_u64_le(out, b.len() as u64);
    out.extend_from_slice(b);
    proof {
        assert(final(out)@ =~= old(out)@ + length_prefixed(b@));
    }
}

fn push_str_field(out: &mut Vec<u8>, s: &str)
    ensures
        final(out)@ == old(out)@ + length_prefixed(encode_utf8(s@)),
{
    push_byte_field(out, s.as_bytes());
}

/// Serialize a commit's metadata and payload deterministically.
fn encode_commit_meta(timestamp: i64, prev: &Vec<u8>, payload: &CommitPayload) -> (r: Vec<u8>)
    requires
        timestamp >= 0,
    ensures
        r@ == commit_meta_bytes(timestamp, prev@, payload@),
{
    let mut out: Vec<u8> = Vec::new();
    push_u64_le(&mut out, timestamp as u64);
    push_byte_field(&mut out, prev.as_slice());
    match payload {
        CommitPayload::CreatePost(p) => {
            out.push(1);
            push_str_field(&mut out, p.slug.as_str());
        },
        CommitPayload::UpdatePost(p) => {
            out.push(2);
            push_str_field(&mut out, p.slug.as_str());
        },
        CommitPayload::DeletePost(p) => {
            out.push(3);
            push_str_field(&mut out, p.slug.as_str());
        },
        CommitPayload::CreateResource(p) => {
            out.push(4);
            push_u128_le(&mut out, p.id);
        },
        CommitPayload::DeleteResource(p) => {
            out.push(5);
            push_u128_le(&mut out, p.id);
        },
    }
    proof {
        assert(out@ =~= commit_meta_bytes(timestamp, prev@, payload@));
    }
    out
}

impl Commit {
    /// Create a new commit that carries the given payload and points to the
    /// given parent commit, stamped with the given creation time. The new
    /// commit's identifier is the digest of its own metadata and payload.
    pub fn new(prev_commit_id: Vec<u8>, payload: CommitPayload, timestamp: i64) -> (r: Self)
        requires
            timestamp >= 0,
        ensures
            r@.timestamp == timestamp,
            r@.prev_commit_id == prev_commit_id@,
            r@.payload == payload@,
            r@.id == commit_digest(timestamp, prev_commit_id@, payload@),
            commit_wf(r@),
    {
        let meta = encode_commit_meta(timestamp, &prev_commit_id, &payload);
        let id = sha256(&meta);
        Commit { id, timestamp, prev_commit_id, payload }
    }
}

/// Recompute the identifier that a commit's stored timestamp, parent
/// identifier and payload determine. For a well-formed commit the result
/// equals the stored identifier.
pub fn recompute_commit_id(c: &Commit) -> (r: Vec<u8>)
    requires
        c@.timestamp >= 0,
    ensures
        r@ == commit_digest(c@.timestamp, c@.prev_commit_id, c@.payload),
        commit_wf(c@) ==> r@ == c@.id,
{
    let meta = encode_commit_meta(c.timestamp, &c.prev_commit_id, &c.payload);
    sha256(&meta)
}

} // verus!
