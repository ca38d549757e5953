//! Primitive wire encodings shared by every packet kind: little-endian
//! `u32`, pascal strings (1-byte length prefix) and blobs (4-byte length
//! prefix).

use vstd::prelude::*;
use vstd::utf8::encode_utf8;

verus! {

/// The four bytes of `v`, least significant first.
pub open spec fn spec_u32_le(v: u32) -> Seq<u8> {
    seq![
        (v & 0xff) as u8,
        ((v >> 8) & 0xff) as u8,
        ((v >> 16) & 0xff) as u8,
        ((v >> 24) & 0xff) as u8,
    ]
}

/// A pascal string block: one length byte, then the UTF-8 bytes of `s`.
/// Faithful only while the UTF-8 form of `s` fits in 255 bytes.
pub open spec fn spec_pascal_string(s: Seq<char>) -> Seq<u8> {
    seq![encode_utf8(s).len() as u8] + encode_utf8(s)
}

/// A blob block: a little-endian `u32` length, then the raw bytes.
/// Faithful only while `b` has at most `u32::MAX` bytes.
pub open spec fn spec_payload_block(b: Seq<u8>) -> Seq<u8> {
    spec_u32_le(b.len() as u32) + b
}

/// Appends every byte of `src` to `data`, in order.
pub fn extend_bytes(data: &mut Vec<u8>, src: &[u8])
    ensures
        final(data)@ == old(data)@ + src@,
{
    let n = src.len();
    let mut i: usize = 0;
    while i < n
        invariant
            i <= n,
            n == src@.len(),
            data@ == old(data)@ + src@.take(i as int),
        decreases n - i,
    {
        data.push(*vstd::slice::slice_index_get(src, i));
        i = i + 1;
        proof {
            assert(data@ =~= old(data)@ + src@.take(i as int));
        }
    }
    proof {
        assert(src@.take(n as int) =~= src@);
    }
}

/// Appends the four little-endian bytes of `v` to `data`.
pub fn serialize_u32(data: &mut Vec<u8>, v: u32)
    ensures
        final(data)@ == old(data)@ + spec_u32_le(v),
{
    proof {
        assert((v & 0xff) < 256 && ((v >> 8) & 0xff) < 256 && ((v >> 16) & 0xff) < 256 && ((v
            >> 24) & 0xff) < 256) by (bit_vector);
    }
    data.push((v & 0xff) as u8);
    data.push(((v >> 8) & 0xff) as u8);
    data.push(((v >> 16) & 0xff) as u8);
    data.push(((v >> 24) & 0xff) as u8);
    proof {
        assert(data@ =~= old(data)@ + spec_u32_le(v));
    }
}

/// Appends a pascal string block for `s`: its byte length, then its UTF-8
/// bytes. Strings longer than 255 bytes have no pascal encoding, so the
/// caller must rule them out first.
pub fn serialize_pascal_string(data: &mut Vec<u8>, s: &str)
    requires
        encode_utf8(s@).len() <= 255,
    ensures
        final(data)@ == old(data)@ + spec_pascal_string(s@),
{
    let bytes = s.as_bytes();
    let len = bytes.len();
    data.push(len as u8);
    extend_bytes(data, bytes);
    proof {
        assert(data@ =~= old(data)@ + spec_pascal_string(s@));
    }
}

/// Appends a blob block for `payload`: its length as a little-endian `u32`,
/// then the raw bytes.
pub fn serialize_payload(data: &mut Vec<u8>, payload: &[u8])
    requires
        payload@.len() <= u32::MAX,
    ensures
        final(data)@ == old(data)@ + spec_payload_block(payload@),
{
    let len = payload.len();
    serialize_u32(data, len as u32);
    extend_bytes(data, payload);
    proof {
        assert(data@ =~= old(data)@ + spec_payload_block(payload@));
    }
}

} // verus!
