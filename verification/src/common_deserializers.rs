//! Primitive wire decodings: an in-memory sequential byte source, and the
//! readers for the shared field encodings (little-endian `u32`, pascal
//! string, length-prefixed blob).

use vstd::prelude::*;
use vstd::utf8::{decode_utf8, valid_utf8};

verus! {

/// Why a decode attempt did not yield a packet.
///
/// `Incomplete` (the source ended inside the packet) is kept apart from the
/// malformed-content failures, so that a clean disconnect can be told from a
/// protocol violation. Every failure leaves the byte stream unusable: there
/// is no way to re-synchronize on a tagged stream without trusting the
/// cursor.
#[derive(Clone, Copy, Debug, PartialEq, Eq, Structural)]
pub enum DecodeFailure {
    /// The source was exhausted before the current packet was complete.
    Incomplete,
    /// The first byte of the packet names no known packet kind.
    UnknownTag,
    /// A text field did not hold valid UTF-8.
    InvalidUtf8,
}

/// An in-memory byte source: the sequential reader that decoding consumes.
///
/// Its view is the sequence of bytes not yet read; every successful read
/// drops the consumed bytes from the front of the view.
pub struct ByteSource {
    data: Vec<u8>,
    pos: usize,
}

impl View for ByteSource {
    type V = Seq<u8>;

    closed spec fn view(&self) -> Seq<u8> {
        self.data@.skip(self.pos as int)
    }
}

impl ByteSource {
    #[verifier::type_invariant]
    spec fn type_inv(self) -> bool {
        self.pos <= self.data@.len()
    }

    /// A source that will hand out exactly the bytes of `data`, in order.
    pub fn new(data: Vec<u8>) -> (r: ByteSource)
        ensures
            r@ == data@,
    {
        let r = ByteSource { data, pos: 0 };
        proof {
            assert(r@ =~= r.data@);
        }
        r
    }

    /// True when every byte has been consumed.
    pub fn is_exhausted(&self) -> (r: bool)
        ensures
            r == (self@.len() == 0),
    {
        proof {
            use_type_invariant(self);
        }
        self.pos == self.data.len()
    }

    /// How many bytes are still unread.
    pub fn remaining_len(&self) -> (r: usize)
        ensures
            r == self@.len(),
    {
        proof {
            use_type_invariant(self);
        }
        self.data.len() - self.pos
    }

    /// Reads the next byte, or fails with `Incomplete` on an exhausted
    /// source, which it leaves unchanged.
    pub fn read_byte(&mut self) -> (r: Result<u8, DecodeFailure>)
        ensures
            match r {
                Ok(b) => old(self)@.len() >= 1 && b == old(self)@[0] && final(self)@ == old(
                    self
                )@.skip(1),
                Err(f) => f == DecodeFailure::Incomplete && old(self)@.len() == 0 && final(self)@
                    == old(self)@,
            },
    {
        proof {
            use_type_invariant(&*self);
        }
        if self.pos < self.data.len() {
            let b = self.data[self.pos];
            self.pos = self.pos + 1;
            proof {
                assert(self.data@.skip(self.pos as int) =~= old(self)@.skip(1));
            }
            Ok(b)
        } else {
            Err(DecodeFailure::Incomplete)
        }
    }

    /// Reads exactly `n` bytes, or fails with `Incomplete` when fewer
    /// remain, leaving the source unchanged.
    pub fn read_buf(&mut self, n: usize) -> (r: Result<Vec<u8>, DecodeFailure>)
        ensures
            match r {
                Ok(v) => old(self)@.len() >= n && v@ == old(self)@.take(n as int) && final(self)@
                    == old(self)@.skip(n as int),
                Err(f) => f == DecodeFailure::Incomplete && old(self)@.len() < n && final(self)@
                    == old(self)@,
            },
    {
        proof {
            use_type_invariant(&*self);
        }
        let dlen = self.data.len();
        if n <= dlen - self.pos {
            let mut v: Vec<u8> = Vec::with_capacity(n);
            let mut i: usize = 0;
            while i < n
                invariant
                    i <= n,
                    self.pos + n <= dlen,
                    dlen == self.data@.len(),
                    v@ == self.data@.subrange(self.pos as int, self.pos + i),
                decreases n - i,
            {
                v.push(self.data[self.pos + i]);
                i = i + 1;
                proof {
                    assert(v@ =~= self.data@.subrange(self.pos as int, self.pos + i));
                }
            }
            self.pos = self.pos + n;
            proof {
                assert(v@ =~= old(self)@.take(n as int));
                assert(self.data@.skip(self.pos as int) =~= old(self)@.skip(n as int));
            }
            Ok(v)
        } else {
            Err(DecodeFailure::Incomplete)
        }
    }

    /// Reads a little-endian `u32`, or fails with `Incomplete` when fewer
    /// than four bytes remain, leaving the source unchanged.
    pub fn read_u32(&mut self) -> (r: Result<u32, DecodeFailure>)
        ensures
            match r {
                Ok(v) => old(self)@.len() >= 4 && v == le_u32_of(old(self)@.take(4)) && final(
                    self
                )@ == old(self)@.skip(4),
                Err(f) => f == DecodeFailure::Incomplete && old(self)@.len() < 4 && final(self)@
                    == old(self)@,
            },
    {
        match self.read_buf(4) {
            Ok(buf) => Ok(u32_from_le_bytes(&buf)),
            Err(f) => Err(f),
        }
    }
}

/// The `u32` that a four-byte little-endian sequence holds.
pub open spec fn le_u32_of(b: Seq<u8>) -> u32
    recommends
        b.len() == 4,
{
    (b[0] as u32) | ((b[1] as u32) << 8) | ((b[2] as u32) << 16) | ((b[3] as u32) << 24)
}

/// Rebuilds the `u32` held by four little-endian bytes.
pub fn u32_from_le_bytes(b: &Vec<u8>) -> (r: u32)
    requires
        b@.len() == 4,
    ensures
        r == le_u32_of(b@),
{
    (b[0] as u32) | ((b[1] as u32) << 8) | ((b[2] as u32) << 16) | ((b[3] as u32) << 24)
}

/// Relies on `String::from_utf8`: it succeeds exactly on byte sequences
/// that are valid UTF-8, and then returns the string those bytes spell.
#[verifier::external_body]
pub(crate) fn string_from_utf8(bytes: Vec<u8>) -> (r: Option<String>)
    ensures
        r is Some <==> valid_utf8(bytes@),
        r is Some ==> r.unwrap()@ == decode_utf8(bytes@),
{
    String::from_utf8(bytes).ok()
}

/// What reading a pascal string from the front of `b` yields: the decoded
/// characters and the number of bytes consumed, or the definite failure.
pub open spec fn spec_read_pascal_string(b: Seq<u8>) -> Result<(Seq<char>, int), DecodeFailure> {
    if b.len() < 1 {
        Err(DecodeFailure::Incomplete)
    } else {
        let n = b[0] as int;
        if b.len() < 1 + n {
            Err(DecodeFailure::Incomplete)
        } else if !valid_utf8(b.subrange(1, 1 + n)) {
            Err(DecodeFailure::InvalidUtf8)
        } else {
            Ok((decode_utf8(b.subrange(1, 1 + n)), 1 + n))
        }
    }
}

/// Reads a pascal string: one length byte, that many UTF-8 bytes. On
/// failure the cursor is no longer trustworthy and the stream must be
/// dropped.
pub fn read_pascal_string(reader: &mut ByteSource) -> (r: Result<String, DecodeFailure>)
    ensures
        match spec_read_pascal_string(old(reader)@) {
            Ok(sn) => r is Ok && r.unwrap()@ == sn.0 && final(reader)@ == old(reader)@.skip(sn.1),
            Err(f) => r == Err::<String, DecodeFailure>(f),
        },
{
    let len = match reader.read_byte() {
        Ok(b) => b,
        Err(f) => {
            return Err(f);
        },
    };
    let bytes = match reader.read_buf(len as usize) {
        Ok(v) => v,
        Err(f) => {
            return Err(f);
        },
    };
    proof {
        assert(bytes@ =~= old(reader)@.subrange(1, 1 + len as int));
        assert(reader@ =~= old(reader)@.skip(1 + len as int));
    }
    match string_from_utf8(bytes) {
        Some(s) => Ok(s),
        None => Err(DecodeFailure::InvalidUtf8),
    }
}

/// What reading a length-prefixed blob from the front of `b` yields: the
/// raw bytes and the number of bytes consumed, or the definite failure.
pub open spec fn spec_read_payload(b: Seq<u8>) -> Result<(Seq<u8>, int), DecodeFailure> {
    if b.len() < 4 {
        Err(DecodeFailure::Incomplete)
    } else {
        let n = le_u32_of(b.take(4)) as int;
        if b.len() < 4 + n {
            Err(DecodeFailure::Incomplete)
        } else {
            Ok((b.subrange(4, 4 + n), 4 + n))
        }
    }
}

/// Reads a length-prefixed blob: a little-endian `u32` length, that many
/// raw bytes. On failure the cursor is no longer trustworthy and the
/// stream must be dropped.
pub fn read_payload(reader: &mut ByteSource) -> (r: Result<Vec<u8>, DecodeFailure>)
    ensures
        match spec_read_payload(old(reader)@) {
            Ok(bn) => r is Ok && r.unwrap()@ == bn.0 && final(reader)@ == old(reader)@.skip(bn.1),
            Err(f) => r == Err::<Vec<u8>, DecodeFailure>(f),
        },
{
    let len = match reader.read_u32() {
        Ok(v) => v,
        Err(f) => {
            return Err(f);
        },
    };
    let bytes = match reader.read_buf(len as usize) {
        Ok(v) => v,
        Err(f) => {
            return Err(f);
        },
    };
    proof {
        assert(bytes@ =~= old(reader)@.subrange(4, 4 + len as int));
        assert(reader@ =~= old(reader)@.skip(4 + len as int));
    }
    Ok(bytes)
}

} // verus!
