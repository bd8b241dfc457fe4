//! Shared pieces of the length-prefixed IPC envelope used by the capture
//! processes: a byte cursor over received data, the error type, and the
//! envelope framing `[u8 kind][u32 LE payload_length][payload]`.

use vstd::prelude::*;
use vstd::bytes::*;
use vstd::slice::{slice_subrange, slice_to_vec};

verus! {

broadcast use vstd::seq_lib::group_seq_properties;

/// Why a message could not be decoded.
#[derive(Debug, Clone, Copy, PartialEq, Eq)]
pub enum WireError {
    /// The stream ended in the middle of a message.
    UnexpectedEof,
    /// The payload is shorter than its message kind requires.
    TruncatedPayload,
    /// The envelope carries a message kind this protocol does not know.
    UnknownMessageType(u8),
    /// A frame carries a NAL unit type outside the supported set.
    UnknownNalType(u8),
    /// An error message payload is not valid UTF-8.
    InvalidUtf8,
}

/// A read position over a received byte sequence.
pub struct ByteCursor {
    data: Vec<u8>,
    pos: usize,
}

impl ByteCursor {
    #[verifier::type_invariant]
    spec fn inv(self) -> bool {
        self.pos <= self.data@.len()
    }

    /// All bytes the cursor was created over.
    pub closed spec fn data(&self) -> Seq<u8> {
        self.data@
    }

    /// Number of bytes already consumed.
    pub closed spec fn pos(&self) -> nat {
        self.pos as nat
    }

    /// The bytes not yet consumed.
    pub open spec fn remaining(&self) -> Seq<u8> {
        self.data().subrange(self.pos() as int, self.data().len() as int)
    }

    /// Starts reading at the first byte of `data`.
    pub fn new(data: Vec<u8>) -> (c: ByteCursor)
        ensures
            c.data() == data@,
            c.pos() == 0,
    {
        ByteCursor { data, pos: 0 }
    }

    /// Number of bytes already consumed.
    pub fn position(&self) -> (p: usize)
        ensures
            p == self.pos(),
    {
        self.pos
    }

    /// Number of bytes not yet consumed.
    pub fn remaining_len(&self) -> (n: usize)
        ensures
            n == self.remaining().len(),
            self.pos() <= self.data().len(),
    {
        proof { use_type_invariant(self); }
        self.data.len() - self.pos
    }

    /// Consumes exactly `n` bytes, or every remaining byte when fewer than
    /// `n` are left (then `None`).
    pub fn take(&mut self, n: usize) -> (out: Option<Vec<u8>>)
        ensures
            final(self).data() == old(self).data(),
            old(self).pos() <= old(self).data().len(),
            n <= old(self).remaining().len() ==> {
                &&& out is Some
                &&& out->0@ == old(self).remaining().take(n as int)
                &&& final(self).pos() == old(self).pos() + n
            },
            n > old(self).remaining().len() ==> {
                &&& out is None
                &&& final(self).pos() == old(self).data().len()
            },
    {
        proof { use_type_invariant(&*self); }
        let left = self.data.len() - self.pos;
        if n <= left {
            let start = self.pos;
            let piece = slice_subrange(self.data.as_slice(), start, start + n);
            let v = slice_to_vec(piece);
            self.pos = start + n;
            proof {
                assert(v@ == old(self).remaining().take(n as int));
            }
            Some(v)
        } else {
            self.pos = self.data.len();
            None
        }
    }
}

/// The length field of an envelope: the payload length in the low 32 bits.
pub open spec fn length_field(len: nat) -> Seq<u8> {
    spec_u32_to_le_bytes(len as u32)
}

/// The bytes of one envelope carrying `payload` as a message of `kind`.
pub open spec fn envelope_bytes(kind: u8, payload: Seq<u8>) -> Seq<u8> {
    seq![kind] + length_field(payload.len()) + payload
}

/// Whether `s` starts with at least one byte but not a whole envelope.
pub open spec fn envelope_incomplete(s: Seq<u8>) -> bool {
    &&& s.len() > 0
    &&& (s.len() < 5 || s.len() < 5 + envelope_declared_len(s))
}

/// The payload length declared by the envelope header at the start of `s`.
pub open spec fn envelope_declared_len(s: Seq<u8>) -> nat {
    spec_u32_from_le_bytes(s.subrange(1, 5)) as nat
}

/// The payload of the complete envelope at the start of `s`.
pub open spec fn envelope_payload(s: Seq<u8>) -> Seq<u8> {
    s.subrange(5, 5 + envelope_declared_len(s) as int)
}

/// Number of bytes taken by the complete envelope at the start of `s`.
pub open spec fn envelope_size(s: Seq<u8>) -> nat {
    5 + envelope_declared_len(s)
}

/// An envelope whose payload fits the 32-bit length field decodes back
/// to its kind and payload, wherever it stands in a stream.
pub proof fn lemma_envelope_decodes(kind: u8, payload: Seq<u8>, rest: Seq<u8>)
    requires
        payload.len() <= u32::MAX,
    ensures
        ({
            let s = envelope_bytes(kind, payload) + rest;
            &&& s.len() > 0
            &&& !envelope_incomplete(s)
            &&& s[0] == kind
            &&& envelope_declared_len(s) == payload.len()
            &&& envelope_payload(s) == payload
            &&& envelope_size(s) == 5 + payload.len()
            &&& s.subrange(envelope_size(s) as int, s.len() as int) == rest
        }),
{
    lemma_auto_spec_u32_to_from_le_bytes();
    let s = envelope_bytes(kind, payload) + rest;
    let hdr = length_field(payload.len());
    assert(hdr.len() == 4);
    assert(s.subrange(1, 5) == hdr);
    assert((payload.len() as u32) as nat == payload.len());
    assert(envelope_declared_len(s) == payload.len());
    assert(s.subrange(5, 5 + payload.len() as int) == payload);
    assert(s.subrange(5 + payload.len() as int, s.len() as int) == rest);
}

/// Appends an envelope header for a message of `kind` whose payload is
/// `payload_len` bytes long.
pub fn push_envelope_header(out: &mut Vec<u8>, kind: u8, payload_len: usize)
    ensures
        final(out)@ == old(out)@ + seq![kind] + length_field(payload_len as nat),
{
    out.push(kind);
    let len_bytes = u32_to_le_bytes(payload_len as u32);
    extend_bytes(out, len_bytes.as_slice());
}

/// Appends all of `bytes` to `out`.
pub fn extend_bytes(out: &mut Vec<u8>, bytes: &[u8])
    ensures
        final(out)@ == old(out)@ + bytes@,
{
    let mut i: usize = 0;
    while i < bytes.len()
        invariant
            i <= bytes@.len(),
            out@ == old(out)@ + bytes@.take(i as int),
        decreases bytes@.len() - i,
    {
        out.push(bytes[i]);
        assert(bytes@.take(i as int + 1) == bytes@.take(i as int).push(bytes@[i as int]));
        i = i + 1;
    }
    assert(bytes@.take(bytes@.len() as int) == bytes@);
}

/// The outcome of reading one envelope.
#[derive(Debug)]
pub enum EnvelopeRead {
    /// The stream had no bytes left.
    End,
    /// A whole envelope: its kind byte and payload.
    Message(u8, Vec<u8>),
}

/// Reads one envelope from `cursor`.
///
/// Returns `End` when no byte is left, `UnexpectedEof` when the stream
/// stops inside an envelope (the cursor then stands at the end), and the
/// kind and payload otherwise (the cursor then stands after the envelope).
pub fn read_envelope(cursor: &mut ByteCursor) -> (r: Result<EnvelopeRead, WireError>)
    ensures
        final(cursor).data() == old(cursor).data(),
        old(cursor).pos() <= old(cursor).data().len(),
        ({
            let s = old(cursor).remaining();
            if s.len() == 0 {
                &&& r matches Ok(EnvelopeRead::End)
                &&& final(cursor).pos() == old(cursor).pos()
            } else if envelope_incomplete(s) {
                &&& r == Err::<EnvelopeRead, WireError>(WireError::UnexpectedEof)
                &&& final(cursor).pos() == old(cursor).data().len()
            } else {
                &&& r matches Ok(EnvelopeRead::Message(k, p))
                &&& k == s[0]
                &&& p@ == envelope_payload(s)
                &&& final(cursor).pos() == old(cursor).pos() + envelope_size(s)
            }
        }),
{
    proof { use_type_invariant(&*cursor); }
    let ghost s = cursor.remaining();
    if cursor.remaining_len() == 0 {
        return Ok(EnvelopeRead::End);
    }
    let kind_bytes = cursor.take(1);
    let kind = match kind_bytes {
        Some(k) => k[0],
        None => return Err(WireError::UnexpectedEof),
    };
    let ghost s1 = cursor.remaining();
    assert(s1 == s.subrange(1, s.len() as int));
    let len_bytes = match cursor.take(4) {
        Some(b) => b,
        None => {
            return Err(WireError::UnexpectedEof);
        },
    };
    assert(len_bytes@ == s.subrange(1, 5));
    let len = u32_from_le_bytes(len_bytes.as_slice()) as usize;
    let ghost s2 = cursor.remaining();
    assert(s2 == s.subrange(5, s.len() as int));
    let payload = match cursor.take(len) {
        Some(p) => p,
        None => {
            return Err(WireError::UnexpectedEof);
        },
    };
    assert(payload@ == s.subrange(5, 5 + len as int));
    Ok(EnvelopeRead::Message(kind, payload))
}

} // verus!
