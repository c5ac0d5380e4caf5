//! Operation tags.
//!
//! Every operation is submitted with a 64-bit value that the kernel hands back,
//! untouched, with the operation's completion. The responder packs a
//! [`UserData`] into that value: the kind of the operation in the low 32 bits
//! and an identifier in the high 32 bits. [`UserData::encode`] and
//! [`UserData::decode`] are the only places where the packed form is built or
//! taken apart.

use vstd::prelude::*;

verus! {

/// The kind of an operation, and so of the completion it produces.
#[derive(Clone, Copy, PartialEq, Eq, PartialOrd, Ord, Debug, Structural)]
pub enum EventKind {
    /// A connection was taken from the listening socket.
    Accept,
    /// The response was written to a connection.
    Write,
    /// A connection was closed.
    Close,
}

impl EventKind {
    /// The number that stands for this kind in an encoded tag.
    pub open spec fn code(self) -> u32 {
        match self {
            EventKind::Accept => 0,
            EventKind::Write => 1,
            EventKind::Close => 2,
        }
    }

    /// The kind that `code` stands for, if it stands for one.
    pub open spec fn of_code(code: u32) -> Option<EventKind> {
        if code == 0 {
            Some(EventKind::Accept)
        } else if code == 1 {
            Some(EventKind::Write)
        } else if code == 2 {
            Some(EventKind::Close)
        } else {
            None
        }
    }

    /// Returns the number that stands for this kind in an encoded tag.
    pub fn to_code(self) -> (code: u32)
        ensures
            code == self.code(),
    {
        match self {
            EventKind::Accept => 0,
            EventKind::Write => 1,
            EventKind::Close => 2,
        }
    }

    /// Returns the kind that `code` stands for, or `None` if `code` is none of
    /// the three known codes.
    pub fn from_code(code: u32) -> (kind: Option<EventKind>)
        ensures
            kind == Self::of_code(code),
    {
        if code == 0 {
            Some(EventKind::Accept)
        } else if code == 1 {
            Some(EventKind::Write)
        } else if code == 2 {
            Some(EventKind::Close)
        } else {
            None
        }
    }
}

/// The tag of one operation: what kind of operation it is, and an identifier
/// whose meaning depends on the kind.
///
/// * `Accept`: the identifier is the value of the accept counter when the
///   operation was created; it is the key of the operation's address buffer.
/// * `Write`: the identifier is the descriptor the response is written to.
/// * `Close`: the identifier is unused and is zero.
#[derive(Clone, Copy, PartialEq, Eq, Debug, Structural)]
pub struct UserData {
    pub kind: EventKind,
    pub id: u32,
}

impl UserData {
    /// The 64-bit value that stands for this tag: the kind's code in the low
    /// 32 bits, the identifier in the high 32 bits.
    pub open spec fn encoding(self) -> u64 {
        (self.kind.code() + self.id * 0x1_0000_0000) as u64
    }

    /// The tag that `raw` stands for. There is none if the low 32 bits of
    /// `raw` are not the code of a kind.
    pub open spec fn decoding(raw: u64) -> Option<UserData> {
        match EventKind::of_code((raw % 0x1_0000_0000) as u32) {
            Some(kind) => Some(UserData { kind, id: (raw / 0x1_0000_0000) as u32 }),
            None => None,
        }
    }

    /// Packs the tag into the 64-bit value an operation is submitted with.
    pub fn encode(self) -> (raw: u64)
        ensures
            raw == self.encoding(),
    {
        let code: u32 = self.kind.to_code();
        let id: u32 = self.id;
        let raw: u64 = (code as u64) | ((id as u64) << 32);
        assert(raw == code + id * 0x1_0000_0000) by (bit_vector)
            requires
                raw == (code as u64) | ((id as u64) << 32),
                code <= 2,
        ;
        raw
    }

    /// Takes apart the 64-bit value that came back with a completion.
    ///
    /// Returns `None` exactly when the low 32 bits of `raw` are greater than 2,
    /// which no value produced by [`UserData::encode`] is.
    pub fn decode(raw: u64) -> (tag: Option<UserData>)
        ensures
            tag == Self::decoding(raw),
    {
        let code: u32 = (raw & 0xffff_ffff) as u32;
        let id: u32 = (raw >> 32) as u32;
        assert(code == (raw % 0x1_0000_0000) as u32 && id == (raw / 0x1_0000_0000) as u32)
            by (bit_vector)
            requires
                code == (raw & 0xffff_ffff) as u32,
                id == (raw >> 32) as u32,
        ;
        match EventKind::from_code(code) {
            Some(kind) => Some(UserData { kind, id }),
            None => None,
        }
    }
}

/// Decoding undoes encoding: a tag that is packed and taken apart again is
/// the tag that was packed.
pub proof fn lemma_decode_encode(tag: UserData)
    ensures
        UserData::decoding(tag.encoding()) == Some(tag),
{
    let code = tag.kind.code();
    let id = tag.id;
    let raw = tag.encoding();
    assert(raw == code + id * 0x1_0000_0000);
    assert(raw % 0x1_0000_0000 == code && raw / 0x1_0000_0000 == id) by (nonlinear_arith)
        requires
            raw == code + id * 0x1_0000_0000,
            0 <= code < 0x1_0000_0000,
            0 <= id,
    ;
}

/// Encoding undoes decoding: a 64-bit value that stands for a tag is,
/// bit for bit, the encoding of that tag.
pub proof fn lemma_encode_decode(raw: u64)
    ensures
        match UserData::decoding(raw) {
            Some(tag) => tag.encoding() == raw,
            None => raw % 0x1_0000_0000 > 2,
        },
{
    assert(raw == (raw % 0x1_0000_0000) + (raw / 0x1_0000_0000) * 0x1_0000_0000)
        by (nonlinear_arith);
    assert(raw / 0x1_0000_0000 < 0x1_0000_0000) by (nonlinear_arith)
        requires
            raw < 0x1_0000_0000_0000_0000,
    ;
}

/// Two tags with the same encoding are the same tag.
pub proof fn lemma_encoding_injective(a: UserData, b: UserData)
    requires
        a.encoding() == b.encoding(),
    ensures
        a == b,
{
    lemma_decode_encode(a);
    lemma_decode_encode(b);
}

} // verus!
