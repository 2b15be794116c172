//! Binary IPC protocol types for communicating between Rust and JavaScript.
//!
//! The binary format uses aligned buffers for efficient memory access:
//! - First 12 bytes: three little-endian u32 offsets (u16_offset, u8_offset, str_offset)
//! - u32 buffer: from byte 12 to u16_offset
//! - u16 buffer: from u16_offset to u8_offset
//! - u8 buffer: from u8_offset to str_offset
//! - string buffer: from str_offset to end

use base64::Engine;
use vstd::prelude::*;
use vstd::slice::slice_subrange;
use vstd::utf8::*;
use vstd::string::*;
use crate::text::{decimal, push_decimal};
use crate::wire::{
    decode_u16s, decode_u32s, le32, load_u16, load_u32, read_le32, store_u16, store_u32, u16s_le,
    u32s_le,
    lemma_decode_u16s_advance, lemma_decode_u32s_advance, lemma_le32_read, lemma_u16s_le_len,
    lemma_u16s_roundtrip, lemma_u32s_le_len, lemma_u32s_roundtrip,
};

verus! {

broadcast use {vstd::seq::group_seq_axioms, vstd::slice::group_slice_axioms};

/// Error type for decoding binary IPC messages.
#[derive(Debug, Clone, PartialEq, Eq)]
pub enum DecodeError {
    /// The message is too short (less than 12 bytes for header)
    MessageTooShort { expected: usize, actual: usize },
    /// The u8 buffer is empty when trying to read
    U8BufferEmpty,
    /// The u16 buffer is empty when trying to read
    U16BufferEmpty,
    /// The u32 buffer is empty when trying to read
    U32BufferEmpty,
    /// The string buffer doesn't have enough bytes
    StringBufferTooShort { expected: usize, actual: usize },
    /// Invalid UTF-8 in string buffer
    InvalidUtf8 { position: usize },
    /// Invalid message type byte
    InvalidMessageType { value: u8 },
    /// Header offsets are invalid (e.g., overlapping, out of bounds, or splitting an element)
    InvalidHeaderOffsets { u16_offset: u32, u8_offset: u32, str_offset: u32, total_len: usize },
    /// Generic decode failure with context
    Custom(String),
}

/// The message that describes a decode error.
pub open spec fn decode_error_message(e: DecodeError) -> Seq<char> {
    match e {
        DecodeError::MessageTooShort { expected, actual } => "message too short: expected at least "@
            + decimal(expected as nat) + " bytes, got "@ + decimal(actual as nat),
        DecodeError::U8BufferEmpty => "u8 buffer empty when trying to read"@,
        DecodeError::U16BufferEmpty => "u16 buffer empty when trying to read"@,
        DecodeError::U32BufferEmpty => "u32 buffer empty when trying to read"@,
        DecodeError::StringBufferTooShort { expected, actual } => "string buffer too short: expected "@
            + decimal(expected as nat) + " bytes, got "@ + decimal(actual as nat),
        DecodeError::InvalidUtf8 { position } => "invalid UTF-8 at position "@ + decimal(
            position as nat,
        ),
        DecodeError::InvalidMessageType { value } => "invalid message type: "@ + decimal(
            value as nat,
        ),
        DecodeError::InvalidHeaderOffsets { u16_offset, u8_offset, str_offset, total_len } =>
            "invalid header offsets: u16="@ + decimal(u16_offset as nat) + ", u8="@ + decimal(
            u8_offset as nat,
        ) + ", str="@ + decimal(str_offset as nat) + ", total_len="@ + decimal(total_len as nat),
        DecodeError::Custom(msg) => msg@,
    }
}

impl DecodeError {
    /// The message that describes the error.
    pub fn to_string(&self) -> (r: String)
        ensures
            r@ == decode_error_message(*self),
    {
        let mut s = String::new();
        match self {
            DecodeError::MessageTooShort { expected, actual } => {
                s.append("message too short: expected at least ");
                push_decimal(&mut s, *expected as u64);
                s.append(" bytes, got ");
                push_decimal(&mut s, *actual as u64);
            },
            DecodeError::U8BufferEmpty => s.append("u8 buffer empty when trying to read"),
            DecodeError::U16BufferEmpty => s.append("u16 buffer empty when trying to read"),
            DecodeError::U32BufferEmpty => s.append("u32 buffer empty when trying to read"),
            DecodeError::StringBufferTooShort { expected, actual } => {
                s.append("string buffer too short: expected ");
                push_decimal(&mut s, *expected as u64);
                s.append(" bytes, got ");
                push_decimal(&mut s, *actual as u64);
            },
            DecodeError::InvalidUtf8 { position } => {
                s.append("invalid UTF-8 at position ");
                push_decimal(&mut s, *position as u64);
            },
            DecodeError::InvalidMessageType { value } => {
                s.append("invalid message type: ");
                push_decimal(&mut s, *value as u64);
            },
            DecodeError::InvalidHeaderOffsets { u16_offset, u8_offset, str_offset, total_len } => {
                s.append("invalid header offsets: u16=");
                push_decimal(&mut s, *u16_offset as u64);
                s.append(", u8=");
                push_decimal(&mut s, *u8_offset as u64);
                s.append(", str=");
                push_decimal(&mut s, *str_offset as u64);
                s.append(", total_len=");
                push_decimal(&mut s, *total_len as u64);
            },
            DecodeError::Custom(msg) => s.append(msg.as_str()),
        }
        assert(s@ =~= decode_error_message(*self));
        s
    }
}

/// Message type identifier for IPC protocol.
#[derive(Debug, Clone, Copy, PartialEq, Eq, Structural)]
pub enum MessageType {
    /// Rust calling JS (supports batching - multiple operations in one message)
    Evaluate,
    /// JS/Rust responding to a call
    Respond,
}

/// The byte that identifies a message type on the wire.
pub open spec fn message_type_byte(t: MessageType) -> u8 {
    match t {
        MessageType::Evaluate => 0,
        MessageType::Respond => 1,
    }
}

impl MessageType {
    /// The byte that identifies this message type on the wire.
    pub fn as_u8(self) -> (r: u8)
        ensures
            r == message_type_byte(self),
    {
        match self {
            MessageType::Evaluate => 0,
            MessageType::Respond => 1,
        }
    }
}

/// The contents of the four buffers of a message, as mathematical sequences.
#[verifier::ext_equal]
pub struct Buffers {
    pub u8s: Seq<u8>,
    pub u16s: Seq<u16>,
    pub u32s: Seq<u32>,
    pub strs: Seq<u8>,
}

impl Buffers {
    pub open spec fn empty() -> Buffers {
        Buffers { u8s: Seq::empty(), u16s: Seq::empty(), u32s: Seq::empty(), strs: Seq::empty() }
    }

    /// Each buffer of `self` followed by the same buffer of `other`.
    pub open spec fn append(self, other: Buffers) -> Buffers {
        Buffers {
            u8s: self.u8s + other.u8s,
            u16s: self.u16s + other.u16s,
            u32s: self.u32s + other.u32s,
            strs: self.strs + other.strs,
        }
    }

    pub open spec fn with_u8s(self, s: Seq<u8>) -> Buffers {
        Buffers { u8s: s, ..self }
    }

    pub open spec fn with_u16s(self, s: Seq<u16>) -> Buffers {
        Buffers { u16s: s, ..self }
    }

    pub open spec fn with_u32s(self, s: Seq<u32>) -> Buffers {
        Buffers { u32s: s, ..self }
    }

    pub open spec fn with_strs(self, s: Seq<u8>) -> Buffers {
        Buffers { strs: s, ..self }
    }

    /// Byte offset of the u16 buffer in the serialized message.
    pub open spec fn u16_offset(self) -> int {
        12 + 4 * (self.u32s.len() as int)
    }

    /// Byte offset of the u8 buffer in the serialized message.
    pub open spec fn u8_offset(self) -> int {
        self.u16_offset() + 2 * self.u16s.len()
    }

    /// Byte offset of the string buffer in the serialized message.
    pub open spec fn str_offset(self) -> int {
        self.u8_offset() + self.u8s.len()
    }

    /// Total length of the serialized message.
    pub open spec fn byte_len(self) -> int {
        self.str_offset() + self.strs.len()
    }

    /// The serialized message: header, then the u32, u16, u8 and string buffers.
    pub open spec fn serialize(self) -> Seq<u8> {
        le32(self.u16_offset() as u32) + le32(self.u8_offset() as u32) + le32(
            self.str_offset() as u32,
        ) + u32s_le(self.u32s) + u16s_le(self.u16s) + self.u8s + self.strs
    }

    pub open spec fn is_empty(self) -> bool {
        &&& self.u8s.len() == 0
        &&& self.u16s.len() == 0
        &&& self.u32s.len() == 0
        &&& self.strs.len() == 0
    }
}

/// Whether the three header offsets describe a valid layout of `len` bytes.
pub open spec fn valid_offsets(u16_offset: u32, u8_offset: u32, str_offset: u32, len: int) -> bool {
    &&& u16_offset <= len
    &&& u8_offset <= len
    &&& str_offset <= len
    &&& 12 <= u16_offset
    &&& u16_offset <= u8_offset
    &&& u8_offset <= str_offset
    &&& (u16_offset - 12) % 4 == 0
    &&& (u8_offset - u16_offset) % 2 == 0
}

/// The buffers that a raw message holds, or the error that reading its header gives.
pub open spec fn parse_message(bytes: Seq<u8>) -> Result<Buffers, DecodeError> {
    if bytes.len() < 12 {
        Err(DecodeError::MessageTooShort { expected: 12, actual: bytes.len() as usize })
    } else {
        let u16_offset = read_le32(bytes, 0);
        let u8_offset = read_le32(bytes, 4);
        let str_offset = read_le32(bytes, 8);
        if !valid_offsets(u16_offset, u8_offset, str_offset, bytes.len() as int) {
            Err(
                DecodeError::InvalidHeaderOffsets {
                    u16_offset,
                    u8_offset,
                    str_offset,
                    total_len: bytes.len() as usize,
                },
            )
        } else {
            Ok(
                Buffers {
                    u32s: decode_u32s(bytes.subrange(12, u16_offset as int)),
                    u16s: decode_u16s(bytes.subrange(u16_offset as int, u8_offset as int)),
                    u8s: bytes.subrange(u8_offset as int, str_offset as int),
                    strs: bytes.subrange(str_offset as int, bytes.len() as int),
                },
            )
        }
    }
}

/// Reading a u8: the first byte of the u8 buffer.
pub open spec fn spec_take_u8(b: Buffers) -> (Result<u8, DecodeError>, Buffers) {
    if b.u8s.len() == 0 {
        (Err(DecodeError::U8BufferEmpty), b)
    } else {
        (Ok(b.u8s[0]), b.with_u8s(b.u8s.drop_first()))
    }
}

/// Reading a u16: the first value of the u16 buffer.
pub open spec fn spec_take_u16(b: Buffers) -> (Result<u16, DecodeError>, Buffers) {
    if b.u16s.len() == 0 {
        (Err(DecodeError::U16BufferEmpty), b)
    } else {
        (Ok(b.u16s[0]), b.with_u16s(b.u16s.drop_first()))
    }
}

/// Reading a u32: the first value of the u32 buffer.
pub open spec fn spec_take_u32(b: Buffers) -> (Result<u32, DecodeError>, Buffers) {
    if b.u32s.len() == 0 {
        (Err(DecodeError::U32BufferEmpty), b)
    } else {
        (Ok(b.u32s[0]), b.with_u32s(b.u32s.drop_first()))
    }
}

/// The u64 whose low half is `lo` and high half is `hi`.
pub open spec fn join_u64(lo: u32, hi: u32) -> u64 {
    (hi * 0x1_0000_0000 + lo) as u64
}

/// The u128 whose low half is `lo` and high half is `hi`.
pub open spec fn join_u128(lo: u64, hi: u64) -> u128 {
    (hi * 0x1_0000_0000_0000_0000 + lo) as u128
}

/// Reading a u64: two u32 values, low half first. When fewer than two remain,
/// the read fails and the ones that were there are consumed.
pub open spec fn spec_take_u64(b: Buffers) -> (Result<u64, DecodeError>, Buffers) {
    if b.u32s.len() < 2 {
        (Err(DecodeError::U32BufferEmpty), b.with_u32s(Seq::empty()))
    } else {
        (Ok(join_u64(b.u32s[0], b.u32s[1])), b.with_u32s(b.u32s.subrange(2, b.u32s.len() as int)))
    }
}

/// Reading a u128: two u64 values, low half first. When fewer than four u32 values remain,
/// the read fails and the ones that were there are consumed.
pub open spec fn spec_take_u128(b: Buffers) -> (Result<u128, DecodeError>, Buffers) {
    if b.u32s.len() < 4 {
        (Err(DecodeError::U32BufferEmpty), b.with_u32s(Seq::empty()))
    } else {
        (
            Ok(join_u128(join_u64(b.u32s[0], b.u32s[1]), join_u64(b.u32s[2], b.u32s[3]))),
            b.with_u32s(b.u32s.subrange(4, b.u32s.len() as int)),
        )
    }
}

/// The longest prefix length of `bytes` that is valid UTF-8.
pub open spec fn utf8_valid_up_to(bytes: Seq<u8>, p: int) -> bool {
    &&& 0 <= p <= bytes.len()
    &&& valid_utf8(bytes.take(p))
    &&& forall|q: int| p < q <= bytes.len() ==> !valid_utf8(#[trigger] bytes.take(q))
}

/// Reading a string: its byte length from the u32 buffer, then that many bytes of
/// the string buffer, which must be UTF-8. The length is consumed even when the
/// rest of the read fails.
pub open spec fn spec_take_str(b: Buffers) -> (Result<Seq<char>, DecodeError>, Buffers) {
    if b.u32s.len() == 0 {
        (Err(DecodeError::U32BufferEmpty), b)
    } else {
        let len = b.u32s[0];
        let b1 = b.with_u32s(b.u32s.drop_first());
        if len > b.strs.len() {
            (
                Err(
                    DecodeError::StringBufferTooShort {
                        expected: len as usize,
                        actual: b.strs.len() as usize,
                    },
                ),
                b1,
            )
        } else if !valid_utf8(b.strs.take(len as int)) {
            (
                Err(
                    DecodeError::InvalidUtf8 {
                        position: (choose|p: int| utf8_valid_up_to(b.strs.take(len as int), p)) as usize,
                    },
                ),
                b1,
            )
        } else {
            (
                Ok(decode_utf8(b.strs.take(len as int))),
                b1.with_strs(b.strs.subrange(len as int, b.strs.len() as int)),
            )
        }
    }
}

/// Converts a byte slice to a string slice, if it is valid UTF-8.
///
/// Calls `core::str::from_utf8`. Trusted to behave as its documentation says: success
/// exactly on valid UTF-8, with the same bytes.
#[verifier::external_body]
fn str_from_utf8<'b>(bytes: &'b [u8]) -> (r: Option<&'b str>)
    ensures
        match r {
            Some(s) => valid_utf8(bytes@) && s.spec_bytes() == bytes@,
            None => !valid_utf8(bytes@),
        },
{
    core::str::from_utf8(bytes).ok()
}

/// The length of the longest prefix of `bytes` that is valid UTF-8, for bytes that are
/// not valid as a whole.
fn valid_up_to(bytes: &[u8]) -> (r: usize)
    requires
        !valid_utf8(bytes@),
    ensures
        utf8_valid_up_to(bytes@, r as int),
{
    let mut p: usize = bytes.len();
    assert(bytes@.take(p as int) =~= bytes@);
    loop
        invariant
            p <= bytes@.len(),
            forall|q: int| p <= q <= bytes@.len() ==> !valid_utf8(#[trigger] bytes@.take(q)),
        decreases p,
    {
        if p == 0 {
            assert(bytes@.take(0) =~= Seq::<u8>::empty());
            assert(valid_utf8(Seq::<u8>::empty())) by {
                encode_utf8_valid_utf8(Seq::<char>::empty());
                assert(encode_utf8(Seq::<char>::empty()) =~= Seq::<u8>::empty());
            }
            assert(false);
            return 0;
        }
        p = p - 1;
        let prefix = slice_subrange(bytes, 0, p);
        assert(prefix@ =~= bytes@.take(p as int));
        if str_from_utf8(prefix).is_some() {
            return p;
        }
    }
}

/// A valid UTF-8 prefix position is unique.
proof fn lemma_valid_up_to_unique(bytes: Seq<u8>, p: int, q: int)
    requires
        utf8_valid_up_to(bytes, p),
        utf8_valid_up_to(bytes, q),
    ensures
        p == q,
{
    if p < q {
        assert(!valid_utf8(bytes.take(q)));
    } else if q < p {
        assert(!valid_utf8(bytes.take(p)));
    }
}

/// Decoded binary data with aligned buffer access.
///
/// Holds the raw message and a read position in each of its four buffers.
#[derive(Debug)]
pub struct DecodedData<'a> {
    bytes: &'a [u8],
    u32_pos: usize,
    u32_end: usize,
    u16_pos: usize,
    u16_end: usize,
    u8_pos: usize,
    u8_end: usize,
    str_pos: usize,
}

impl<'a> View for DecodedData<'a> {
    type V = Buffers;

    /// What remains to be read in each buffer.
    closed spec fn view(&self) -> Buffers {
        Buffers {
            u32s: decode_u32s(self.bytes@.subrange(self.u32_pos as int, self.u32_end as int)),
            u16s: decode_u16s(self.bytes@.subrange(self.u16_pos as int, self.u16_end as int)),
            u8s: self.bytes@.subrange(self.u8_pos as int, self.u8_end as int),
            strs: self.bytes@.subrange(self.str_pos as int, self.bytes@.len() as int),
        }
    }
}

impl<'a> DecodedData<'a> {
    #[verifier::type_invariant]
    spec fn positions_in_bounds(self) -> bool {
        &&& self.u32_pos <= self.u32_end <= self.bytes@.len()
        &&& self.u16_pos <= self.u16_end <= self.bytes@.len()
        &&& self.u8_pos <= self.u8_end <= self.bytes@.len()
        &&& self.str_pos <= self.bytes@.len()
        &&& (self.u32_end - self.u32_pos) % 4 == 0
        &&& (self.u16_end - self.u16_pos) % 2 == 0
    }

    /// Parse decoded data from raw bytes.
    pub fn from_bytes(bytes: &'a [u8]) -> (r: Result<Self, DecodeError>)
        ensures
            match r {
                Ok(d) => parse_message(bytes@) == Ok::<Buffers, DecodeError>(d@),
                Err(e) => parse_message(bytes@) == Err::<Buffers, DecodeError>(e),
            },
    {
        if bytes.len() < 12 {
            return Err(DecodeError::MessageTooShort { expected: 12, actual: bytes.len() });
        }
        let u16_offset = load_u32(bytes, 0);
        let u8_offset = load_u32(bytes, 4);
        let str_offset = load_u32(bytes, 8);
        let total_len = bytes.len();
        if u16_offset as usize > total_len || u8_offset as usize > total_len || str_offset as usize
            > total_len || u16_offset < 12 || u8_offset < u16_offset || str_offset < u8_offset || (
        u16_offset - 12) % 4 != 0 || (u8_offset - u16_offset) % 2 != 0 {
            return Err(
                DecodeError::InvalidHeaderOffsets { u16_offset, u8_offset, str_offset, total_len },
            );
        }
        Ok(
            DecodedData {
                bytes,
                u32_pos: 12,
                u32_end: u16_offset as usize,
                u16_pos: u16_offset as usize,
                u16_end: u8_offset as usize,
                u8_pos: u8_offset as usize,
                u8_end: str_offset as usize,
                str_pos: str_offset as usize,
            },
        )
    }

    /// Take a u8 from the buffer.
    pub fn take_u8(&mut self) -> (r: Result<u8, DecodeError>)
        ensures
            (r, final(self)@) == spec_take_u8(old(self)@),
    {
        proof {
            use_type_invariant(&*self);
        }
        if self.u8_pos == self.u8_end {
            return Err(DecodeError::U8BufferEmpty);
        }
        let v = self.bytes[self.u8_pos];
        self.u8_pos = self.u8_pos + 1;
        assert(self@.u8s =~= old(self)@.u8s.drop_first());
        Ok(v)
    }

    /// Take a u16 from the buffer.
    pub fn take_u16(&mut self) -> (r: Result<u16, DecodeError>)
        ensures
            (r, final(self)@) == spec_take_u16(old(self)@),
    {
        proof {
            use_type_invariant(&*self);
        }
        if self.u16_pos == self.u16_end {
            return Err(DecodeError::U16BufferEmpty);
        }
        let v = load_u16(self.bytes, self.u16_pos);
        proof {
            lemma_decode_u16s_advance(self.bytes@, self.u16_pos as int, self.u16_end as int);
            assert(self.bytes@.subrange(self.u16_pos as int, self.u16_end as int)[0] == self.bytes@[self.u16_pos as int]);
            assert(self.bytes@.subrange(self.u16_pos as int, self.u16_end as int)[1] == self.bytes@[self.u16_pos + 1]);
        }
        self.u16_pos = self.u16_pos + 2;
        Ok(v)
    }

    /// Take a u32 from the buffer.
    pub fn take_u32(&mut self) -> (r: Result<u32, DecodeError>)
        ensures
            (r, final(self)@) == spec_take_u32(old(self)@),
    {
        proof {
            use_type_invariant(&*self);
        }
        if self.u32_pos == self.u32_end {
            return Err(DecodeError::U32BufferEmpty);
        }
        let v = load_u32(self.bytes, self.u32_pos);
        proof {
            let sub = self.bytes@.subrange(self.u32_pos as int, self.u32_end as int);
            lemma_decode_u32s_advance(self.bytes@, self.u32_pos as int, self.u32_end as int);
            assert(sub[0] == self.bytes@[self.u32_pos as int]);
            assert(sub[1] == self.bytes@[self.u32_pos + 1]);
            assert(sub[2] == self.bytes@[self.u32_pos + 2]);
            assert(sub[3] == self.bytes@[self.u32_pos + 3]);
        }
        self.u32_pos = self.u32_pos + 4;
        Ok(v)
    }

    /// Take a u64 from the buffer (stored as two u32s).
    pub fn take_u64(&mut self) -> (r: Result<u64, DecodeError>)
        ensures
            (r, final(self)@) == spec_take_u64(old(self)@),
    {
        let ghost b = self@;
        let low = match self.take_u32() {
            Ok(v) => v as u64,
            Err(e) => {
                assert(b.u32s =~= Seq::<u32>::empty());
                return Err(e);
            },
        };
        let high = match self.take_u32() {
            Ok(v) => v as u64,
            Err(e) => {
                assert(self@.u32s =~= Seq::<u32>::empty());
                return Err(e);
            },
        };
        assert(self@.u32s =~= b.u32s.subrange(2, b.u32s.len() as int));
        assert((high << 32) | low == high * 0x1_0000_0000 + low) by (bit_vector)
            requires
                low < 0x1_0000_0000,
                high < 0x1_0000_0000,
        ;
        Ok((high << 32) | low)
    }

    /// Take a u128 from the buffer
    pub fn take_u128(&mut self) -> (r: Result<u128, DecodeError>)
        ensures
            (r, final(self)@) == spec_take_u128(old(self)@),
    {
        let ghost b = self@;
        let low = match self.take_u64() {
            Ok(v) => v as u128,
            Err(e) => {
                return Err(e);
            },
        };
        let high = match self.take_u64() {
            Ok(v) => v as u128,
            Err(e) => {
                return Err(e);
            },
        };
        assert(self@.u32s =~= b.u32s.subrange(4, b.u32s.len() as int));
        assert((high << 64) | low == high * 0x1_0000_0000_0000_0000 + low) by (bit_vector)
            requires
                low < 0x1_0000_0000_0000_0000,
                high < 0x1_0000_0000_0000_0000,
        ;
        Ok((high << 64) | low)
    }

    /// Take a string from the buffer.
    pub fn take_str(&mut self) -> (r: Result<&'a str, DecodeError>)
        ensures
            final(self)@ == spec_take_str(old(self)@).1,
            match r {
                Ok(s) => spec_take_str(old(self)@).0 == Ok::<Seq<char>, DecodeError>(s@),
                Err(e) => spec_take_str(old(self)@).0 == Err::<Seq<char>, DecodeError>(e),
            },
    {
        let ghost b = self@;
        let len = match self.take_u32() {
            Ok(v) => v as usize,
            Err(e) => {
                return Err(e);
            },
        };
        proof {
            use_type_invariant(&*self);
        }
        let actual_len = self.bytes.len() - self.str_pos;
        if len > actual_len {
            return Err(DecodeError::StringBufferTooShort { expected: len, actual: actual_len });
        }
        let buf = slice_subrange(self.bytes, self.str_pos, self.str_pos + len);
        assert(buf@ =~= b.strs.take(len as int));
        match str_from_utf8(buf) {
            Some(s) => {
                proof {
                    encode_utf8_decode_utf8(s@);
                }
                self.str_pos = self.str_pos + len;
                assert(self@.strs =~= b.strs.subrange(len as int, b.strs.len() as int));
                Ok(s)
            },
            None => {
                let position = valid_up_to(buf);
                proof {
                    let c = choose|p: int| utf8_valid_up_to(b.strs.take(len as int), p);
                    lemma_valid_up_to_unique(b.strs.take(len as int), c, position as int);
                }
                Err(DecodeError::InvalidUtf8 { position })
            },
        }
    }

    /// Check if the decoded data is empty.
    pub fn is_empty(&self) -> (r: bool)
        ensures
            r == self@.is_empty(),
    {
        proof {
            use_type_invariant(self);
        }
        self.u8_pos == self.u8_end && self.u16_pos == self.u16_end && self.u32_pos == self.u32_end
            && self.str_pos == self.bytes.len()
    }
}


/// Encoder for building binary messages.
#[derive(Debug)]
pub struct EncodedData {
    pub(crate) u8_buf: Vec<u8>,
    pub(crate) u16_buf: Vec<u16>,
    pub(crate) u32_buf: Vec<u32>,
    pub(crate) str_buf: Vec<u8>,
}

impl View for EncodedData {
    type V = Buffers;

    closed spec fn view(&self) -> Buffers {
        Buffers { u8s: self.u8_buf@, u16s: self.u16_buf@, u32s: self.u32_buf@, strs: self.str_buf@ }
    }
}

/// The low and high halves of a u64.
pub open spec fn u64_halves(v: u64) -> Seq<u32> {
    seq![(v % 0x1_0000_0000) as u32, (v / 0x1_0000_0000) as u32]
}

/// The four u32 values that hold a u128, lowest first.
pub open spec fn u128_quarters(v: u128) -> Seq<u32> {
    u64_halves((v % 0x1_0000_0000_0000_0000) as u64) + u64_halves(
        (v / 0x1_0000_0000_0000_0000) as u64,
    )
}

/// Splitting a u64 into halves and joining them gives it back.
pub proof fn lemma_u64_halves_join(v: u64)
    ensures
        join_u64(u64_halves(v)[0], u64_halves(v)[1]) == v,
{
    assert(v % 0x1_0000_0000 + 0x1_0000_0000 * (v / 0x1_0000_0000) == v) by (nonlinear_arith);
}

/// Splitting a u128 into quarters and joining them gives it back.
pub proof fn lemma_u128_quarters_join(v: u128)
    ensures
        join_u128(
            join_u64(u128_quarters(v)[0], u128_quarters(v)[1]),
            join_u64(u128_quarters(v)[2], u128_quarters(v)[3]),
        ) == v,
{
    let lo = (v % 0x1_0000_0000_0000_0000) as u64;
    let hi = (v / 0x1_0000_0000_0000_0000) as u64;
    lemma_u64_halves_join(lo);
    lemma_u64_halves_join(hi);
    assert(u128_quarters(v)[0] == u64_halves(lo)[0]);
    assert(u128_quarters(v)[1] == u64_halves(lo)[1]);
    assert(u128_quarters(v)[2] == u64_halves(hi)[0]);
    assert(u128_quarters(v)[3] == u64_halves(hi)[1]);
    assert(v % 0x1_0000_0000_0000_0000 + 0x1_0000_0000_0000_0000 * (v / 0x1_0000_0000_0000_0000)
        == v) by (nonlinear_arith);
}

impl EncodedData {
    /// Create a new empty encoder.
    pub fn new() -> (r: Self)
        ensures
            r@ == Buffers::empty(),
    {
        EncodedData { u8_buf: Vec::new(), u16_buf: Vec::new(), u32_buf: Vec::new(), str_buf: Vec::new() }
    }

    /// Get the total byte length of the encoded data.
    pub fn byte_len(&self) -> (r: usize)
        requires
            self@.byte_len() <= usize::MAX,
        ensures
            r == self@.byte_len(),
    {
        12 + self.u32_buf.len() * 4 + self.u16_buf.len() * 2 + self.u8_buf.len() + self.str_buf.len()
    }

    /// Whether the serialized message fits: its length, and so its offsets, fit in a u32.
    pub fn fits_message(&self) -> (r: bool)
        ensures
            r == (self@.byte_len() <= u32::MAX),
    {
        let total: u128 = 12u128 + (self.u32_buf.len() as u128) * 4 + (self.u16_buf.len() as u128) * 2
            + self.u8_buf.len() as u128 + self.str_buf.len() as u128;
        total <= u32::MAX as u128
    }

    /// Whether this payload, behind the type byte of a respond message, fits a message.
    pub fn fits_respond_message(&self) -> (r: bool)
        ensures
            r == (respond_buffers(self@).byte_len() <= u32::MAX),
    {
        let total: u128 = 13u128 + (self.u32_buf.len() as u128) * 4 + (self.u16_buf.len() as u128) * 2
            + self.u8_buf.len() as u128 + self.str_buf.len() as u128;
        total <= u32::MAX as u128
    }

    /// Push a u8 to the buffer.
    pub fn push_u8(&mut self, value: u8)
        ensures
            final(self)@ == old(self)@.with_u8s(old(self)@.u8s.push(value)),
    {
        self.u8_buf.push(value);
    }

    /// Push a u16 to the buffer.
    pub fn push_u16(&mut self, value: u16)
        ensures
            final(self)@ == old(self)@.with_u16s(old(self)@.u16s.push(value)),
    {
        self.u16_buf.push(value);
    }

    /// Push a u32 to the buffer.
    pub fn push_u32(&mut self, value: u32)
        ensures
            final(self)@ == old(self)@.with_u32s(old(self)@.u32s.push(value)),
    {
        self.u32_buf.push(value);
    }

    /// Push a u64 to the buffer (stored as two u32s).
    pub fn push_u64(&mut self, value: u64)
        ensures
            final(self)@ == old(self)@.with_u32s(old(self)@.u32s + u64_halves(value)),
    {
        assert((value & 0xFFFFFFFF) == value % 0x1_0000_0000) by (bit_vector);
        assert((value >> 32) == value / 0x1_0000_0000) by (bit_vector);
        self.push_u32((value & 0xFFFFFFFF) as u32);
        self.push_u32((value >> 32) as u32);
        assert(self@.u32s =~= old(self)@.u32s + u64_halves(value));
    }

    /// Push a u128 to the buffer
    pub fn push_u128(&mut self, value: u128)
        ensures
            final(self)@ == old(self)@.with_u32s(old(self)@.u32s + u128_quarters(value)),
    {
        assert((value & 0xFFFFFFFFFFFFFFFF) == value % 0x1_0000_0000_0000_0000) by (bit_vector);
        assert((value >> 64) == value / 0x1_0000_0000_0000_0000) by (bit_vector);
        self.push_u64((value & 0xFFFFFFFFFFFFFFFF) as u64);
        self.push_u64((value >> 64) as u64);
        assert(self@.u32s =~= old(self)@.u32s + u128_quarters(value));
    }

    /// Push a string to the buffer: its byte length (as a u32) and then its bytes.
    pub fn push_str(&mut self, value: &str)
        ensures
            final(self)@ == old(self)@.with_u32s(
                old(self)@.u32s.push(value.spec_bytes().len() as u32),
            ).with_strs(old(self)@.strs + value.spec_bytes()),
    {
        let bytes = value.as_bytes();
        self.push_u32(bytes.len() as u32);
        let mut i: usize = 0;
        while i < bytes.len()
            invariant
                i <= bytes@.len(),
                bytes@ == value.spec_bytes(),
                self@ == old(self)@.with_u32s(
                    old(self)@.u32s.push(value.spec_bytes().len() as u32),
                ).with_strs(old(self)@.strs + bytes@.take(i as int)),
            decreases bytes@.len() - i,
        {
            self.str_buf.push(bytes[i]);
            i = i + 1;
            assert(self.str_buf@ =~= old(self)@.strs + bytes@.take(i as int));
        }
        assert(bytes@.take(i as int) =~= bytes@);
    }

    /// Convert the encoded data to bytes.
    pub fn to_bytes(&self) -> (r: Vec<u8>)
        requires
            self@.byte_len() <= u32::MAX,
        ensures
            r@ == self@.serialize(),
    {
        let u16_offset = 12 + self.u32_buf.len() * 4;
        let u8_offset = u16_offset + self.u16_buf.len() * 2;
        let str_offset = u8_offset + self.u8_buf.len();
        let mut bytes: Vec<u8> = Vec::new();
        store_u32(&mut bytes, u16_offset as u32);
        store_u32(&mut bytes, u8_offset as u32);
        store_u32(&mut bytes, str_offset as u32);
        let ghost header = bytes@;
        let mut i: usize = 0;
        while i < self.u32_buf.len()
            invariant
                i <= self.u32_buf@.len(),
                bytes@ == header + u32s_le(self.u32_buf@.take(i as int)),
            decreases self.u32_buf@.len() - i,
        {
            store_u32(&mut bytes, self.u32_buf[i]);
            assert(self.u32_buf@.take(i + 1).drop_last() =~= self.u32_buf@.take(i as int));
            i = i + 1;
        }
        assert(self.u32_buf@.take(i as int) =~= self.u32_buf@);
        let ghost after_u32 = bytes@;
        let mut j: usize = 0;
        while j < self.u16_buf.len()
            invariant
                j <= self.u16_buf@.len(),
                bytes@ == after_u32 + u16s_le(self.u16_buf@.take(j as int)),
            decreases self.u16_buf@.len() - j,
        {
            store_u16(&mut bytes, self.u16_buf[j]);
            assert(self.u16_buf@.take(j + 1).drop_last() =~= self.u16_buf@.take(j as int));
            j = j + 1;
        }
        assert(self.u16_buf@.take(j as int) =~= self.u16_buf@);
        let ghost after_u16 = bytes@;
        let mut k: usize = 0;
        while k < self.u8_buf.len()
            invariant
                k <= self.u8_buf@.len(),
                bytes@ == after_u16 + self.u8_buf@.take(k as int),
            decreases self.u8_buf@.len() - k,
        {
            bytes.push(self.u8_buf[k]);
            k = k + 1;
            assert(bytes@ =~= after_u16 + self.u8_buf@.take(k as int));
        }
        assert(self.u8_buf@.take(k as int) =~= self.u8_buf@);
        let ghost after_u8 = bytes@;
        let mut m: usize = 0;
        while m < self.str_buf.len()
            invariant
                m <= self.str_buf@.len(),
                bytes@ == after_u8 + self.str_buf@.take(m as int),
            decreases self.str_buf@.len() - m,
        {
            bytes.push(self.str_buf[m]);
            m = m + 1;
            assert(bytes@ =~= after_u8 + self.str_buf@.take(m as int));
        }
        assert(self.str_buf@.take(m as int) =~= self.str_buf@);
        assert(bytes@ =~= self@.serialize());
        bytes
    }

    /// Extend this encoder with data from another encoder.
    pub fn extend(&mut self, other: &EncodedData)
        ensures
            final(self)@ == old(self)@.append(other@),
    {
        append_from(&mut self.u8_buf, &other.u8_buf, 0);
        append_from(&mut self.u16_buf, &other.u16_buf, 0);
        append_from(&mut self.u32_buf, &other.u32_buf, 0);
        append_from(&mut self.str_buf, &other.str_buf, 0);
        assert(other.u8_buf@.subrange(0, other.u8_buf@.len() as int) =~= other.u8_buf@);
        assert(other.u16_buf@.subrange(0, other.u16_buf@.len() as int) =~= other.u16_buf@);
        assert(other.u32_buf@.subrange(0, other.u32_buf@.len() as int) =~= other.u32_buf@);
        assert(other.str_buf@.subrange(0, other.str_buf@.len() as int) =~= other.str_buf@);
    }

    /// Extend this encoder with data from another encoder, leaving out the first
    /// byte of its u8 buffer (the message type byte of a batch).
    pub fn extend_after_first_u8(&mut self, other: &EncodedData)
        requires
            other@.u8s.len() >= 1,
        ensures
            final(self)@ == old(self)@.append(other@.with_u8s(other@.u8s.drop_first())),
    {
        append_from(&mut self.u8_buf, &other.u8_buf, 1);
        append_from(&mut self.u16_buf, &other.u16_buf, 0);
        append_from(&mut self.u32_buf, &other.u32_buf, 0);
        append_from(&mut self.str_buf, &other.str_buf, 0);
        assert(other.u8_buf@.subrange(1, other.u8_buf@.len() as int) =~= other.u8_buf@.drop_first());
        assert(other.u16_buf@.subrange(0, other.u16_buf@.len() as int) =~= other.u16_buf@);
        assert(other.u32_buf@.subrange(0, other.u32_buf@.len() as int) =~= other.u32_buf@);
        assert(other.str_buf@.subrange(0, other.str_buf@.len() as int) =~= other.str_buf@);
    }
}

/// Appends the elements of `src` from index `start` on.
fn append_from<T: Copy>(dst: &mut Vec<T>, src: &Vec<T>, start: usize)
    requires
        start <= src@.len(),
    ensures
        final(dst)@ == old(dst)@ + src@.subrange(start as int, src@.len() as int),
{
    let mut i = start;
    while i < src.len()
        invariant
            start <= i <= src@.len(),
            dst@ == old(dst)@ + src@.subrange(start as int, i as int),
        decreases src@.len() - i,
    {
        dst.push(src[i]);
        i = i + 1;
        assert(dst@ =~= old(dst)@ + src@.subrange(start as int, i as int));
    }
}

impl Default for EncodedData {
    fn default() -> (r: Self)
        ensures
            r@ == Buffers::empty(),
    {
        EncodedData::new()
    }
}


/// The buffers of a respond message carrying `payload`: the type byte, then the payload.
pub open spec fn respond_buffers(payload: Buffers) -> Buffers {
    Buffers::empty().with_u8s(seq![message_type_byte(MessageType::Respond)]).append(payload)
}

/// The message type of a raw message, or the error that reading it gives.
pub open spec fn spec_message_type(data: Seq<u8>) -> Result<MessageType, DecodeError> {
    match parse_message(data) {
        Err(e) => Err(e),
        Ok(b) => match spec_take_u8(b).0 {
            Err(e) => Err(e),
            Ok(v) => if v == 0 {
                Ok(MessageType::Evaluate)
            } else if v == 1 {
                Ok(MessageType::Respond)
            } else {
                Err(DecodeError::InvalidMessageType { value: v })
            },
        },
    }
}

/// What follows the type byte of a well-formed raw message.
pub open spec fn message_body(data: Seq<u8>) -> Buffers {
    spec_take_u8(parse_message(data)->Ok_0).1
}

/// A binary IPC message.
///
/// Message format in the u8 buffer:
/// - First u8: message type (0 = Evaluate, 1 = Respond)
/// - Remaining data depends on message type
///
/// Evaluate format (supports batching - multiple operations in one message):
/// - u8: message type (0)
/// - For each operation (read until buffer exhausted):
///   - u32: function ID
///   - encoded arguments (varies by function)
///
/// Respond format:
/// - u8: message type (1)
/// - For each operation result:
///   - encoded return value (varies by function)
#[derive(Debug)]
pub struct IPCMessage {
    data: Vec<u8>,
}

impl View for IPCMessage {
    type V = Seq<u8>;

    closed spec fn view(&self) -> Seq<u8> {
        self.data@
    }
}

/// Decoded message variant.
#[derive(Debug)]
pub enum DecodedVariant<'a> {
    /// Response from JS/Rust
    Respond { data: DecodedData<'a> },
    /// Evaluation request
    Evaluate { data: DecodedData<'a> },
}

impl IPCMessage {
    /// Create a new IPCMessage from raw bytes.
    pub fn new(data: Vec<u8>) -> (r: Self)
        ensures
            r@ == data@,
    {
        IPCMessage { data }
    }

    /// Create a new respond message: the respond type byte followed by `payload`.
    pub fn new_respond(payload: &EncodedData) -> (r: Self)
        requires
            respond_buffers(payload@).byte_len() <= u32::MAX,
        ensures
            r@ == respond_buffers(payload@).serialize(),
    {
        let mut encoder = EncodedData::new();
        encoder.push_u8(MessageType::Respond.as_u8());
        encoder.extend(payload);
        assert(encoder@ =~= respond_buffers(payload@));
        IPCMessage::new(encoder.to_bytes())
    }

    /// Get the message type.
    pub fn ty(&self) -> (r: Result<MessageType, DecodeError>)
        ensures
            r == spec_message_type(self@),
    {
        let mut decoded = DecodedData::from_bytes(self.data.as_slice())?;
        let message_type = decoded.take_u8()?;
        match message_type {
            0 => Ok(MessageType::Evaluate),
            1 => Ok(MessageType::Respond),
            v => Err(DecodeError::InvalidMessageType { value: v }),
        }
    }

    /// Decode the message into its variant form.
    pub fn decoded(&self) -> (r: Result<DecodedVariant<'_>, DecodeError>)
        ensures
            match r {
                Ok(DecodedVariant::Evaluate { data }) => spec_message_type(self@) == Ok::<
                    MessageType,
                    DecodeError,
                >(MessageType::Evaluate) && data@ == message_body(self@),
                Ok(DecodedVariant::Respond { data }) => spec_message_type(self@) == Ok::<
                    MessageType,
                    DecodeError,
                >(MessageType::Respond) && data@ == message_body(self@),
                Err(e) => spec_message_type(self@) == Err::<MessageType, DecodeError>(e),
            },
    {
        let mut decoded = DecodedData::from_bytes(self.data.as_slice())?;
        let message_type = decoded.take_u8()?;
        match message_type {
            0 => Ok(DecodedVariant::Evaluate { data: decoded }),
            1 => Ok(DecodedVariant::Respond { data: decoded }),
            v => Err(DecodeError::InvalidMessageType { value: v }),
        }
    }

    /// Get the raw data bytes.
    pub fn data(&self) -> (r: &[u8])
        ensures
            r@ == self@,
    {
        self.data.as_slice()
    }

    /// Consume the message and return the raw data.
    pub fn into_data(self) -> (r: Vec<u8>)
        ensures
            r@ == self@,
    {
        self.data
    }
}

/// The bytes of the padded standard base64 encoding of `b`.
pub open spec fn base64_standard_encode_bytes(b: Seq<u8>) -> Seq<u8> {
    base64_standard_encode(b).map_values(|c: char| (c as u32) as u8)
}

/// Decodes `input` with `base64::engine::general_purpose::STANDARD` (`Engine::decode`).
///
/// Trusted: that engine requires canonical padding and rejects trailing bits, so it
/// accepts exactly the padded standard encodings of byte strings and gives back the
/// bytes encoded; every other input is an error.
#[verifier::external_body]
fn base64_decode(input: &[u8]) -> (r: Option<Vec<u8>>)
    ensures
        match r {
            Some(v) => base64_standard_encode_bytes(v@) == input@,
            None => forall|b: Seq<u8>| base64_standard_encode_bytes(b) != input@,
        },
{
    base64::engine::general_purpose::STANDARD.decode(input).ok()
}

/// The symbol of a six-bit value in the standard base64 alphabet.
pub open spec fn base64_symbol(v: int) -> char {
    if v < 26 {
        (v + 65) as char
    } else if v < 52 {
        (v + 71) as char
    } else if v < 62 {
        (v - 4) as char
    } else if v == 62 {
        '+'
    } else {
        '/'
    }
}

/// Standard base64 with padding (RFC 4648): each three bytes become four symbols, and
/// a last group of one or two bytes is padded with `=`.
pub open spec fn base64_standard_encode(b: Seq<u8>) -> Seq<char>
    decreases b.len(),
{
    if b.len() == 0 {
        Seq::empty()
    } else if b.len() == 1 {
        seq![base64_symbol(b[0] as int / 4), base64_symbol((b[0] as int % 4) * 16), '=', '=']
    } else if b.len() == 2 {
        seq![
            base64_symbol(b[0] as int / 4),
            base64_symbol((b[0] as int % 4) * 16 + b[1] as int / 16),
            base64_symbol((b[1] as int % 16) * 4),
            '=',
        ]
    } else {
        seq![
            base64_symbol(b[0] as int / 4),
            base64_symbol((b[0] as int % 4) * 16 + b[1] as int / 16),
            base64_symbol((b[1] as int % 16) * 4 + b[2] as int / 64),
            base64_symbol(b[2] as int % 64),
        ] + base64_standard_encode(b.skip(3))
    }
}

/// Distinct six-bit values have distinct symbols, none of which is the padding `=`,
/// and every symbol is an ASCII character.
proof fn lemma_base64_symbol(x: int, y: int)
    requires
        0 <= x < 64,
        0 <= y < 64,
    ensures
        base64_symbol(x) != '=',
        (base64_symbol(x) as u32) < 128,
        base64_symbol(x) == base64_symbol(y) ==> x == y,
{
}

/// Every symbol of an encoding is a base64 symbol or the padding `=`, so it is ASCII.
proof fn lemma_base64_encode_ascii(b: Seq<u8>)
    ensures
        forall|i: int|
            0 <= i < base64_standard_encode(b).len() ==> (#[trigger] base64_standard_encode(b)[i]
                as u32) < 128,
    decreases b.len(),
{
    let e = base64_standard_encode(b);
    if b.len() >= 1 {
        lemma_base64_symbol(b[0] as int / 4, 0);
    }
    if b.len() == 1 {
        lemma_base64_symbol((b[0] as int % 4) * 16, 0);
    } else if b.len() == 2 {
        lemma_base64_symbol((b[0] as int % 4) * 16 + b[1] as int / 16, 0);
        lemma_base64_symbol((b[1] as int % 16) * 4, 0);
    } else if b.len() >= 3 {
        lemma_base64_symbol((b[0] as int % 4) * 16 + b[1] as int / 16, 0);
        lemma_base64_symbol((b[1] as int % 16) * 4 + b[2] as int / 64, 0);
        lemma_base64_symbol(b[2] as int % 64, 0);
        lemma_base64_encode_ascii(b.skip(3));
        let rest = base64_standard_encode(b.skip(3));
        assert forall|i: int| 4 <= i < e.len() implies (#[trigger] e[i] as u32) < 128 by {
            assert(e[i] == rest[i - 4]);
        }
    }
}

/// Two byte strings with the same base64 encoding are the same.
proof fn lemma_base64_encode_injective(a: Seq<u8>, b: Seq<u8>)
    requires
        base64_standard_encode(a) == base64_standard_encode(b),
    ensures
        a == b,
    decreases a.len(),
{
    let e = base64_standard_encode(a);
    if a.len() == 0 || b.len() == 0 {
        if a.len() > 0 {
            assert(base64_standard_encode(a).len() >= 4);
        }
        if b.len() > 0 {
            assert(base64_standard_encode(b).len() >= 4);
        }
        assert(a =~= b);
    } else {
        lemma_base64_symbol(a[0] as int / 4, b[0] as int / 4);
        if a.len() >= 2 {
            lemma_base64_symbol((a[1] as int % 16) * 4 + if a.len() >= 3 { a[2] as int / 64 } else { 0 }, 0);
        }
        if b.len() >= 2 {
            lemma_base64_symbol((b[1] as int % 16) * 4 + if b.len() >= 3 { b[2] as int / 64 } else { 0 }, 0);
        }
        if a.len() >= 3 {
            lemma_base64_symbol(a[2] as int % 64, 0);
        }
        if b.len() >= 3 {
            lemma_base64_symbol(b[2] as int % 64, 0);
        }
        assert(a.len() == 1 <==> b.len() == 1);
        assert(a.len() == 2 <==> b.len() == 2);
        if a.len() == 1 {
            lemma_base64_symbol((a[0] as int % 4) * 16, (b[0] as int % 4) * 16);
            assert(a =~= b);
        } else if a.len() == 2 {
            lemma_base64_symbol(
                (a[0] as int % 4) * 16 + a[1] as int / 16,
                (b[0] as int % 4) * 16 + b[1] as int / 16,
            );
            lemma_base64_symbol((a[1] as int % 16) * 4, (b[1] as int % 16) * 4);
            assert(a[1] as int / 16 < 16 && b[1] as int / 16 < 16);
            assert(a[0] as int / 4 == b[0] as int / 4);
            assert(a[0] as int == (a[0] as int / 4) * 4 + a[0] as int % 4);
            assert(b[0] as int == (b[0] as int / 4) * 4 + b[0] as int % 4);
            assert(a[1] as int == (a[1] as int / 16) * 16 + a[1] as int % 16);
            assert(b[1] as int == (b[1] as int / 16) * 16 + b[1] as int % 16);
            assert(a[0] as int % 4 == b[0] as int % 4);
            assert(a[1] as int / 16 == b[1] as int / 16);
            assert(a[1] as int % 16 == b[1] as int % 16);
            assert(a[0] == b[0]);
            assert(a[1] == b[1]);
            assert(a =~= b);
        } else {
            let eb = base64_standard_encode(b);
            assert(b.len() >= 3);
            assert(e[0] == base64_symbol(a[0] as int / 4));
            assert(eb[0] == base64_symbol(b[0] as int / 4));
            assert(e[1] == base64_symbol((a[0] as int % 4) * 16 + a[1] as int / 16));
            assert(eb[1] == base64_symbol((b[0] as int % 4) * 16 + b[1] as int / 16));
            assert(e[2] == base64_symbol((a[1] as int % 16) * 4 + a[2] as int / 64));
            assert(eb[2] == base64_symbol((b[1] as int % 16) * 4 + b[2] as int / 64));
            assert(e[3] == base64_symbol(a[2] as int % 64));
            assert(eb[3] == base64_symbol(b[2] as int % 64));
            lemma_base64_symbol(a[0] as int / 4, b[0] as int / 4);
            lemma_base64_symbol(
                (a[0] as int % 4) * 16 + a[1] as int / 16,
                (b[0] as int % 4) * 16 + b[1] as int / 16,
            );
            lemma_base64_symbol(
                (a[1] as int % 16) * 4 + a[2] as int / 64,
                (b[1] as int % 16) * 4 + b[2] as int / 64,
            );
            lemma_base64_symbol(a[2] as int % 64, b[2] as int % 64);
            assert(a[0] as int / 4 == b[0] as int / 4);
            assert(a[0] as int == (a[0] as int / 4) * 4 + a[0] as int % 4);
            assert(b[0] as int == (b[0] as int / 4) * 4 + b[0] as int % 4);
            assert(a[1] as int == (a[1] as int / 16) * 16 + a[1] as int % 16);
            assert(b[1] as int == (b[1] as int / 16) * 16 + b[1] as int % 16);
            assert(a[2] as int == (a[2] as int / 64) * 64 + a[2] as int % 64);
            assert(b[2] as int == (b[2] as int / 64) * 64 + b[2] as int % 64);
            assert(a[1] as int / 16 < 16 && b[1] as int / 16 < 16);
            assert(a[2] as int / 64 < 4 && b[2] as int / 64 < 4);
            assert(a[0] as int % 4 == b[0] as int % 4);
            assert(a[1] as int / 16 == b[1] as int / 16);
            assert(a[1] as int % 16 == b[1] as int % 16);
            assert(a[2] as int / 64 == b[2] as int / 64);
            assert(a[0] == b[0]);
            assert(a[1] == b[1]);
            assert(a[2] == b[2]);
            let ra = base64_standard_encode(a.skip(3));
            let rb = base64_standard_encode(b.skip(3));
            assert(ra =~= e.skip(4));
            assert(rb =~= base64_standard_encode(b).skip(4));
            lemma_base64_encode_injective(a.skip(3), b.skip(3));
            assert(a =~= a.take(3) + a.skip(3));
            assert(b =~= b.take(3) + b.skip(3));
            assert(a.take(3) =~= b.take(3));
        }
    }
}

/// Two byte strings whose padded base64 encodings have the same bytes are the same:
/// decoding gives back exactly what was encoded.
pub proof fn lemma_base64_encoding_determines_bytes(a: Seq<u8>, b: Seq<u8>)
    requires
        base64_standard_encode_bytes(a) == base64_standard_encode_bytes(b),
    ensures
        a == b,
{
    let ea = base64_standard_encode(a);
    let eb = base64_standard_encode(b);
    lemma_base64_encode_ascii(a);
    lemma_base64_encode_ascii(b);
    assert(ea.len() == base64_standard_encode_bytes(a).len());
    assert forall|i: int| 0 <= i < ea.len() implies ea[i] == eb[i] by {
        assert(base64_standard_encode_bytes(a)[i] == base64_standard_encode_bytes(b)[i]);
        let x: u32 = ea[i] as u32;
        let y: u32 = eb[i] as u32;
        assert(base64_standard_encode_bytes(a)[i] == x as u8);
        assert(base64_standard_encode_bytes(b)[i] == y as u8);
        assert(x < 128 && y < 128);
        assert((x as u8) as u32 == x);
        assert((y as u8) as u32 == y);
        char_u32_cast(ea[i], x);
        char_u32_cast(eb[i], y);
    }
    assert(ea =~= eb);
    lemma_base64_encode_injective(a, b);
}

/// The length of the padded base64 encoding of `n` bytes.
pub open spec fn base64_encoded_len(n: nat) -> nat {
    (n / 3) * 4 + if n % 3 > 0 {
        4nat
    } else {
        0nat
    }
}

/// Encodes `input` with `base64::engine::general_purpose::STANDARD` (`Engine::encode`).
///
/// Trusted: the standard alphabet with padding, as the crate documents; the crate panics
/// when the encoded length overflows `usize`, which `requires` leaves out.
#[verifier::external_body]
pub(crate) fn base64_encode(input: &[u8]) -> (r: String)
    requires
        base64_encoded_len(input@.len()) <= usize::MAX,
    ensures
        r@ == base64_standard_encode(input@),
{
    base64::engine::general_purpose::STANDARD.encode(input)
}

/// Decode base64-encoded IPC data: the message whose padded standard base64 encoding
/// the bytes are, if they are one. The encoding of a message decodes to that message.
pub fn decode_data(bytes: &[u8]) -> (r: Option<IPCMessage>)
    ensures
        match r {
            Some(m) => base64_standard_encode_bytes(m@) == bytes@,
            None => forall|b: Seq<u8>| base64_standard_encode_bytes(b) != bytes@,
        },
        forall|b: Seq<u8>|
            #[trigger] base64_standard_encode_bytes(b) == bytes@ ==> (r matches Some(m) && m@ == b),
{
    let data = base64_decode(bytes)?;
    let r = IPCMessage { data };
    proof {
        assert forall|b: Seq<u8>| #[trigger]
            base64_standard_encode_bytes(b) == bytes@ implies r@ == b by {
            lemma_base64_encoding_determines_bytes(r@, b);
        }
    }
    Some(r)
}

/// A serialized message is as long as its buffers say: twelve header bytes, four per
/// u32 value, two per u16 value, one per u8 value and one per string byte.
pub proof fn lemma_serialize_len(b: Buffers)
    ensures
        b.serialize().len() == b.byte_len(),
        b.byte_len() == 12 + 4 * b.u32s.len() + 2 * b.u16s.len() + b.u8s.len() + b.strs.len(),
{
    lemma_u32s_le_len(b.u32s);
    lemma_u16s_le_len(b.u16s);
}

/// Reading back a serialized message gives the buffers that were written:
/// whatever an encoder holds, the decoder of its bytes holds the same.
pub proof fn lemma_message_roundtrip(b: Buffers)
    requires
        b.byte_len() <= u32::MAX,
    ensures
        parse_message(b.serialize()) == Ok::<Buffers, DecodeError>(b),
{
    let bytes = b.serialize();
    lemma_serialize_len(b);
    lemma_u32s_le_len(b.u32s);
    lemma_u16s_le_len(b.u16s);
    let o1 = b.u16_offset() as u32;
    let o2 = b.u8_offset() as u32;
    let o3 = b.str_offset() as u32;
    lemma_le32_read(o1);
    lemma_le32_read(o2);
    lemma_le32_read(o3);
    assert(bytes.subrange(0, 4) =~= le32(o1));
    assert(bytes.subrange(4, 8) =~= le32(o2));
    assert(bytes.subrange(8, 12) =~= le32(o3));
    assert(read_le32(bytes, 0) == read_le32(bytes.subrange(0, 4), 0));
    assert(read_le32(bytes, 4) == read_le32(bytes.subrange(4, 8), 0));
    assert(read_le32(bytes, 8) == read_le32(bytes.subrange(8, 12), 0));
    assert(bytes.subrange(12, o1 as int) =~= u32s_le(b.u32s));
    assert(bytes.subrange(o1 as int, o2 as int) =~= u16s_le(b.u16s));
    assert(bytes.subrange(o2 as int, o3 as int) =~= b.u8s);
    assert(bytes.subrange(o3 as int, bytes.len() as int) =~= b.strs);
    lemma_u32s_roundtrip(b.u32s);
    lemma_u16s_roundtrip(b.u16s);
}

/// A respond message built from any payload reads back as a respond message with that payload.
pub proof fn lemma_respond_roundtrip(payload: Buffers)
    requires
        respond_buffers(payload).byte_len() <= u32::MAX,
    ensures
        spec_message_type(respond_buffers(payload).serialize()) == Ok::<MessageType, DecodeError>(
            MessageType::Respond,
        ),
        message_body(respond_buffers(payload).serialize()) == payload,
{
    let b = respond_buffers(payload);
    lemma_message_roundtrip(b);
    assert(b.u8s.drop_first() =~= payload.u8s);
    assert(b.u16s =~= payload.u16s);
    assert(b.u32s =~= payload.u32s);
    assert(b.strs =~= payload.strs);
}

/// The results of `n` successive u16 reads, and the buffers they leave.
pub open spec fn spec_take_u16s(b: Buffers, n: nat) -> (Seq<Result<u16, DecodeError>>, Buffers)
    decreases n,
{
    if n == 0 {
        (Seq::empty(), b)
    } else {
        let first = spec_take_u16(b);
        let more = spec_take_u16s(first.1, (n - 1) as nat);
        (seq![first.0] + more.0, more.1)
    }
}

/// Successive u16 reads give the u16 values in the order they were pushed, and once
/// all of them are read the next read fails with `U16BufferEmpty`; the other buffers
/// are untouched.
pub proof fn lemma_u16_reads_in_order(b: Buffers)
    ensures
        spec_take_u16s(b, b.u16s.len()).0 == b.u16s.map_values(|v: u16| Ok::<u16, DecodeError>(v)),
        spec_take_u16s(b, b.u16s.len()).1 == b.with_u16s(Seq::empty()),
        spec_take_u16(spec_take_u16s(b, b.u16s.len()).1).0 == Err::<u16, DecodeError>(
            DecodeError::U16BufferEmpty,
        ),
    decreases b.u16s.len(),
{
    if b.u16s.len() == 0 {
        assert(b.with_u16s(Seq::empty()) =~= b);
        assert(b.u16s.map_values(|v: u16| Ok::<u16, DecodeError>(v)) =~= Seq::empty());
    } else {
        let rest = b.with_u16s(b.u16s.drop_first());
        lemma_u16_reads_in_order(rest);
        assert(rest.with_u16s(Seq::empty()) =~= b.with_u16s(Seq::empty()));
        assert(seq![Ok::<u16, DecodeError>(b.u16s[0])] + rest.u16s.map_values(
            |v: u16| Ok::<u16, DecodeError>(v),
        ) =~= b.u16s.map_values(|v: u16| Ok::<u16, DecodeError>(v)));
    }
}

/// The u16 values written into a message come back, in push order, from the buffers
/// read out of its bytes, and a read past the last one fails with `U16BufferEmpty`.
pub proof fn lemma_message_u16s_read_back(e: Buffers)
    requires
        e.byte_len() <= u32::MAX,
    ensures
        parse_message(e.serialize()) == Ok::<Buffers, DecodeError>(e),
        spec_take_u16s(e, e.u16s.len()).0 == e.u16s.map_values(|v: u16| Ok::<u16, DecodeError>(v)),
        spec_take_u16(spec_take_u16s(e, e.u16s.len()).1).0 == Err::<u16, DecodeError>(
            DecodeError::U16BufferEmpty,
        ),
{
    lemma_message_roundtrip(e);
    lemma_u16_reads_in_order(e);
}

/// The buffers of a fresh encoder after one string is pushed: its byte length, then
/// its bytes.
pub open spec fn string_message(s: Seq<char>) -> Buffers {
    Buffers::empty().with_u32s(seq![encode_utf8(s).len() as u32]).with_strs(encode_utf8(s))
}

/// A string pushed into a fresh encoder is read back from the bytes of the message
/// as the same string, and nothing is left to read.
pub proof fn lemma_string_roundtrip(s: Seq<char>)
    requires
        string_message(s).byte_len() <= u32::MAX,
    ensures
        parse_message(string_message(s).serialize()) == Ok::<Buffers, DecodeError>(string_message(s)),
        spec_take_str(string_message(s)).0 == Ok::<Seq<char>, DecodeError>(s),
        spec_take_str(string_message(s)).1.is_empty(),
{
    let b = string_message(s);
    let bytes = encode_utf8(s);
    lemma_message_roundtrip(b);
    assert(b.u32s[0] == bytes.len());
    assert(b.strs.take(bytes.len() as int) =~= bytes);
    encode_utf8_valid_utf8(s);
    encode_utf8_decode_utf8(s);
    assert(b.u32s.drop_first() =~= Seq::<u32>::empty());
    assert(b.strs.subrange(bytes.len() as int, b.strs.len() as int) =~= Seq::<u8>::empty());
}

/// The layout of a message's bytes: a header of three little-endian u32 offsets, where
/// the u16 values start (after the header and four bytes per u32 value), where the u8
/// values start (two bytes per u16 value later) and where the string bytes start (one
/// byte per u8 value later); then the u32 values, the u16 values, the u8 values and the
/// string bytes, in that order.
pub proof fn lemma_message_layout(b: Buffers)
    requires
        b.byte_len() <= u32::MAX,
    ensures
        ({
            let bytes = b.serialize();
            let o1: int = 12 + 4 * (b.u32s.len() as int);
            let o2: int = o1 + 2 * b.u16s.len();
            let o3: int = o2 + b.u8s.len();
            &&& read_le32(bytes, 0) == o1
            &&& read_le32(bytes, 4) == o2
            &&& read_le32(bytes, 8) == o3
            &&& bytes.len() == o3 + b.strs.len()
            &&& bytes.subrange(12, o1) == u32s_le(b.u32s)
            &&& bytes.subrange(o1, o2) == u16s_le(b.u16s)
            &&& bytes.subrange(o2, o3) == b.u8s
            &&& bytes.subrange(o3, bytes.len() as int) == b.strs
        }),
{
    let bytes = b.serialize();
    lemma_serialize_len(b);
    lemma_u32s_le_len(b.u32s);
    lemma_u16s_le_len(b.u16s);
    let o1 = b.u16_offset() as u32;
    let o2 = b.u8_offset() as u32;
    let o3 = b.str_offset() as u32;
    lemma_le32_read(o1);
    lemma_le32_read(o2);
    lemma_le32_read(o3);
    assert(bytes.subrange(0, 4) =~= le32(o1));
    assert(bytes.subrange(4, 8) =~= le32(o2));
    assert(bytes.subrange(8, 12) =~= le32(o3));
    assert(read_le32(bytes, 0) == read_le32(bytes.subrange(0, 4), 0));
    assert(read_le32(bytes, 4) == read_le32(bytes.subrange(4, 8), 0));
    assert(read_le32(bytes, 8) == read_le32(bytes.subrange(8, 12), 0));
    assert(bytes.subrange(12, o1 as int) =~= u32s_le(b.u32s));
    assert(bytes.subrange(o1 as int, o2 as int) =~= u16s_le(b.u16s));
    assert(bytes.subrange(o2 as int, o3 as int) =~= b.u8s);
    assert(bytes.subrange(o3 as int, bytes.len() as int) =~= b.strs);
}

} // verus!
