//! Core encoding and decoding traits for the binary protocol.
//!
//! This module provides traits for serializing and deserializing Rust types
//! to/from the binary IPC protocol, and for describing their type to JavaScript.

use vstd::prelude::*;
use vstd::string::*;
use vstd::utf8::*;
use crate::batch::{BatchState, BatchView};
use crate::ipc::{
    Buffers, DecodeError, DecodedData, EncodedData, lemma_u128_quarters_join,
    lemma_u64_halves_join, spec_take_str, spec_take_u128, spec_take_u16, spec_take_u32,
    spec_take_u64, spec_take_u8, u128_quarters, u64_halves,
};
use crate::closure::{Clamped, Closure};
use crate::value::JsValue;

verus! {

/// Trait for encoding Rust values into the binary protocol.
/// Each type specifies how to serialize itself.
pub trait BinaryEncode: Sized {
    /// What encoding this value appends to each buffer.
    spec fn encoding(&self) -> Buffers;

    fn encode(self, encoder: &mut EncodedData)
        ensures
            final(encoder)@ == old(encoder)@.append(self.encoding()),
    ;
}

/// Trait for decoding values from the binary protocol.
/// Each type specifies how to deserialize itself.
pub trait BinaryDecode: Sized {
    /// Decoding from buffers holding `b` gives `r`, and `rest` remains to be read.
    spec fn decodes_to(b: Buffers, r: Result<Self, DecodeError>, rest: Buffers) -> bool;

    fn decode(decoder: &mut DecodedData) -> (r: Result<Self, DecodeError>)
        ensures
            Self::decodes_to(old(decoder)@, r, final(decoder)@),
    ;
}

/// Values that read back as themselves: decoding the encoding of `v` followed by
/// anything else gives `v` and leaves that rest.
pub trait WireRoundtrip: BinaryEncode + BinaryDecode {
    /// Whether the value can be written at all (a length must fit its u32 prefix).
    spec fn fits_wire(&self) -> bool;

    /// Decoding the encoding of `v`, followed by anything, gives `v` back and leaves the rest.
    proof fn lemma_roundtrip(v: Self, rest: Buffers)
        requires
            v.fits_wire(),
        ensures
            Self::decodes_to(v.encoding().append(rest), Ok(v), rest),
    ;
}

/// Trait for converting a closure into a Closure wrapper.
pub trait IntoClosure<M, Output> {
    fn into_closure(self) -> Output;
}

/// Trait for return types that can be used in batched JS calls.
/// Determines how the type behaves during batching.
pub trait BatchableResult: Sized {
    /// Whether this result type requires flushing the batch to get the actual value.
    spec fn spec_needs_flush() -> bool;

    /// Whether this result type requires flushing the batch to get the actual value.
    /// Returns false for opaque types (placeholder) and trivial types (known value).
    fn needs_flush() -> (r: bool)
        ensures
            r == Self::spec_needs_flush(),
    ;
}

/// Result types whose value is known without a flush: opaque types, for which a heap
/// id is reserved, and trivial types.
pub trait PlaceholderResult: BatchableResult {
    /// `r` is the placeholder handed out when the batch goes from `before` to `after`.
    spec fn is_placeholder(before: BatchView, after: BatchView, r: Self) -> bool;

    /// A type with a placeholder never needs a flush.
    proof fn lemma_no_flush()
        ensures
            !Self::spec_needs_flush(),
    ;

    /// Get a placeholder/trivial value during batching.
    /// For opaque types, this reserves a heap ID from the batch.
    /// For trivial types like (), this returns the known value.
    fn batched_placeholder(batch: &mut BatchState) -> (r: Self)
        requires
            old(batch)@.wf(),
            old(batch)@.can_alloc(),
        ensures
            final(batch)@.wf(),
            Self::is_placeholder(old(batch)@, final(batch)@, r),
    ;
}

/// Marker for cached type definition (type already sent, just reference by ID)
/// Format: [TYPE_CACHED] [type_id: u32]
pub const TYPE_CACHED: u8 = 0xFF;

/// Marker for full type definition (first time sending this type signature)
/// Format: [TYPE_FULL] [type_id: u32] [param_count: u8] [param TypeDefs...] [return TypeDef]
pub const TYPE_FULL: u8 = 0xFE;

/// Type tags for the binary type definition protocol.
/// Used to encode type information that JavaScript can parse to create TypeClass instances.
#[derive(Debug, Clone, Copy, PartialEq, Eq, Structural)]
pub enum TypeTag {
    Null,
    Bool,
    U8,
    U16,
    U32,
    U64,
    U128,
    I8,
    I16,
    I32,
    I64,
    I128,
    F32,
    F64,
    Usize,
    Isize,
    String,
    HeapRef,
    /// Callback type: followed by param_count (u8), param TypeDefs..., return TypeDef
    Callback,
    /// Option type: followed by inner TypeDef. Encodes as u8 flag (0=None, 1=Some) + value if Some
    Option,
    /// Result type: followed by ok TypeDef and err TypeDef. Encodes as u8 flag (0=Err, 1=Ok) + value
    Result,
    /// Array type: followed by element TypeDef. Encodes as u32 length + elements
    Array,
    /// Borrowed reference: uses the borrow stack (indices 1-127) instead of the heap.
    BorrowedRef,
    /// Clamped u8 array type: represents Uint8ClampedArray in JS.
    U8Clamped,
    /// String enum type: encodes as u32 index, but type def includes variant strings.
    StringEnum,
}

/// The byte that stands for a type tag on the wire.
pub open spec fn tag_byte(t: TypeTag) -> u8 {
    match t {
        TypeTag::Null => 0,
        TypeTag::Bool => 1,
        TypeTag::U8 => 2,
        TypeTag::U16 => 3,
        TypeTag::U32 => 4,
        TypeTag::U64 => 5,
        TypeTag::U128 => 6,
        TypeTag::I8 => 7,
        TypeTag::I16 => 8,
        TypeTag::I32 => 9,
        TypeTag::I64 => 10,
        TypeTag::I128 => 11,
        TypeTag::F32 => 12,
        TypeTag::F64 => 13,
        TypeTag::Usize => 14,
        TypeTag::Isize => 15,
        TypeTag::String => 16,
        TypeTag::HeapRef => 17,
        TypeTag::Callback => 18,
        TypeTag::Option => 19,
        TypeTag::Result => 20,
        TypeTag::Array => 21,
        TypeTag::BorrowedRef => 22,
        TypeTag::U8Clamped => 23,
        TypeTag::StringEnum => 24,
    }
}

impl TypeTag {
    /// The byte that stands for this tag on the wire.
    pub fn as_u8(self) -> (r: u8)
        ensures
            r == tag_byte(self),
    {
        match self {
            TypeTag::Null => 0,
            TypeTag::Bool => 1,
            TypeTag::U8 => 2,
            TypeTag::U16 => 3,
            TypeTag::U32 => 4,
            TypeTag::U64 => 5,
            TypeTag::U128 => 6,
            TypeTag::I8 => 7,
            TypeTag::I16 => 8,
            TypeTag::I32 => 9,
            TypeTag::I64 => 10,
            TypeTag::I128 => 11,
            TypeTag::F32 => 12,
            TypeTag::F64 => 13,
            TypeTag::Usize => 14,
            TypeTag::Isize => 15,
            TypeTag::String => 16,
            TypeTag::HeapRef => 17,
            TypeTag::Callback => 18,
            TypeTag::Option => 19,
            TypeTag::Result => 20,
            TypeTag::Array => 21,
            TypeTag::BorrowedRef => 22,
            TypeTag::U8Clamped => 23,
            TypeTag::StringEnum => 24,
        }
    }
}

/// Distinct tags are written as distinct bytes, none of which is a type-cache marker.
pub proof fn lemma_tag_bytes_distinct(a: TypeTag, b: TypeTag)
    ensures
        a != b ==> tag_byte(a) != tag_byte(b),
        tag_byte(a) != TYPE_CACHED,
        tag_byte(a) != TYPE_FULL,
{
}

/// Trait for types that can encode their type definition into the binary protocol.
/// This is used to send type information to JavaScript for callback arguments.
pub trait EncodeTypeDef {
    /// The bytes that describe this type.
    spec fn type_def() -> Seq<u8>;

    /// Encode this type's definition into the buffer.
    fn encode_type_def(buf: &mut Vec<u8>)
        ensures
            final(buf)@ == old(buf)@ + Self::type_def(),
    ;
}

/// Marker trait for types that can be cheaply cloned for encoding.
pub trait CloneForEncode: Clone {}

impl CloneForEncode for bool {}
impl CloneForEncode for u8 {}
impl CloneForEncode for u16 {}
impl CloneForEncode for u32 {}
impl CloneForEncode for u64 {}
impl CloneForEncode for i8 {}
impl CloneForEncode for i16 {}
impl CloneForEncode for i32 {}
impl CloneForEncode for i64 {}
impl CloneForEncode for usize {}
impl CloneForEncode for isize {}
impl CloneForEncode for String {}

// Unit type implementations

impl EncodeTypeDef for () {
    open spec fn type_def() -> Seq<u8> {
        seq![tag_byte(TypeTag::Null)]
    }

    fn encode_type_def(buf: &mut Vec<u8>) {
        buf.push(TypeTag::Null.as_u8());
    }
}

impl BinaryEncode for () {
    open spec fn encoding(&self) -> Buffers {
        Buffers::empty()
    }

    fn encode(self, encoder: &mut EncodedData) {
        assert(old(encoder)@.append(Buffers::empty()) =~= old(encoder)@);
    }
}

impl BinaryDecode for () {
    open spec fn decodes_to(b: Buffers, r: Result<Self, DecodeError>, rest: Buffers) -> bool {
        r == Ok::<(), DecodeError>(()) && rest == b
    }

    fn decode(decoder: &mut DecodedData) -> (r: Result<Self, DecodeError>) {
        Ok(())
    }
}

impl WireRoundtrip for () {
    open spec fn fits_wire(&self) -> bool {
        true
    }

    proof fn lemma_roundtrip(v: Self, rest: Buffers) {
        assert(Buffers::empty().append(rest) =~= rest);
    }
}

impl BatchableResult for () {
    open spec fn spec_needs_flush() -> bool {
        false
    }

    fn needs_flush() -> bool {
        false
    }
}

impl PlaceholderResult for () {
    proof fn lemma_no_flush() {
    }

    open spec fn is_placeholder(before: BatchView, after: BatchView, r: Self) -> bool {
        after == before
    }

    fn batched_placeholder(batch: &mut BatchState) -> Self {
    }
}

// Bool implementations

impl EncodeTypeDef for bool {
    open spec fn type_def() -> Seq<u8> {
        seq![tag_byte(TypeTag::Bool)]
    }

    fn encode_type_def(buf: &mut Vec<u8>) {
        buf.push(TypeTag::Bool.as_u8());
    }
}

impl BinaryEncode for bool {
    open spec fn encoding(&self) -> Buffers {
        Buffers::empty().with_u8s(seq![if *self { 1u8 } else { 0u8 }])
    }

    fn encode(self, encoder: &mut EncodedData) {
        encoder.push_u8(if self { 1 } else { 0 });
        assert(final(encoder)@ =~= old(encoder)@.append(self.encoding()));
    }
}

impl BinaryDecode for bool {
    open spec fn decodes_to(b: Buffers, r: Result<Self, DecodeError>, rest: Buffers) -> bool {
        &&& rest == spec_take_u8(b).1
        &&& r == match spec_take_u8(b).0 {
            Ok(x) => Ok(x != 0),
            Err(e) => Err(e),
        }
    }

    fn decode(decoder: &mut DecodedData) -> (r: Result<Self, DecodeError>) {
        let x = decoder.take_u8()?;
        Ok(x != 0)
    }
}

impl WireRoundtrip for bool {
    open spec fn fits_wire(&self) -> bool {
        true
    }

    proof fn lemma_roundtrip(v: Self, rest: Buffers) {
        assert(v.encoding().append(rest).u8s.drop_first() =~= rest.u8s);
    }
}

impl BatchableResult for bool {
    open spec fn spec_needs_flush() -> bool {
        true
    }

    fn needs_flush() -> bool {
        true
    }
}

impl EncodeTypeDef for u8 {
    open spec fn type_def() -> Seq<u8> {
        seq![tag_byte(TypeTag::U8)]
    }

    fn encode_type_def(buf: &mut Vec<u8>) {
        buf.push(TypeTag::U8.as_u8());
    }
}

impl BinaryEncode for u8 {
    open spec fn encoding(&self) -> Buffers {
        Buffers::empty().with_u8s(seq![*self])
    }

    fn encode(self, encoder: &mut EncodedData) {
        encoder.push_u8(self);
        assert(final(encoder)@ =~= old(encoder)@.append(self.encoding()));
    }
}

impl BinaryDecode for u8 {
    open spec fn decodes_to(b: Buffers, r: Result<Self, DecodeError>, rest: Buffers) -> bool {
        (r, rest) == spec_take_u8(b)
    }

    fn decode(decoder: &mut DecodedData) -> (r: Result<Self, DecodeError>) {
        decoder.take_u8()
    }
}

impl WireRoundtrip for u8 {
    open spec fn fits_wire(&self) -> bool {
        true
    }

    proof fn lemma_roundtrip(v: Self, rest: Buffers) {
        assert(v.encoding().append(rest).u8s.drop_first() =~= rest.u8s);
    }
}

impl BatchableResult for u8 {
    open spec fn spec_needs_flush() -> bool {
        true
    }

    fn needs_flush() -> bool {
        true
    }
}

impl EncodeTypeDef for u16 {
    open spec fn type_def() -> Seq<u8> {
        seq![tag_byte(TypeTag::U16)]
    }

    fn encode_type_def(buf: &mut Vec<u8>) {
        buf.push(TypeTag::U16.as_u8());
    }
}

impl BinaryEncode for u16 {
    open spec fn encoding(&self) -> Buffers {
        Buffers::empty().with_u16s(seq![*self])
    }

    fn encode(self, encoder: &mut EncodedData) {
        encoder.push_u16(self);
        assert(final(encoder)@ =~= old(encoder)@.append(self.encoding()));
    }
}

impl BinaryDecode for u16 {
    open spec fn decodes_to(b: Buffers, r: Result<Self, DecodeError>, rest: Buffers) -> bool {
        (r, rest) == spec_take_u16(b)
    }

    fn decode(decoder: &mut DecodedData) -> (r: Result<Self, DecodeError>) {
        decoder.take_u16()
    }
}

impl WireRoundtrip for u16 {
    open spec fn fits_wire(&self) -> bool {
        true
    }

    proof fn lemma_roundtrip(v: Self, rest: Buffers) {
        assert(v.encoding().append(rest).u16s.drop_first() =~= rest.u16s);
    }
}

impl BatchableResult for u16 {
    open spec fn spec_needs_flush() -> bool {
        true
    }

    fn needs_flush() -> bool {
        true
    }
}

impl EncodeTypeDef for u32 {
    open spec fn type_def() -> Seq<u8> {
        seq![tag_byte(TypeTag::U32)]
    }

    fn encode_type_def(buf: &mut Vec<u8>) {
        buf.push(TypeTag::U32.as_u8());
    }
}

impl BinaryEncode for u32 {
    open spec fn encoding(&self) -> Buffers {
        Buffers::empty().with_u32s(seq![*self])
    }

    fn encode(self, encoder: &mut EncodedData) {
        encoder.push_u32(self);
        assert(final(encoder)@ =~= old(encoder)@.append(self.encoding()));
    }
}

impl BinaryDecode for u32 {
    open spec fn decodes_to(b: Buffers, r: Result<Self, DecodeError>, rest: Buffers) -> bool {
        (r, rest) == spec_take_u32(b)
    }

    fn decode(decoder: &mut DecodedData) -> (r: Result<Self, DecodeError>) {
        decoder.take_u32()
    }
}

impl WireRoundtrip for u32 {
    open spec fn fits_wire(&self) -> bool {
        true
    }

    proof fn lemma_roundtrip(v: Self, rest: Buffers) {
        assert(v.encoding().append(rest).u32s.drop_first() =~= rest.u32s);
    }
}

impl BatchableResult for u32 {
    open spec fn spec_needs_flush() -> bool {
        true
    }

    fn needs_flush() -> bool {
        true
    }
}

impl EncodeTypeDef for u64 {
    open spec fn type_def() -> Seq<u8> {
        seq![tag_byte(TypeTag::U64)]
    }

    fn encode_type_def(buf: &mut Vec<u8>) {
        buf.push(TypeTag::U64.as_u8());
    }
}

impl BinaryEncode for u64 {
    open spec fn encoding(&self) -> Buffers {
        Buffers::empty().with_u32s(u64_halves(*self))
    }

    fn encode(self, encoder: &mut EncodedData) {
        encoder.push_u64(self);
        assert(final(encoder)@ =~= old(encoder)@.append(self.encoding()));
    }
}

impl BinaryDecode for u64 {
    open spec fn decodes_to(b: Buffers, r: Result<Self, DecodeError>, rest: Buffers) -> bool {
        (r, rest) == spec_take_u64(b)
    }

    fn decode(decoder: &mut DecodedData) -> (r: Result<Self, DecodeError>) {
        decoder.take_u64()
    }
}

impl WireRoundtrip for u64 {
    open spec fn fits_wire(&self) -> bool {
        true
    }

    proof fn lemma_roundtrip(v: Self, rest: Buffers) {
        lemma_u64_halves_join(v);
        assert(v.encoding().append(rest).u32s =~= u64_halves(v) + rest.u32s);
        assert(v.encoding().append(rest).u32s.subrange(2, v.encoding().append(rest).u32s.len() as int) =~= rest.u32s);
    }
}

impl BatchableResult for u64 {
    open spec fn spec_needs_flush() -> bool {
        true
    }

    fn needs_flush() -> bool {
        true
    }
}

impl EncodeTypeDef for u128 {
    open spec fn type_def() -> Seq<u8> {
        seq![tag_byte(TypeTag::U128)]
    }

    fn encode_type_def(buf: &mut Vec<u8>) {
        buf.push(TypeTag::U128.as_u8());
    }
}

impl BinaryEncode for u128 {
    open spec fn encoding(&self) -> Buffers {
        Buffers::empty().with_u32s(u128_quarters(*self))
    }

    fn encode(self, encoder: &mut EncodedData) {
        encoder.push_u128(self);
        assert(final(encoder)@ =~= old(encoder)@.append(self.encoding()));
    }
}

impl BinaryDecode for u128 {
    open spec fn decodes_to(b: Buffers, r: Result<Self, DecodeError>, rest: Buffers) -> bool {
        (r, rest) == spec_take_u128(b)
    }

    fn decode(decoder: &mut DecodedData) -> (r: Result<Self, DecodeError>) {
        decoder.take_u128()
    }
}

impl WireRoundtrip for u128 {
    open spec fn fits_wire(&self) -> bool {
        true
    }

    proof fn lemma_roundtrip(v: Self, rest: Buffers) {
        lemma_u128_quarters_join(v);
        assert(v.encoding().append(rest).u32s.subrange(4, v.encoding().append(rest).u32s.len() as int) =~= rest.u32s);
    }
}

impl BatchableResult for u128 {
    open spec fn spec_needs_flush() -> bool {
        true
    }

    fn needs_flush() -> bool {
        true
    }
}

impl EncodeTypeDef for i8 {
    open spec fn type_def() -> Seq<u8> {
        seq![tag_byte(TypeTag::I8)]
    }

    fn encode_type_def(buf: &mut Vec<u8>) {
        buf.push(TypeTag::I8.as_u8());
    }
}

impl BinaryEncode for i8 {
    open spec fn encoding(&self) -> Buffers {
        Buffers::empty().with_u8s(seq![*self as u8])
    }

    fn encode(self, encoder: &mut EncodedData) {
        encoder.push_u8(self as u8);
        assert(final(encoder)@ =~= old(encoder)@.append(self.encoding()));
    }
}

impl BinaryDecode for i8 {
    open spec fn decodes_to(b: Buffers, r: Result<Self, DecodeError>, rest: Buffers) -> bool {
        &&& rest == spec_take_u8(b).1
        &&& r == match spec_take_u8(b).0 {
            Ok(x) => Ok(x as i8),
            Err(e) => Err(e),
        }
    }

    fn decode(decoder: &mut DecodedData) -> (r: Result<Self, DecodeError>) {
        let x = decoder.take_u8()?;
        Ok(x as i8)
    }
}

impl WireRoundtrip for i8 {
    open spec fn fits_wire(&self) -> bool {
        true
    }

    proof fn lemma_roundtrip(v: Self, rest: Buffers) {
        assert(v.encoding().append(rest).u8s.drop_first() =~= rest.u8s);
        assert((v as u8) as i8 == v) by (bit_vector);
    }
}

impl BatchableResult for i8 {
    open spec fn spec_needs_flush() -> bool {
        true
    }

    fn needs_flush() -> bool {
        true
    }
}

impl EncodeTypeDef for i16 {
    open spec fn type_def() -> Seq<u8> {
        seq![tag_byte(TypeTag::I16)]
    }

    fn encode_type_def(buf: &mut Vec<u8>) {
        buf.push(TypeTag::I16.as_u8());
    }
}

impl BinaryEncode for i16 {
    open spec fn encoding(&self) -> Buffers {
        Buffers::empty().with_u16s(seq![*self as u16])
    }

    fn encode(self, encoder: &mut EncodedData) {
        encoder.push_u16(self as u16);
        assert(final(encoder)@ =~= old(encoder)@.append(self.encoding()));
    }
}

impl BinaryDecode for i16 {
    open spec fn decodes_to(b: Buffers, r: Result<Self, DecodeError>, rest: Buffers) -> bool {
        &&& rest == spec_take_u16(b).1
        &&& r == match spec_take_u16(b).0 {
            Ok(x) => Ok(x as i16),
            Err(e) => Err(e),
        }
    }

    fn decode(decoder: &mut DecodedData) -> (r: Result<Self, DecodeError>) {
        let x = decoder.take_u16()?;
        Ok(x as i16)
    }
}

impl WireRoundtrip for i16 {
    open spec fn fits_wire(&self) -> bool {
        true
    }

    proof fn lemma_roundtrip(v: Self, rest: Buffers) {
        assert(v.encoding().append(rest).u16s.drop_first() =~= rest.u16s);
        assert((v as u16) as i16 == v) by (bit_vector);
    }
}

impl BatchableResult for i16 {
    open spec fn spec_needs_flush() -> bool {
        true
    }

    fn needs_flush() -> bool {
        true
    }
}

impl EncodeTypeDef for i32 {
    open spec fn type_def() -> Seq<u8> {
        seq![tag_byte(TypeTag::I32)]
    }

    fn encode_type_def(buf: &mut Vec<u8>) {
        buf.push(TypeTag::I32.as_u8());
    }
}

impl BinaryEncode for i32 {
    open spec fn encoding(&self) -> Buffers {
        Buffers::empty().with_u32s(seq![*self as u32])
    }

    fn encode(self, encoder: &mut EncodedData) {
        encoder.push_u32(self as u32);
        assert(final(encoder)@ =~= old(encoder)@.append(self.encoding()));
    }
}

impl BinaryDecode for i32 {
    open spec fn decodes_to(b: Buffers, r: Result<Self, DecodeError>, rest: Buffers) -> bool {
        &&& rest == spec_take_u32(b).1
        &&& r == match spec_take_u32(b).0 {
            Ok(x) => Ok(x as i32),
            Err(e) => Err(e),
        }
    }

    fn decode(decoder: &mut DecodedData) -> (r: Result<Self, DecodeError>) {
        let x = decoder.take_u32()?;
        Ok(x as i32)
    }
}

impl WireRoundtrip for i32 {
    open spec fn fits_wire(&self) -> bool {
        true
    }

    proof fn lemma_roundtrip(v: Self, rest: Buffers) {
        assert(v.encoding().append(rest).u32s.drop_first() =~= rest.u32s);
        assert((v as u32) as i32 == v) by (bit_vector);
    }
}

impl BatchableResult for i32 {
    open spec fn spec_needs_flush() -> bool {
        true
    }

    fn needs_flush() -> bool {
        true
    }
}

impl EncodeTypeDef for i64 {
    open spec fn type_def() -> Seq<u8> {
        seq![tag_byte(TypeTag::I64)]
    }

    fn encode_type_def(buf: &mut Vec<u8>) {
        buf.push(TypeTag::I64.as_u8());
    }
}

impl BinaryEncode for i64 {
    open spec fn encoding(&self) -> Buffers {
        Buffers::empty().with_u32s(u64_halves(*self as u64))
    }

    fn encode(self, encoder: &mut EncodedData) {
        encoder.push_u64(self as u64);
        assert(final(encoder)@ =~= old(encoder)@.append(self.encoding()));
    }
}

impl BinaryDecode for i64 {
    open spec fn decodes_to(b: Buffers, r: Result<Self, DecodeError>, rest: Buffers) -> bool {
        &&& rest == spec_take_u64(b).1
        &&& r == match spec_take_u64(b).0 {
            Ok(x) => Ok(x as i64),
            Err(e) => Err(e),
        }
    }

    fn decode(decoder: &mut DecodedData) -> (r: Result<Self, DecodeError>) {
        let x = decoder.take_u64()?;
        Ok(x as i64)
    }
}

impl WireRoundtrip for i64 {
    open spec fn fits_wire(&self) -> bool {
        true
    }

    proof fn lemma_roundtrip(v: Self, rest: Buffers) {
        lemma_u64_halves_join(v as u64);
        assert(v.encoding().append(rest).u32s.subrange(2, v.encoding().append(rest).u32s.len() as int) =~= rest.u32s);
        assert((v as u64) as i64 == v) by (bit_vector);
    }
}

impl BatchableResult for i64 {
    open spec fn spec_needs_flush() -> bool {
        true
    }

    fn needs_flush() -> bool {
        true
    }
}

impl EncodeTypeDef for i128 {
    open spec fn type_def() -> Seq<u8> {
        seq![tag_byte(TypeTag::I128)]
    }

    fn encode_type_def(buf: &mut Vec<u8>) {
        buf.push(TypeTag::I128.as_u8());
    }
}

impl BinaryEncode for i128 {
    open spec fn encoding(&self) -> Buffers {
        Buffers::empty().with_u32s(u128_quarters(*self as u128))
    }

    fn encode(self, encoder: &mut EncodedData) {
        encoder.push_u128(self as u128);
        assert(final(encoder)@ =~= old(encoder)@.append(self.encoding()));
    }
}

impl BinaryDecode for i128 {
    open spec fn decodes_to(b: Buffers, r: Result<Self, DecodeError>, rest: Buffers) -> bool {
        &&& rest == spec_take_u128(b).1
        &&& r == match spec_take_u128(b).0 {
            Ok(x) => Ok(x as i128),
            Err(e) => Err(e),
        }
    }

    fn decode(decoder: &mut DecodedData) -> (r: Result<Self, DecodeError>) {
        let x = decoder.take_u128()?;
        Ok(x as i128)
    }
}

impl WireRoundtrip for i128 {
    open spec fn fits_wire(&self) -> bool {
        true
    }

    proof fn lemma_roundtrip(v: Self, rest: Buffers) {
        lemma_u128_quarters_join(v as u128);
        assert(v.encoding().append(rest).u32s.subrange(4, v.encoding().append(rest).u32s.len() as int) =~= rest.u32s);
        assert((v as u128) as i128 == v) by (bit_vector);
    }
}

impl BatchableResult for i128 {
    open spec fn spec_needs_flush() -> bool {
        true
    }

    fn needs_flush() -> bool {
        true
    }
}

impl EncodeTypeDef for usize {
    open spec fn type_def() -> Seq<u8> {
        seq![tag_byte(TypeTag::Usize)]
    }

    fn encode_type_def(buf: &mut Vec<u8>) {
        buf.push(TypeTag::Usize.as_u8());
    }
}

impl BinaryEncode for usize {
    open spec fn encoding(&self) -> Buffers {
        Buffers::empty().with_u32s(u64_halves(*self as u64))
    }

    fn encode(self, encoder: &mut EncodedData) {
        encoder.push_u64(self as u64);
        assert(final(encoder)@ =~= old(encoder)@.append(self.encoding()));
    }
}

impl BinaryDecode for usize {
    open spec fn decodes_to(b: Buffers, r: Result<Self, DecodeError>, rest: Buffers) -> bool {
        &&& rest == spec_take_u64(b).1
        &&& r == match spec_take_u64(b).0 {
            Ok(x) => Ok(x as usize),
            Err(e) => Err(e),
        }
    }

    fn decode(decoder: &mut DecodedData) -> (r: Result<Self, DecodeError>) {
        let x = decoder.take_u64()?;
        Ok(x as usize)
    }
}

impl WireRoundtrip for usize {
    open spec fn fits_wire(&self) -> bool {
        true
    }

    proof fn lemma_roundtrip(v: Self, rest: Buffers) {
        lemma_u64_halves_join(v as u64);
        assert(v.encoding().append(rest).u32s.subrange(2, v.encoding().append(rest).u32s.len() as int) =~= rest.u32s);
        assert((v as u64) as usize == v) by (bit_vector);
    }
}

impl BatchableResult for usize {
    open spec fn spec_needs_flush() -> bool {
        true
    }

    fn needs_flush() -> bool {
        true
    }
}

impl EncodeTypeDef for isize {
    open spec fn type_def() -> Seq<u8> {
        seq![tag_byte(TypeTag::Isize)]
    }

    fn encode_type_def(buf: &mut Vec<u8>) {
        buf.push(TypeTag::Isize.as_u8());
    }
}

impl BinaryEncode for isize {
    open spec fn encoding(&self) -> Buffers {
        Buffers::empty().with_u32s(u64_halves(*self as u64))
    }

    fn encode(self, encoder: &mut EncodedData) {
        encoder.push_u64(self as u64);
        assert(final(encoder)@ =~= old(encoder)@.append(self.encoding()));
    }
}

impl BinaryDecode for isize {
    open spec fn decodes_to(b: Buffers, r: Result<Self, DecodeError>, rest: Buffers) -> bool {
        &&& rest == spec_take_u64(b).1
        &&& r == match spec_take_u64(b).0 {
            Ok(x) => Ok(x as isize),
            Err(e) => Err(e),
        }
    }

    fn decode(decoder: &mut DecodedData) -> (r: Result<Self, DecodeError>) {
        let x = decoder.take_u64()?;
        Ok(x as isize)
    }
}

impl WireRoundtrip for isize {
    open spec fn fits_wire(&self) -> bool {
        true
    }

    proof fn lemma_roundtrip(v: Self, rest: Buffers) {
        lemma_u64_halves_join(v as u64);
        assert(v.encoding().append(rest).u32s.subrange(2, v.encoding().append(rest).u32s.len() as int) =~= rest.u32s);
        assert((v as u64) as isize == v) by (bit_vector);
    }
}

impl BatchableResult for isize {
    open spec fn spec_needs_flush() -> bool {
        true
    }

    fn needs_flush() -> bool {
        true
    }
}

// String/str implementations

impl EncodeTypeDef for String {
    open spec fn type_def() -> Seq<u8> {
        seq![tag_byte(TypeTag::String)]
    }

    fn encode_type_def(buf: &mut Vec<u8>) {
        buf.push(TypeTag::String.as_u8());
    }
}

impl<'a> EncodeTypeDef for &'a str {
    open spec fn type_def() -> Seq<u8> {
        seq![tag_byte(TypeTag::String)]
    }

    fn encode_type_def(buf: &mut Vec<u8>) {
        buf.push(TypeTag::String.as_u8());
    }
}

/// The encoding of a string with the given characters: its UTF-8 byte length in the
/// u32 buffer, its UTF-8 bytes in the string buffer.
pub open spec fn str_encoding(chars: Seq<char>) -> Buffers {
    Buffers::empty().with_u32s(seq![encode_utf8(chars).len() as u32]).with_strs(encode_utf8(chars))
}

impl<'a> BinaryEncode for &'a str {
    open spec fn encoding(&self) -> Buffers {
        str_encoding(self@)
    }

    fn encode(self, encoder: &mut EncodedData) {
        encoder.push_str(self);
        assert(final(encoder)@ =~= old(encoder)@.append(self.encoding()));
    }
}

impl BinaryEncode for String {
    open spec fn encoding(&self) -> Buffers {
        str_encoding(self@)
    }

    fn encode(self, encoder: &mut EncodedData) {
        encoder.push_str(self.as_str());
        assert(final(encoder)@ =~= old(encoder)@.append(self.encoding()));
    }
}

impl BinaryDecode for String {
    open spec fn decodes_to(b: Buffers, r: Result<Self, DecodeError>, rest: Buffers) -> bool {
        &&& rest == spec_take_str(b).1
        &&& match r {
            Ok(s) => spec_take_str(b).0 == Ok::<Seq<char>, DecodeError>(s@),
            Err(e) => spec_take_str(b).0 == Err::<Seq<char>, DecodeError>(e),
        }
    }

    fn decode(decoder: &mut DecodedData) -> (r: Result<Self, DecodeError>) {
        let s = decoder.take_str()?;
        Ok(s.to_owned())
    }
}

impl WireRoundtrip for String {
    open spec fn fits_wire(&self) -> bool {
        encode_utf8(self@).len() <= u32::MAX
    }

    proof fn lemma_roundtrip(v: Self, rest: Buffers) {
        let bytes = encode_utf8(v@);
        let b = v.encoding().append(rest);
        encode_utf8_valid_utf8(v@);
        encode_utf8_decode_utf8(v@);
        assert(b.u32s[0] == bytes.len());
        assert(b.strs.take(bytes.len() as int) =~= bytes);
        assert(b.strs.subrange(bytes.len() as int, b.strs.len() as int) =~= rest.strs);
        assert(b.u32s.drop_first() =~= rest.u32s);
    }
}

impl BatchableResult for String {
    open spec fn spec_needs_flush() -> bool {
        true
    }

    fn needs_flush() -> bool {
        true
    }
}

// Option implementations

impl<T: EncodeTypeDef> EncodeTypeDef for Option<T> {
    open spec fn type_def() -> Seq<u8> {
        seq![tag_byte(TypeTag::Option)] + T::type_def()
    }

    fn encode_type_def(buf: &mut Vec<u8>) {
        // Option encodes as: [Option tag] [inner type]
        buf.push(TypeTag::Option.as_u8());
        T::encode_type_def(buf);
        assert(final(buf)@ =~= old(buf)@ + Self::type_def());
    }
}

impl<T: BinaryEncode> BinaryEncode for Option<T> {
    open spec fn encoding(&self) -> Buffers {
        match self {
            Some(v) => Buffers::empty().with_u8s(seq![1u8]).append(v.encoding()),
            None => Buffers::empty().with_u8s(seq![0u8]),
        }
    }

    fn encode(self, encoder: &mut EncodedData) {
        match self {
            Some(val) => {
                let ghost e = val.encoding();
                encoder.push_u8(1);
                val.encode(encoder);
                assert(final(encoder)@ =~= old(encoder)@.append(Buffers::empty().with_u8s(seq![1u8]).append(e)));
            },
            None => {
                encoder.push_u8(0);
                assert(final(encoder)@ =~= old(encoder)@.append(self.encoding()));
            },
        }
    }
}

impl<T: BinaryDecode> BinaryDecode for Option<T> {
    open spec fn decodes_to(b: Buffers, r: Result<Self, DecodeError>, rest: Buffers) -> bool {
        if b.u8s.len() == 0 {
            r == Err::<Option<T>, DecodeError>(DecodeError::U8BufferEmpty) && rest == b
        } else {
            let b1 = b.with_u8s(b.u8s.drop_first());
            if b.u8s[0] != 0 {
                match r {
                    Ok(Some(x)) => T::decodes_to(b1, Ok(x), rest),
                    Ok(None) => false,
                    Err(e) => T::decodes_to(b1, Err(e), rest),
                }
            } else {
                r == Ok::<Option<T>, DecodeError>(None) && rest == b1
            }
        }
    }

    fn decode(decoder: &mut DecodedData) -> (r: Result<Self, DecodeError>) {
        let flag = decoder.take_u8()?;
        if flag != 0 {
            match T::decode(decoder) {
                Ok(v) => Ok(Some(v)),
                Err(e) => Err(e),
            }
        } else {
            Ok(None)
        }
    }
}

impl<T: WireRoundtrip> WireRoundtrip for Option<T> {
    open spec fn fits_wire(&self) -> bool {
        match self {
            Some(v) => v.fits_wire(),
            None => true,
        }
    }

    proof fn lemma_roundtrip(v: Self, rest: Buffers) {
        let b = v.encoding().append(rest);
        match v {
            Some(x) => {
                T::lemma_roundtrip(x, rest);
                assert(b.with_u8s(b.u8s.drop_first()) =~= x.encoding().append(rest));
            },
            None => {
                assert(b.with_u8s(b.u8s.drop_first()) =~= rest);
            },
        }
    }
}

impl<T> BatchableResult for Option<T> {
    open spec fn spec_needs_flush() -> bool {
        // We need to read the response to know if it's Some or None
        true
    }

    fn needs_flush() -> bool {
        true
    }
}

// Result implementations

impl<T: EncodeTypeDef, E: EncodeTypeDef> EncodeTypeDef for Result<T, E> {
    open spec fn type_def() -> Seq<u8> {
        seq![tag_byte(TypeTag::Result)] + T::type_def() + E::type_def()
    }

    fn encode_type_def(buf: &mut Vec<u8>) {
        // Result encodes as: [Result tag] [ok type] [err type]
        buf.push(TypeTag::Result.as_u8());
        T::encode_type_def(buf);
        E::encode_type_def(buf);
        assert(final(buf)@ =~= old(buf)@ + Self::type_def());
    }
}

impl<T: BinaryDecode, E: BinaryDecode> BinaryDecode for Result<T, E> {
    open spec fn decodes_to(b: Buffers, r: Result<Self, DecodeError>, rest: Buffers) -> bool {
        if b.u8s.len() == 0 {
            r == Err::<Result<T, E>, DecodeError>(DecodeError::U8BufferEmpty) && rest == b
        } else {
            let b1 = b.with_u8s(b.u8s.drop_first());
            if b.u8s[0] != 0 {
                match r {
                    Ok(Ok(x)) => T::decodes_to(b1, Ok(x), rest),
                    Ok(Err(_)) => false,
                    Err(e) => T::decodes_to(b1, Err(e), rest),
                }
            } else {
                match r {
                    Ok(Err(x)) => E::decodes_to(b1, Ok(x), rest),
                    Ok(Ok(_)) => false,
                    Err(e) => E::decodes_to(b1, Err(e), rest),
                }
            }
        }
    }

    fn decode(decoder: &mut DecodedData) -> (r: Result<Self, DecodeError>) {
        let flag = decoder.take_u8()?;
        if flag != 0 {
            match T::decode(decoder) {
                Ok(v) => Ok(Ok(v)),
                Err(e) => Err(e),
            }
        } else {
            match E::decode(decoder) {
                Ok(v) => Ok(Err(v)),
                Err(e) => Err(e),
            }
        }
    }
}

impl<T, E> BatchableResult for Result<T, E> {
    open spec fn spec_needs_flush() -> bool {
        // We need to read the response to know if it's Ok or Err
        true
    }

    fn needs_flush() -> bool {
        true
    }
}

// JsValue implementations

impl EncodeTypeDef for JsValue {
    open spec fn type_def() -> Seq<u8> {
        seq![tag_byte(TypeTag::HeapRef)]
    }

    fn encode_type_def(buf: &mut Vec<u8>) {
        buf.push(TypeTag::HeapRef.as_u8());
    }
}

impl BinaryEncode for JsValue {
    open spec fn encoding(&self) -> Buffers {
        Buffers::empty().with_u32s(u64_halves(self.spec_id()))
    }

    fn encode(self, encoder: &mut EncodedData) {
        encoder.push_u64(self.id());
        assert(final(encoder)@ =~= old(encoder)@.append(self.encoding()));
    }
}

// When encoding JsValue references, encode the underlying ID
impl<'a> BinaryEncode for &'a JsValue {
    open spec fn encoding(&self) -> Buffers {
        Buffers::empty().with_u32s(u64_halves(self.spec_id()))
    }

    fn encode(self, encoder: &mut EncodedData) {
        encoder.push_u64(self.id());
        assert(final(encoder)@ =~= old(encoder)@.append(self.encoding()));
    }
}

impl BatchableResult for JsValue {
    open spec fn spec_needs_flush() -> bool {
        false
    }

    fn needs_flush() -> bool {
        false
    }
}

impl PlaceholderResult for JsValue {
    proof fn lemma_no_flush() {
    }

    /// The placeholder is the value at the next heap id, which is then allocated.
    open spec fn is_placeholder(before: BatchView, after: BatchView, r: Self) -> bool {
        &&& r.spec_id() == before.next_heap_id()
        &&& after == before.after_heap_alloc()
    }

    fn batched_placeholder(batch: &mut BatchState) -> Self {
        JsValue::from_id(batch.get_next_heap_id())
    }
}

/// Wrapper type that encodes a callback registration key with Callback type info.
/// The type parameter F names the callback signature.
pub struct CallbackKey<F>(pub u64, pub core::marker::PhantomData<F>);

impl<F> BinaryEncode for CallbackKey<F> {
    open spec fn encoding(&self) -> Buffers {
        Buffers::empty().with_u32s(u64_halves(self.0))
    }

    fn encode(self, encoder: &mut EncodedData) {
        encoder.push_u64(self.0);
        assert(final(encoder)@ =~= old(encoder)@.append(self.encoding()));
    }
}

/// Marker type for closures that borrow the first argument.
pub struct BorrowedFirstArg;

// Closure implementations: closures travel as the JavaScript value of their function.

impl<T: ?Sized> EncodeTypeDef for Closure<T> {
    open spec fn type_def() -> Seq<u8> {
        seq![tag_byte(TypeTag::HeapRef)]
    }

    fn encode_type_def(buf: &mut Vec<u8>) {
        JsValue::encode_type_def(buf);
    }
}

impl<T: ?Sized> BinaryEncode for Closure<T> {
    open spec fn encoding(&self) -> Buffers {
        self.spec_value().encoding()
    }

    fn encode(self, encoder: &mut EncodedData) {
        self.into_js_value().encode(encoder);
    }
}

impl<'a, T: ?Sized> BinaryEncode for &'a Closure<T> {
    open spec fn encoding(&self) -> Buffers {
        self.spec_value().encoding()
    }

    fn encode(self, encoder: &mut EncodedData) {
        self.as_js_value().encode(encoder);
    }
}

impl<T: ?Sized> BatchableResult for Closure<T> {
    open spec fn spec_needs_flush() -> bool {
        false
    }

    fn needs_flush() -> bool {
        false
    }
}

impl<T: ?Sized> PlaceholderResult for Closure<T> {
    proof fn lemma_no_flush() {
    }

    open spec fn is_placeholder(before: BatchView, after: BatchView, r: Self) -> bool {
        JsValue::is_placeholder(before, after, r.spec_value())
    }

    fn batched_placeholder(batch: &mut BatchState) -> Self {
        Closure::from_js_value(JsValue::batched_placeholder(batch))
    }
}

// Vec implementations

/// The encodings of the items of `s`, one after the other.
pub open spec fn encode_items<T: BinaryEncode>(s: Seq<T>) -> Buffers
    decreases s.len(),
{
    if s.len() == 0 {
        Buffers::empty()
    } else {
        encode_items(s.drop_last()).append(s.last().encoding())
    }
}

/// `trace` lists the states of the buffers while `items` are decoded one after the
/// other from `b`: each item is what decoding from one state gives, leaving the next.
pub open spec fn items_trace<T: BinaryDecode>(b: Buffers, items: Seq<T>, trace: Seq<Buffers>) -> bool {
    &&& trace.len() == items.len() + 1
    &&& trace[0] == b
    &&& forall|i: int|
        #![trigger items[i]]
        0 <= i < items.len() ==> T::decodes_to(trace[i], Ok(items[i]), trace[i + 1])
}

/// Decoding `n` items from `b` gives `r` and leaves `rest`; the first failure ends the decoding.
pub open spec fn decodes_items<T: BinaryDecode>(
    n: nat,
    b: Buffers,
    r: Result<Seq<T>, DecodeError>,
    rest: Buffers,
) -> bool {
    match r {
        Ok(s) => s.len() == n && exists|trace: Seq<Buffers>|
            #[trigger] items_trace(b, s, trace) && trace.last() == rest,
        Err(e) => exists|items: Seq<T>, trace: Seq<Buffers>|
            #[trigger] items_trace(b, items, trace) && items.len() < n && T::decodes_to(
                trace.last(),
                Err(e),
                rest,
            ),
    }
}

impl<T: EncodeTypeDef> EncodeTypeDef for Vec<T> {
    open spec fn type_def() -> Seq<u8> {
        seq![tag_byte(TypeTag::Array)] + T::type_def()
    }

    fn encode_type_def(buf: &mut Vec<u8>) {
        // Array type tag followed by element type
        buf.push(TypeTag::Array.as_u8());
        T::encode_type_def(buf);
        assert(final(buf)@ =~= old(buf)@ + Self::type_def());
    }
}

impl<T: BinaryEncode> BinaryEncode for Vec<T> {
    open spec fn encoding(&self) -> Buffers {
        Buffers::empty().with_u32s(seq![self@.len() as u32]).append(encode_items(self@))
    }

    fn encode(self, encoder: &mut EncodedData) {
        let ghost items = self@;
        let n = self.len();
        encoder.push_u32(n as u32);
        let ghost base = encoder@;
        // Reverse the items so that popping hands them out first to last.
        let mut src = self;
        let mut rev: Vec<T> = Vec::new();
        while src.len() > 0
            invariant
                src@ == items.take(src@.len() as int),
                rev@.len() + src@.len() == items.len(),
                forall|i: int| 0 <= i < rev@.len() ==> #[trigger] rev@[i] == items[items.len() - 1 - i],
            decreases src@.len(),
        {
            let v = src.pop().unwrap();
            rev.push(v);
            assert(src@ =~= items.take(src@.len() as int));
        }
        assert(encode_items(items.take(0)) =~= Buffers::empty());
        assert(base.append(Buffers::empty()) =~= base);
        while rev.len() > 0
            invariant
                rev@.len() <= items.len(),
                forall|i: int| 0 <= i < rev@.len() ==> #[trigger] rev@[i] == items[items.len() - 1 - i],
                encoder@ == base.append(encode_items(items.take(items.len() - rev@.len()))),
            decreases rev@.len(),
        {
            let ghost k = items.len() - rev@.len();
            let ghost before = encoder@;
            let v = rev.pop().unwrap();
            assert(v == items[k]);
            v.encode(encoder);
            assert(items.take(k + 1).drop_last() =~= items.take(k));
            assert(encoder@ =~= base.append(encode_items(items.take(k + 1))));
        }
        assert(items.take(items.len() as int) =~= items);
        assert(encoder@ =~= old(encoder)@.append(self.encoding()));
    }
}

impl<T: BinaryDecode> BinaryDecode for Vec<T> {
    open spec fn decodes_to(b: Buffers, r: Result<Self, DecodeError>, rest: Buffers) -> bool {
        let (len, b1) = spec_take_u32(b);
        match len {
            Err(e) => r == Err::<Vec<T>, DecodeError>(e) && rest == b1,
            Ok(n) => match r {
                Ok(v) => decodes_items::<T>(n as nat, b1, Ok(v@), rest),
                Err(e) => decodes_items::<T>(n as nat, b1, Err(e), rest),
            },
        }
    }

    fn decode(decoder: &mut DecodedData) -> (r: Result<Self, DecodeError>) {
        let len = decoder.take_u32()?;
        let ghost b1 = decoder@;
        let mut vec: Vec<T> = Vec::new();
        let ghost mut trace: Seq<Buffers> = seq![b1];
        let mut i: u32 = 0;
        assert(items_trace(b1, vec@, trace));
        while i < len
            invariant
                i <= len,
                spec_take_u32(old(decoder)@) == (Ok::<u32, DecodeError>(len), b1),
                vec@.len() == i,
                items_trace(b1, vec@, trace),
                trace.last() == decoder@,
            decreases len - i,
        {
            let ghost prev = decoder@;
            match T::decode(decoder) {
                Ok(v) => {
                    let ghost old_items = vec@;
                    let ghost old_trace = trace;
                    vec.push(v);
                    proof {
                        trace = trace.push(decoder@);
                        assert forall|k: int| 0 <= k < vec@.len() implies T::decodes_to(trace[k], Ok(#[trigger] vec@[k]), trace[k + 1]) by {
                            if k < old_items.len() {
                                assert(old_items[k] == vec@[k]);
                                assert(trace[k] == old_trace[k] && trace[k + 1] == old_trace[k + 1]);
                            }
                        }
                    }
                },
                Err(e) => {
                    assert(items_trace(b1, vec@, trace));
                    assert(decodes_items::<T>(len as nat, b1, Err(e), decoder@));
                    return Err(e);
                },
            }
            i = i + 1;
        }
        assert(exists|t: Seq<Buffers>| #[trigger] items_trace(b1, vec@, t) && t.last() == decoder@);
        assert(decodes_items::<T>(len as nat, b1, Ok(vec@), decoder@));
        Ok(vec)
    }
}

/// Appending buffers is associative.
pub proof fn lemma_append_assoc(a: Buffers, b: Buffers, c: Buffers)
    ensures
        a.append(b).append(c) == a.append(b.append(c)),
{
    assert(a.append(b).append(c) =~= a.append(b.append(c)));
}

/// The encodings of items start with that of the first item.
pub proof fn lemma_encode_items_first<T: BinaryEncode>(s: Seq<T>)
    requires
        s.len() > 0,
    ensures
        encode_items(s) == s[0].encoding().append(encode_items(s.drop_first())),
    decreases s.len(),
{
    if s.len() == 1 {
        assert(s.drop_last() =~= Seq::<T>::empty());
        assert(s.drop_first() =~= Seq::<T>::empty());
        assert(Buffers::empty().append(s[0].encoding()) =~= s[0].encoding());
        assert(s[0].encoding().append(Buffers::empty()) =~= s[0].encoding());
    } else {
        let p = s.drop_last();
        lemma_encode_items_first(p);
        assert(p.drop_first() =~= s.drop_first().drop_last());
        assert(s.drop_first().last() == s.last());
        lemma_append_assoc(
            s[0].encoding(),
            encode_items(p.drop_first()),
            s.last().encoding(),
        );
    }
}

/// A vector reads back as itself when it and its items fit the wire.
impl<T: WireRoundtrip> WireRoundtrip for Vec<T> {
    open spec fn fits_wire(&self) -> bool {
        &&& self@.len() <= u32::MAX
        &&& forall|i: int| 0 <= i < self@.len() ==> #[trigger] self@[i].fits_wire()
    }

    proof fn lemma_roundtrip(v: Self, rest: Buffers) {
        let items = v@;
        let n = items.len();
        let b = v.encoding().append(rest);
        let b1 = encode_items(items).append(rest);
        assert(b.u32s[0] == n as u32);
        assert(b.with_u32s(b.u32s.drop_first()) =~= b1);
        let trace = Seq::new(n + 1, |i: int| encode_items(items.skip(i)).append(rest));
        assert(items.skip(0) =~= items);
        assert(items.skip(n as int) =~= Seq::<T>::empty());
        assert(Buffers::empty().append(rest) =~= rest);
        assert forall|i: int| 0 <= i < n implies T::decodes_to(
            trace[i],
            Ok(#[trigger] items[i]),
            trace[i + 1],
        ) by {
            lemma_encode_items_first(items.skip(i));
            assert(items.skip(i)[0] == items[i]);
            assert(items.skip(i).drop_first() =~= items.skip(i + 1));
            T::lemma_roundtrip(items[i], encode_items(items.skip(i + 1)).append(rest));
            lemma_append_assoc(items[i].encoding(), encode_items(items.skip(i + 1)), rest);
        }
        assert(items_trace(b1, items, trace));
        assert(trace.last() == rest);
    }
}

impl<T> BatchableResult for Vec<T> {
    open spec fn spec_needs_flush() -> bool {
        true
    }

    fn needs_flush() -> bool {
        true
    }
}

// Clamped<T> implementations

impl EncodeTypeDef for Clamped<Vec<u8>> {
    open spec fn type_def() -> Seq<u8> {
        seq![tag_byte(TypeTag::U8Clamped)]
    }

    fn encode_type_def(buf: &mut Vec<u8>) {
        buf.push(TypeTag::U8Clamped.as_u8());
    }
}

/// The encoding of a clamped byte array: its length, then its bytes in the u8 buffer.
pub open spec fn clamped_encoding(bytes: Seq<u8>) -> Buffers {
    Buffers::empty().with_u32s(seq![bytes.len() as u32]).with_u8s(bytes)
}

impl BinaryEncode for Clamped<Vec<u8>> {
    open spec fn encoding(&self) -> Buffers {
        clamped_encoding(self.0@)
    }

    fn encode(self, encoder: &mut EncodedData) {
        encode_clamped(self.0.as_slice(), encoder);
    }
}

impl<'a> BinaryEncode for Clamped<&'a [u8]> {
    open spec fn encoding(&self) -> Buffers {
        clamped_encoding(self.0@)
    }

    fn encode(self, encoder: &mut EncodedData) {
        encode_clamped(self.0, encoder);
    }
}

fn encode_clamped(bytes: &[u8], encoder: &mut EncodedData)
    ensures
        final(encoder)@ == old(encoder)@.append(clamped_encoding(bytes@)),
{
    encoder.push_u32(bytes.len() as u32);
    let mut i: usize = 0;
    while i < bytes.len()
        invariant
            i <= bytes@.len(),
            encoder@ == old(encoder)@.with_u32s(old(encoder)@.u32s.push(bytes@.len() as u32)).with_u8s(
                old(encoder)@.u8s + bytes@.take(i as int),
            ),
        decreases bytes@.len() - i,
    {
        encoder.push_u8(bytes[i]);
        i = i + 1;
        assert(encoder@.u8s =~= old(encoder)@.u8s + bytes@.take(i as int));
    }
    assert(bytes@.take(i as int) =~= bytes@);
    assert(encoder@ =~= old(encoder)@.append(clamped_encoding(bytes@)));
}

impl BinaryDecode for Clamped<Vec<u8>> {
    open spec fn decodes_to(b: Buffers, r: Result<Self, DecodeError>, rest: Buffers) -> bool {
        let (len, b1) = spec_take_u32(b);
        match len {
            Err(e) => r == Err::<Clamped<Vec<u8>>, DecodeError>(e) && rest == b1,
            Ok(n) => if n <= b1.u8s.len() {
                &&& r matches Ok(c) && c.0@ == b1.u8s.take(n as int)
                &&& rest == b1.with_u8s(b1.u8s.subrange(n as int, b1.u8s.len() as int))
            } else {
                &&& r == Err::<Clamped<Vec<u8>>, DecodeError>(DecodeError::U8BufferEmpty)
                &&& rest == b1.with_u8s(Seq::empty())
            },
        }
    }

    fn decode(decoder: &mut DecodedData) -> (r: Result<Self, DecodeError>) {
        let len = decoder.take_u32()?;
        let ghost b1 = decoder@;
        let mut vec: Vec<u8> = Vec::new();
        let mut i: u32 = 0;
        while i < len
            invariant
                i <= len,
                spec_take_u32(old(decoder)@) == (Ok::<u32, DecodeError>(len), b1),
                i <= b1.u8s.len(),
                vec@ == b1.u8s.take(i as int),
                decoder@ == b1.with_u8s(b1.u8s.subrange(i as int, b1.u8s.len() as int)),
            decreases len - i,
        {
            match decoder.take_u8() {
                Ok(x) => {
                    vec.push(x);
                    assert(vec@ =~= b1.u8s.take(i + 1));
                    assert(decoder@ =~= b1.with_u8s(b1.u8s.subrange(i + 1, b1.u8s.len() as int)));
                },
                Err(e) => {
                    assert(b1.u8s.len() == i);
                    assert(decoder@ =~= b1.with_u8s(Seq::empty()));
                    assert(e == DecodeError::U8BufferEmpty);
                    assert(len > b1.u8s.len());
                    return Err(e);
                },
            }
            i = i + 1;
        }
        Ok(Clamped(vec))
    }
}

impl WireRoundtrip for Clamped<Vec<u8>> {
    open spec fn fits_wire(&self) -> bool {
        self.0@.len() <= u32::MAX
    }

    proof fn lemma_roundtrip(v: Self, rest: Buffers) {
        let b = v.encoding().append(rest);
        let b1 = b.with_u32s(b.u32s.drop_first());
        assert(b.u32s[0] == v.0@.len());
        assert(b1.u8s.take(v.0@.len() as int) =~= v.0@);
        assert(b1.with_u8s(b1.u8s.subrange(v.0@.len() as int, b1.u8s.len() as int)) =~= rest);
    }
}

impl BatchableResult for Clamped<Vec<u8>> {
    open spec fn spec_needs_flush() -> bool {
        true
    }

    fn needs_flush() -> bool {
        true
    }
}

/// On the wire an `Option` starts with the flag byte that JavaScript reads: `1` for
/// `Some`, followed by the value's encoding, and `0` alone for `None`.
pub proof fn lemma_option_flag_written<T: BinaryEncode>(v: Option<T>)
    ensures
        v.encoding().u8s.len() >= 1,
        v is Some ==> v.encoding().u8s[0] == 1u8,
        v is None ==> v.encoding().u8s == seq![0u8],
        v is None ==> v.encoding().u16s.len() == 0 && v.encoding().u32s.len() == 0
            && v.encoding().strs.len() == 0,
        v matches Some(x) ==> v.encoding().u8s.drop_first() == x.encoding().u8s
            && v.encoding().u16s == x.encoding().u16s && v.encoding().u32s == x.encoding().u32s
            && v.encoding().strs == x.encoding().strs,
{
    match v {
        Some(x) => {
            assert(v.encoding().u8s.drop_first() =~= x.encoding().u8s);
            assert(v.encoding().u16s =~= x.encoding().u16s);
            assert(v.encoding().u32s =~= x.encoding().u32s);
            assert(v.encoding().strs =~= x.encoding().strs);
        },
        None => {},
    }
}

/// Reading an `Option` reads the flag byte JavaScript wrote: a `0` flag gives `None`,
/// and only a nonzero flag gives `Some`.
pub proof fn lemma_option_flag_read<T: BinaryDecode>(
    b: Buffers,
    r: Result<Option<T>, DecodeError>,
    rest: Buffers,
)
    requires
        Option::<T>::decodes_to(b, r, rest),
    ensures
        r matches Ok(None) ==> b.u8s.len() > 0 && b.u8s[0] == 0,
        r matches Ok(Some(x)) ==> b.u8s.len() > 0 && b.u8s[0] != 0,
        b.u8s.len() > 0 && b.u8s[0] == 0 ==> r == Ok::<Option<T>, DecodeError>(None),
{
}

/// Reading a `Result` reads the flag byte JavaScript wrote: a nonzero flag gives `Ok`,
/// a `0` flag gives `Err`.
pub proof fn lemma_result_flag_read<T: BinaryDecode, E: BinaryDecode>(
    b: Buffers,
    r: Result<Result<T, E>, DecodeError>,
    rest: Buffers,
)
    requires
        Result::<T, E>::decodes_to(b, r, rest),
    ensures
        r matches Ok(Ok(x)) ==> b.u8s.len() > 0 && b.u8s[0] != 0,
        r matches Ok(Err(x)) ==> b.u8s.len() > 0 && b.u8s[0] == 0,
        b.u8s.len() == 0 ==> r == Err::<Result<T, E>, DecodeError>(DecodeError::U8BufferEmpty),
{
}

/// A `bool` travels as one byte of the u8 buffer, `1` for true and `0` for false, and
/// reads back as true exactly when that byte is nonzero.
pub proof fn lemma_bool_wire(v: bool, b: Buffers, r: Result<bool, DecodeError>, rest: Buffers)
    ensures
        v.encoding().u8s == seq![if v { 1u8 } else { 0u8 }],
        v.encoding().u16s.len() == 0 && v.encoding().u32s.len() == 0 && v.encoding().strs.len()
            == 0,
        bool::decodes_to(b, r, rest) && b.u8s.len() > 0 ==> r == Ok::<bool, DecodeError>(
            b.u8s[0] != 0,
        ) && rest.u8s == b.u8s.drop_first(),
{
}

/// A string travels as its UTF-8 byte length in the u32 buffer and its UTF-8 bytes in
/// the string buffer, nothing else.
pub proof fn lemma_string_wire(s: String)
    ensures
        s.encoding().u32s == seq![encode_utf8(s@).len() as u32],
        s.encoding().strs == encode_utf8(s@),
        s.encoding().u8s.len() == 0 && s.encoding().u16s.len() == 0,
{
}

/// A vector travels as its length in the u32 buffer, then its items one after the
/// other; a vector of u32 values puts them in the u32 buffer after the length, in order.
pub proof fn lemma_vec_wire<T: BinaryEncode>(v: Vec<T>)
    ensures
        v.encoding().u32s.len() >= 1,
        v.encoding().u32s[0] == v@.len() as u32,
        v.encoding() == Buffers::empty().with_u32s(seq![v@.len() as u32]).append(
            encode_items(v@),
        ),
{
}

/// The items of a list of u32 values fill the u32 buffer in order, and nothing else.
pub proof fn lemma_u32_items_wire(s: Seq<u32>)
    ensures
        encode_items(s) == Buffers::empty().with_u32s(s),
    decreases s.len(),
{
    if s.len() > 0 {
        lemma_u32_items_wire(s.drop_last());
        assert(Buffers::empty().with_u32s(s.drop_last()).append(s.last().encoding())
            =~= Buffers::empty().with_u32s(s));
    }
}

/// A u64 (and a heap reference, by its id) travels as two u32 values, the low half
/// first: their weighted sum is the value.
pub proof fn lemma_u64_wire(v: u64)
    ensures
        v.encoding().u32s.len() == 2,
        v.encoding().u32s[0] + v.encoding().u32s[1] * 0x1_0000_0000 == v,
        v.encoding().u8s.len() == 0 && v.encoding().u16s.len() == 0 && v.encoding().strs.len()
            == 0,
{
    assert(v % 0x1_0000_0000 + (v / 0x1_0000_0000) * 0x1_0000_0000 == v) by (nonlinear_arith);
}

/// Reading a u64 takes two u32 values, the low half first: the value is the first plus
/// the second times 2^32.
pub proof fn lemma_u64_read(b: Buffers, x: u64, rest: Buffers)
    requires
        u64::decodes_to(b, Ok(x), rest),
    ensures
        b.u32s.len() >= 2,
        x == b.u32s[0] + b.u32s[1] * 0x1_0000_0000,
        rest.u32s == b.u32s.subrange(2, b.u32s.len() as int),
{
    let lo = b.u32s[0];
    let hi = b.u32s[1];
    assert(hi * 0x1_0000_0000 + lo <= u64::MAX) by (nonlinear_arith)
        requires
            hi <= u32::MAX,
            lo <= u32::MAX,
    ;
}

/// Reading a string takes its byte length from the u32 buffer and that many bytes of the
/// string buffer, which are the UTF-8 encoding of the string read.
pub proof fn lemma_string_read(b: Buffers, s: String, rest: Buffers)
    requires
        String::decodes_to(b, Ok(s), rest),
    ensures
        b.u32s.len() >= 1,
        b.u32s[0] <= b.strs.len(),
        encode_utf8(s@) == b.strs.take(b.u32s[0] as int),
        rest.u32s == b.u32s.drop_first(),
        rest.strs == b.strs.skip(b.u32s[0] as int),
{
    let bytes = b.strs.take(b.u32s[0] as int);
    decode_utf8_encode_utf8(bytes);
    assert(b.strs.subrange(b.u32s[0] as int, b.strs.len() as int) =~= b.strs.skip(b.u32s[0] as int));
}

} // verus!
