//! Conversion traits for wasm-bindgen API compatibility.
//!
//! These traits provide compatibility with code that uses wasm-bindgen's
//! low-level ABI conversion types. Heap indices stand for JsValue references.

use vstd::prelude::*;
use crate::batch::BatchState;
use crate::cast::JsCast;
use crate::ipc::{DecodeError, DecodedData};
use crate::value::JsValue;

verus! {

/// Trait for converting a Rust type to its ABI representation.
pub trait IntoWasmAbi {
    /// The ABI type that this converts into.
    type Abi;

    /// The ABI representation of this value.
    spec fn spec_abi(&self) -> Self::Abi;

    /// Convert this value into its ABI representation.
    fn into_abi(self) -> (r: Self::Abi)
        ensures
            r == self.spec_abi(),
    ;
}

/// Trait for converting from an ABI representation to a Rust type.
pub trait FromWasmAbi: Sized {
    /// The ABI type that this converts from.
    type Abi;

    /// The value that an ABI representation stands for.
    spec fn spec_from_abi(js: Self::Abi) -> Self;

    /// Convert from the ABI representation to this type.
    fn from_abi(js: Self::Abi) -> (r: Self)
        ensures
            r == Self::spec_from_abi(js),
    ;
}

// JsValue uses u32 as its ABI type for wasm-bindgen compatibility
// (the heap index, truncated to 32 bits).
impl IntoWasmAbi for JsValue {
    type Abi = u32;

    open spec fn spec_abi(&self) -> u32 {
        self.spec_id() as u32
    }

    fn into_abi(self) -> u32 {
        JsValue::into_abi(self)
    }
}

impl FromWasmAbi for JsValue {
    type Abi = u32;

    open spec fn spec_from_abi(js: u32) -> JsValue {
        JsValue::spec_from_id(js as u64)
    }

    fn from_abi(js: u32) -> JsValue {
        JsValue::from_id(js as u64)
    }
}

/// Trait for recovering a shared reference from the ABI boundary.
///
/// This is the shared reference variant of `FromWasmAbi`; the anchor holds the
/// value for the duration of one call.
pub trait RefFromWasmAbi {
    /// The ABI type that references to `Self` are recovered from.
    type Abi;

    /// The type that holds the reference to `Self` for the duration of the invocation.
    type Anchor;

    /// The anchor that an ABI representation gives.
    spec fn spec_ref_from_abi(js: Self::Abi) -> Self::Anchor;

    /// Recover a `Self::Anchor` from `Self::Abi`.
    fn ref_from_abi(js: Self::Abi) -> (r: Self::Anchor)
        ensures
            r == Self::spec_ref_from_abi(js),
    ;
}

impl RefFromWasmAbi for JsValue {
    type Abi = u32;

    type Anchor = JsValue;

    open spec fn spec_ref_from_abi(js: u32) -> JsValue {
        JsValue::spec_from_id(js as u64)
    }

    fn ref_from_abi(js: u32) -> JsValue {
        JsValue::from_id(js as u64)
    }
}

// Implement for reference types
impl<'a> IntoWasmAbi for &'a JsValue {
    type Abi = u32;

    open spec fn spec_abi(&self) -> u32 {
        self.spec_id() as u32
    }

    fn into_abi(self) -> u32 {
        self.id() as u32
    }
}

// Implement for Option<JsValue>: 0 stands for None.
impl IntoWasmAbi for Option<JsValue> {
    type Abi = u32;

    open spec fn spec_abi(&self) -> u32 {
        match self {
            Some(v) => v.spec_id() as u32,
            None => 0,
        }
    }

    fn into_abi(self) -> u32 {
        match self {
            Some(val) => val.into_abi(),
            None => 0,
        }
    }
}

/// Trait for types that can be decoded as references from binary data.
///
/// The `Anchor` type holds the decoded value and keeps the reference valid
/// during callback invocation.
pub trait RefFromBinaryDecode {
    /// The anchor type that keeps the decoded reference valid.
    type Anchor;

    /// Decode a reference anchor from binary data. A borrowed reference is not sent: it
    /// takes the next id of the borrow stack, which JavaScript fills in the same order.
    fn ref_decode(decoder: &mut DecodedData, batch: &mut BatchState) -> (r: Result<
        Self::Anchor,
        DecodeError,
    >)
        requires
            old(batch)@.wf(),
            old(batch)@.borrow_stack_pointer > 1,
        ensures
            final(batch)@.wf(),
    ;
}

/// Anchor type for JsCast references.
///
/// This holds a `JsValue` and provides a reference to the target type `T`
/// through the `JsCast` trait.
pub struct JsCastAnchor<T: JsCast> {
    value: JsValue,
    _marker: core::marker::PhantomData<T>,
}

impl<T: JsCast> JsCastAnchor<T> {
    /// The value held.
    pub closed spec fn spec_value(&self) -> JsValue {
        self.value
    }

    /// The held value, as the target type.
    pub fn get(&self) -> (r: &T)
        ensures
            r.js_value_of() == self.spec_value(),
    {
        T::unchecked_from_js_ref(&self.value)
    }
}

impl<T: JsCast> RefFromBinaryDecode for T {
    type Anchor = JsCastAnchor<T>;

    fn ref_decode(decoder: &mut DecodedData, batch: &mut BatchState) -> (r: Result<
        JsCastAnchor<T>,
        DecodeError,
    >)
        ensures
            final(batch)@ == old(batch)@.borrowed(),
            final(decoder)@ == old(decoder)@,
            r matches Ok(a) && a.spec_value().spec_id() == old(batch)@.borrow_stack_pointer - 1,
    {
        let id = batch.get_next_borrow_id();
        Ok(JsCastAnchor { value: JsValue::from_id(id), _marker: core::marker::PhantomData })
    }
}

} // verus!
