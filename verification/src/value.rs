//! JsValue - An opaque reference to a JavaScript value
//!
//! This type represents a reference to a JavaScript value on the JS heap.
//! API compatible with wasm-bindgen's JsValue.

use vstd::prelude::*;

verus! {

/// Offset for reserved JS value indices.
/// Values below JSIDX_RESERVED are special constants that don't need drop/clone.
pub const JSIDX_OFFSET: u64 = 128;

/// Index for the `undefined` JS value.
pub const JSIDX_UNDEFINED: u64 = JSIDX_OFFSET;

/// Index for the `null` JS value.
pub const JSIDX_NULL: u64 = JSIDX_OFFSET + 1;

/// Index for the `true` JS value.
pub const JSIDX_TRUE: u64 = JSIDX_OFFSET + 2;

/// Index for the `false` JS value.
pub const JSIDX_FALSE: u64 = JSIDX_OFFSET + 3;

/// First usable heap ID. IDs below this are reserved for special values.
pub const JSIDX_RESERVED: u64 = JSIDX_OFFSET + 4;

/// An opaque reference to a JavaScript heap object.
///
/// It represents any JavaScript value by its index on the JavaScript heap
/// (or on the borrow stack, for indices below `JSIDX_OFFSET`).
#[derive(Debug, PartialEq, Eq, Hash, Structural)]
pub struct JsValue {
    idx: u64,
}

impl JsValue {
    /// The heap index this value stands for.
    pub closed spec fn spec_id(&self) -> u64 {
        self.idx
    }

    /// The value at a heap ID.
    pub closed spec fn spec_from_id(id: u64) -> JsValue {
        JsValue { idx: id }
    }

    /// Create a new JsValue from a heap ID.
    pub fn from_id(id: u64) -> (r: Self)
        ensures
            r.spec_id() == id,
            r == Self::spec_from_id(id),
    {
        JsValue { idx: id }
    }

    /// Get the heap ID for this value.
    pub fn id(&self) -> (r: u64)
        ensures
            r == self.spec_id(),
    {
        self.idx
    }

    /// Get the ABI representation (heap index, truncated to 32 bits), consuming self.
    pub fn into_abi(self) -> (r: u32)
        ensures
            r == self.spec_id() as u32,
    {
        self.idx as u32
    }

    /// Creates a new JS value representing `undefined`.
    pub fn undefined() -> (r: JsValue)
        ensures
            r.spec_id() == JSIDX_UNDEFINED,
    {
        JsValue { idx: JSIDX_UNDEFINED }
    }

    /// Creates a new JS value representing `null`.
    pub fn null() -> (r: JsValue)
        ensures
            r.spec_id() == JSIDX_NULL,
    {
        JsValue { idx: JSIDX_NULL }
    }

    /// Creates a new JS value which is a boolean.
    pub fn from_bool(b: bool) -> (r: JsValue)
        ensures
            r.spec_id() == (if b {
                JSIDX_TRUE
            } else {
                JSIDX_FALSE
            }),
    {
        if b {
            JsValue { idx: JSIDX_TRUE }
        } else {
            JsValue { idx: JSIDX_FALSE }
        }
    }

    /// Whether this value is one of the constants (or a borrowed reference) that
    /// need no clone or drop on the JavaScript heap.
    pub fn is_reserved(&self) -> (r: bool)
        ensures
            r == (self.spec_id() < JSIDX_RESERVED),
    {
        self.idx < JSIDX_RESERVED
    }

    /// Whether this value is the `undefined` constant, in which case `is_undefined`
    /// holds without asking JavaScript; any other value may still be undefined there.
    pub fn is_undefined_constant(&self) -> (r: bool)
        ensures
            r == (self.spec_id() == JSIDX_UNDEFINED),
    {
        self.idx == JSIDX_UNDEFINED
    }

    /// Whether this value is the `null` constant, in which case `is_null` holds without
    /// asking JavaScript; any other value may still be null there.
    pub fn is_null_constant(&self) -> (r: bool)
        ensures
            r == (self.spec_id() == JSIDX_NULL),
    {
        self.idx == JSIDX_NULL
    }

    /// The answer of `as_bool` that needs no question to JavaScript: `Some(Some(b))` for the
    /// boolean constants, `Some(None)` for the other reserved values, and `None` for heap
    /// values, whose answer only JavaScript knows.
    pub fn known_bool(&self) -> (r: Option<Option<bool>>)
        ensures
            self.spec_id() == JSIDX_TRUE ==> r == Some(Some(true)),
            self.spec_id() == JSIDX_FALSE ==> r == Some(Some(false)),
            self.spec_id() != JSIDX_TRUE && self.spec_id() != JSIDX_FALSE && self.spec_id()
                < JSIDX_RESERVED ==> r == Some(None::<bool>),
            self.spec_id() >= JSIDX_RESERVED ==> r is None,
    {
        if self.idx == JSIDX_TRUE {
            Some(Some(true))
        } else if self.idx == JSIDX_FALSE {
            Some(Some(false))
        } else if self.idx < JSIDX_RESERVED {
            Some(None)
        } else {
            None
        }
    }
}

impl Default for JsValue {
    fn default() -> (r: Self)
        ensures
            r.spec_id() == JSIDX_UNDEFINED,
    {
        JsValue::undefined()
    }
}

} // verus!
