//! JsCast - Type casting trait for JavaScript types
//!
//! This trait provides methods for casting between JavaScript types,
//! similar to wasm-bindgen's JsCast trait.

use vstd::prelude::*;
use crate::value::JsValue;

verus! {

/// Trait for types that can be cast to and from JsValue.
///
/// It enables checked and unchecked casting between JavaScript types; every such
/// type stands for a `JsValue`, which the casts keep.
pub trait JsCast: Sized {
    /// The JavaScript value that this value stands for.
    spec fn js_value_of(&self) -> JsValue;

    /// Whether `answer` is what the instance check of this type can answer for `val`.
    /// For a JavaScript type the check is made in JavaScript, and any answer is possible.
    spec fn instanceof_answers(val: JsValue, answer: bool) -> bool;

    /// Check if a JsValue is an instance of this type.
    ///
    /// This performs a runtime instanceof check in JavaScript.
    fn instanceof(val: &JsValue) -> (r: bool)
        ensures
            Self::instanceof_answers(*val, r),
    ;

    /// Unchecked cast from JsValue to this type.
    fn unchecked_from_js(val: JsValue) -> (r: Self)
        ensures
            r.js_value_of() == val,
    ;

    /// Unchecked cast from a JsValue reference to a reference of this type.
    fn unchecked_from_js_ref(val: &JsValue) -> (r: &Self)
        ensures
            r.js_value_of() == *val,
    ;

    /// The JavaScript value that this value stands for.
    fn as_js_value(&self) -> (r: &JsValue)
        ensures
            *r == self.js_value_of(),
    ;

    /// Converts into the JavaScript value that this value stands for.
    fn into_js_value(self) -> (r: JsValue)
        ensures
            r == self.js_value_of(),
    ;

    /// Try to cast a JsValue to this type.
    ///
    /// Returns `Ok(Self)` if the value is an instance of this type,
    /// otherwise returns `Err(val)` with the original value.
    fn dyn_into(val: JsValue) -> (r: Result<Self, JsValue>)
        ensures
            match r {
                Ok(v) => v.js_value_of() == val,
                Err(v) => v == val,
            },
    {
        if Self::instanceof(&val) {
            Ok(Self::unchecked_from_js(val))
        } else {
            Err(val)
        }
    }

    /// Try to get a reference to this type from a JsValue reference.
    ///
    /// Returns `Some(&Self)` if the value is an instance of this type,
    /// otherwise returns `None`.
    fn dyn_ref(val: &JsValue) -> (r: Option<&Self>)
        ensures
            r matches Some(v) ==> v.js_value_of() == *val,
            Self::instanceof_answers(*val, r is Some),
    {
        if Self::instanceof(val) {
            Some(Self::unchecked_from_js_ref(val))
        } else {
            None
        }
    }

}

/// Check if a value is an instance of another type.
pub fn is_instance_of<S: JsCast, T: JsCast>(v: &S) -> (r: bool)
    ensures
        T::instanceof_answers(v.js_value_of(), r),
{
    T::instanceof(v.as_js_value())
}

/// Unchecked cast to another type.
pub fn unchecked_into<S: JsCast, T: JsCast>(v: S) -> (r: T)
    ensures
        r.js_value_of() == v.js_value_of(),
{
    T::unchecked_from_js(v.into_js_value())
}

/// Unchecked cast to a reference of another type.
pub fn unchecked_ref<S: JsCast, T: JsCast>(v: &S) -> (r: &T)
    ensures
        r.js_value_of() == v.js_value_of(),
{
    T::unchecked_from_js_ref(v.as_js_value())
}

/// JsValue casts to itself: every value is a JsValue.
impl JsCast for JsValue {
    open spec fn js_value_of(&self) -> JsValue {
        *self
    }

    /// Every value is a JsValue.
    open spec fn instanceof_answers(val: JsValue, answer: bool) -> bool {
        answer
    }

    fn instanceof(val: &JsValue) -> (r: bool)
        ensures
            r,
    {
        assert(Self::instanceof_answers(*val, true));
        true
    }

    fn unchecked_from_js(val: JsValue) -> JsValue {
        val
    }

    fn unchecked_from_js_ref(val: &JsValue) -> &JsValue {
        val
    }

    fn as_js_value(&self) -> &JsValue {
        self
    }

    fn into_js_value(self) -> JsValue {
        self
    }
}

} // verus!
