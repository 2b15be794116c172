//! Closures handed to JavaScript, clamped byte arrays, errors and unwrapping helpers.

use vstd::prelude::*;
use crate::value::JsValue;

verus! {

/// A wrapper type around slices and vectors for binding the `Uint8ClampedArray` in JS.
#[derive(Copy, Clone, PartialEq, Debug, Eq)]
pub struct Clamped<T>(pub T);

/// Closure type for passing Rust closures to JavaScript.
///
/// It holds the JavaScript function value that calls back into Rust.
pub struct Closure<T: ?Sized> {
    phantom: core::marker::PhantomData<Box<T>>,
    value: JsValue,
}

impl<T: ?Sized> Closure<T> {
    /// The JavaScript value of this closure.
    pub closed spec fn spec_value(&self) -> JsValue {
        self.value
    }

    /// Wrap the JavaScript function value that stands for a registered callback.
    pub fn from_js_value(value: JsValue) -> (r: Self)
        ensures
            r.spec_value() == value,
    {
        Closure { phantom: core::marker::PhantomData, value }
    }

    /// The JavaScript value of this closure.
    pub fn as_js_value(&self) -> (r: &JsValue)
        ensures
            *r == self.spec_value(),
    {
        &self.value
    }

    /// Converts the `Closure` into a `JsValue`.
    pub fn into_js_value(self) -> (r: JsValue)
        ensures
            r == self.spec_value(),
    {
        self.value
    }

    /// Forgets the closure, leaking it: the JavaScript function stays alive.
    pub fn forget(self) {
    }
}

/// A JavaScript Error object.
#[derive(Debug)]
pub struct JsError {
    value: JsValue,
}

impl JsError {
    /// The JavaScript value of this error.
    pub closed spec fn spec_value(&self) -> JsValue {
        self.value
    }

    /// Wrap a JavaScript value that is an `Error`.
    pub fn from_js_value(value: JsValue) -> (r: Self)
        ensures
            r.spec_value() == value,
    {
        JsError { value }
    }

    /// The JavaScript value of this error.
    pub fn into_js_value(self) -> (r: JsValue)
        ensures
            r == self.spec_value(),
    {
        self.value
    }
}

/// Extension trait for Option and Result to unwrap the value.
/// This is API-compatible with wasm-bindgen's UnwrapThrowExt.
pub trait UnwrapThrowExt<T>: Sized {
    /// Whether there is a value to unwrap.
    spec fn has_value(&self) -> bool;

    /// The value that unwrapping gives.
    spec fn spec_value(&self) -> T;

    /// Unwrap the value.
    fn unwrap_throw(self) -> (r: T)
        requires
            self.has_value(),
        ensures
            r == self.spec_value(),
    ;

    /// Unwrap the value; `message` is what the failure would say.
    fn expect_throw(self, message: &str) -> (r: T)
        requires
            self.has_value(),
        ensures
            r == self.spec_value(),
    ;
}

impl<T> UnwrapThrowExt<T> for Option<T> {
    open spec fn has_value(&self) -> bool {
        self is Some
    }

    open spec fn spec_value(&self) -> T {
        self->Some_0
    }

    fn unwrap_throw(self) -> T {
        self.unwrap()
    }

    fn expect_throw(self, message: &str) -> T {
        self.unwrap()
    }
}

impl<T, E: core::fmt::Debug> UnwrapThrowExt<T> for Result<T, E> {
    open spec fn has_value(&self) -> bool {
        self is Ok
    }

    open spec fn spec_value(&self) -> T {
        self->Ok_0
    }

    fn unwrap_throw(self) -> T {
        match self {
            Ok(v) => v,
            Err(_) => {
                proof {
                    assert(false);
                }
                self.unwrap()
            },
        }
    }

    fn expect_throw(self, message: &str) -> T {
        match self {
            Ok(v) => v,
            Err(_) => {
                proof {
                    assert(false);
                }
                self.unwrap()
            },
        }
    }
}

} // verus!
