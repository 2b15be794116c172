//! Runtime support for calling JavaScript from Rust over a binary IPC protocol.
//!
//! The crate holds the verified core: the wire format of IPC messages, the
//! encoding of values and type definitions, the batching state that keeps heap
//! ids in sync with the JavaScript side, the registry of JavaScript snippets and
//! the protocol decisions of the webview host.

pub mod wire;
pub mod ipc;
pub mod value;
pub mod batch;
pub mod encode;
pub mod closure;
pub mod function;
pub mod text;
pub mod registry;
pub mod object_store;
pub mod runtime;
pub mod protocol;
pub mod cast;
pub mod convert;
pub mod heap_ref;
pub mod js_code;
pub mod attrs;
pub mod items;
