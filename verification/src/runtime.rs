//! Events of the runtime and the requests that JavaScript sends to Rust.

use vstd::prelude::*;
use crate::encode::BinaryDecode;
use crate::function::{CALL_EXPORT_FN_ID, DROP_NATIVE_REF_FN_ID};
use crate::ipc::{Buffers, DecodeError, DecodedData, IPCMessage, spec_take_str, spec_take_u32};
use crate::object_store::ObjectHandle;
use crate::registry::JsExportSpec;
use crate::text::str_eq;

verus! {

/// Application-level events that can be sent through the event loop.
///
/// This wraps both IPC messages and control messages; `T` is the type of the tasks
/// that are run on the main thread.
pub struct AppEvent<T> {
    id: u64,
    event: AppEventVariant<T>,
}

/// The kinds of application events.
pub enum AppEventVariant<T> {
    /// An IPC message from JavaScript
    Ipc(IPCMessage),
    /// The webview has finished loading
    WebviewLoaded,
    /// Execute a closure on the main thread
    RunOnMainThread(T),
}

impl<T> AppEvent<T> {
    /// The id of the webview that the event is for.
    pub closed spec fn spec_id(&self) -> u64 {
        self.id
    }

    /// The kind of the event and what it carries.
    pub closed spec fn spec_variant(&self) -> AppEventVariant<T> {
        self.event
    }

    /// Get the id of the event
    pub fn id(&self) -> (r: u64)
        ensures
            r == self.spec_id(),
    {
        self.id
    }

    /// Create a new IPC event.
    pub fn ipc(id: u64, msg: IPCMessage) -> (r: Self)
        ensures
            r.spec_id() == id,
            r.spec_variant() == AppEventVariant::<T>::Ipc(msg),
    {
        AppEvent { id, event: AppEventVariant::Ipc(msg) }
    }

    /// Create a new webview loaded event.
    pub fn webview_loaded(id: u64) -> (r: Self)
        ensures
            r.spec_id() == id,
            r.spec_variant() == AppEventVariant::<T>::WebviewLoaded,
    {
        AppEvent { id, event: AppEventVariant::WebviewLoaded }
    }

    /// Create a new run-on-main-thread event.
    pub fn run_on_main_thread(id: u64, task: T) -> (r: Self)
        ensures
            r.spec_id() == id,
            r.spec_variant() == AppEventVariant::<T>::RunOnMainThread(task),
    {
        AppEvent { id, event: AppEventVariant::RunOnMainThread(task) }
    }

    /// Consume the event and return the inner variant.
    pub fn into_variant(self) -> (r: AppEventVariant<T>)
        ensures
            r == self.spec_variant(),
    {
        self.event
    }
}

/// A call that JavaScript makes into Rust.
pub enum CallbackRequest {
    /// Call the registered Rust callback with this key; its arguments follow.
    Callback { key: u32 },
    /// JavaScript collected the wrapper of a native object: drop the object.
    DropNativeRef { handle: ObjectHandle },
    /// Call the exported Rust method with this name; its arguments follow.
    CallExport { name: String },
    /// A function id that names no kind of call.
    Unknown { fn_id: u32 },
}

/// What a call request holds, as mathematical values.
pub enum RequestView {
    Callback(u32),
    DropNativeRef(u32),
    CallExport(Seq<char>),
    Unknown(u32),
}

impl View for CallbackRequest {
    type V = RequestView;

    open spec fn view(&self) -> RequestView {
        match self {
            CallbackRequest::Callback { key } => RequestView::Callback(*key),
            CallbackRequest::DropNativeRef { handle } => RequestView::DropNativeRef(handle.0),
            CallbackRequest::CallExport { name } => RequestView::CallExport(name@),
            CallbackRequest::Unknown { fn_id } => RequestView::Unknown(*fn_id),
        }
    }
}

/// Reading a call request: the function id, then the key, handle or export name that
/// the kind of call carries. What follows stays for the call itself.
pub open spec fn spec_callback_request(b: Buffers) -> (Result<RequestView, DecodeError>, Buffers) {
    match spec_take_u32(b).0 {
        Err(e) => (Err(e), spec_take_u32(b).1),
        Ok(fn_id) => {
            let b1 = spec_take_u32(b).1;
            if fn_id == 0 || fn_id == DROP_NATIVE_REF_FN_ID {
                match spec_take_u32(b1).0 {
                    Err(e) => (Err(e), spec_take_u32(b1).1),
                    Ok(v) => (
                        Ok(
                            if fn_id == 0 {
                                RequestView::Callback(v)
                            } else {
                                RequestView::DropNativeRef(v)
                            },
                        ),
                        spec_take_u32(b1).1,
                    ),
                }
            } else if fn_id == CALL_EXPORT_FN_ID {
                match spec_take_str(b1).0 {
                    Err(e) => (Err(e), spec_take_str(b1).1),
                    Ok(s) => (Ok(RequestView::CallExport(s)), spec_take_str(b1).1),
                }
            } else {
                (Ok(RequestView::Unknown(fn_id)), b1)
            }
        },
    }
}

/// Reads which call JavaScript makes into Rust: a registered callback, the drop of a
/// native object, or an exported method.
pub fn parse_callback_request(data: &mut DecodedData) -> (r: Result<CallbackRequest, DecodeError>)
    ensures
        final(data)@ == spec_callback_request(old(data)@).1,
        match r {
            Ok(req) => spec_callback_request(old(data)@).0 == Ok::<RequestView, DecodeError>(
                req@,
            ),
            Err(e) => spec_callback_request(old(data)@).0 == Err::<RequestView, DecodeError>(e),
        },
{
    let fn_id = data.take_u32()?;
    if fn_id == 0 {
        let key = data.take_u32()?;
        Ok(CallbackRequest::Callback { key })
    } else if fn_id == DROP_NATIVE_REF_FN_ID {
        let handle = ObjectHandle::decode(data)?;
        Ok(CallbackRequest::DropNativeRef { handle })
    } else if fn_id == CALL_EXPORT_FN_ID {
        let name = String::decode(data)?;
        Ok(CallbackRequest::CallExport { name })
    } else {
        Ok(CallbackRequest::Unknown { fn_id })
    }
}

/// The position of the first export with the given name.
pub fn find_export(exports: &[JsExportSpec], name: &str) -> (r: Option<usize>)
    ensures
        match r {
            Some(i) => i < exports@.len() && exports@[i as int].name@ == name@ && forall|j: int|
                0 <= j < i ==> exports@[j].name@ != name@,
            None => forall|j: int| 0 <= j < exports@.len() ==> exports@[j].name@ != name@,
        },
{
    let mut i: usize = 0;
    while i < exports.len()
        invariant
            i <= exports@.len(),
            forall|j: int| 0 <= j < i ==> exports@[j].name@ != name@,
        decreases exports@.len() - i,
    {
        if str_eq(exports[i].name, name) {
            return Some(i);
        }
        i = i + 1;
    }
    None
}

} // verus!
