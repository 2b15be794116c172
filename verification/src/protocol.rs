//! The `wry://` protocol that the webview talks to: the HTTP responses it is served,
//! the routing of its requests, and the bookkeeping of the IPC conversation between
//! Rust and JavaScript.

use vstd::prelude::*;
use vstd::string::*;
use crate::ipc::{
    IPCMessage, MessageType, base64_encode, base64_encoded_len,
    base64_standard_encode, spec_message_type,
};
use crate::registry::{FunctionRegistry, lookup_module};
use crate::runtime::{AppEvent, AppEventVariant};
use crate::text::{decimal, push_decimal, str_eq};

verus! {

broadcast use vstd::string::axiom_spec_iter;

/// An HTTP response: status, headers and body.
pub struct HttpResponse {
    pub status: u16,
    pub headers: Vec<(String, String)>,
    pub body: Vec<u8>,
}

/// What a response holds, as mathematical values.
pub struct ResponseView {
    pub status: u16,
    pub headers: Seq<(Seq<char>, Seq<char>)>,
    pub body: Seq<u8>,
}

impl View for HttpResponse {
    type V = ResponseView;

    open spec fn view(&self) -> ResponseView {
        ResponseView {
            status: self.status,
            headers: self.headers@.map_values(|h: (String, String)| (h.0@, h.1@)),
            body: self.body@,
        }
    }
}

/// The bytes of a string.
fn bytes_of(s: &str) -> (r: Vec<u8>)
    ensures
        r@ == s.spec_bytes(),
{
    let b = s.as_bytes();
    let mut v: Vec<u8> = Vec::new();
    let mut i: usize = 0;
    while i < b.len()
        invariant
            i <= b@.len(),
            v@ == b@.take(i as int),
        decreases b@.len() - i,
    {
        v.push(b[i]);
        i = i + 1;
        assert(v@ =~= b@.take(i as int));
    }
    assert(b@.take(i as int) =~= b@);
    v
}

/// A header made of two strings.
fn header(name: &str, value: &str) -> (r: (String, String))
    ensures
        r.0@ == name@,
        r.1@ == value@,
{
    (String::from_str(name), String::from_str(value))
}

/// A response with the given status, no headers and an empty body.
fn status_only(status: u16) -> (r: HttpResponse)
    ensures
        r@ == (ResponseView { status, headers: Seq::empty(), body: Seq::empty() }),
{
    let r = HttpResponse { status, headers: Vec::new(), body: Vec::new() };
    assert(r@.headers =~= Seq::<(Seq<char>, Seq<char>)>::empty());
    r
}

/// Create a blank HTTP response.
pub fn blank_response() -> (r: HttpResponse)
    ensures
        r@ == (ResponseView { status: 200, headers: Seq::empty(), body: Seq::empty() }),
{
    status_only(200)
}

/// Create an error HTTP response.
pub fn error_response() -> (r: HttpResponse)
    ensures
        r@ == (ResponseView { status: 400, headers: Seq::empty(), body: Seq::empty() }),
{
    status_only(400)
}

/// Create a JavaScript module HTTP response.
pub fn module_response(content: &str) -> (r: HttpResponse)
    ensures
        r@ == (ResponseView {
            status: 200,
            headers: seq![("Content-Type"@, "application/javascript"@)],
            body: content.spec_bytes(),
        }),
{
    let r = HttpResponse {
        status: 200,
        headers: vec![header("Content-Type", "application/javascript")],
        body: bytes_of(content),
    };
    assert(r@.headers =~= seq![("Content-Type"@, "application/javascript"@)]);
    r
}

/// Create a not found HTTP response.
pub fn not_found_response() -> (r: HttpResponse)
    ensures
        r@ == (ResponseView { status: 404, headers: Seq::empty(), body: "Not Found".spec_bytes() }),
{
    let r = HttpResponse { status: 404, headers: Vec::new(), body: bytes_of("Not Found") };
    assert(r@.headers =~= Seq::<(Seq<char>, Seq<char>)>::empty());
    r
}

/// The page that loads the initialization script of a webview.
pub open spec fn root_html(webview_id: u64) -> Seq<char> {
    ROOT_HTML_HEAD@ + decimal(webview_id as nat) + ROOT_HTML_TAIL@
}

/// The page served at the root of a webview.
pub fn root_response(webview_id: u64) -> (r: HttpResponse)
    ensures
        r@.status == 200,
        r@.headers == seq![("Content-Type"@, "text/html"@), ("access-control-allow-origin"@, "*"@)],
        r@.body == vstd::utf8::encode_utf8(root_html(webview_id)),
{
    let mut html = String::new();
    html.append(ROOT_HTML_HEAD);
    push_decimal(&mut html, webview_id);
    html.append(ROOT_HTML_TAIL);
    let r = HttpResponse {
        status: 200,
        headers: vec![
            header("Content-Type", "text/html"),
            header("access-control-allow-origin", "*"),
        ],
        body: bytes_of(html.as_str()),
    };
    assert(r@.headers =~= seq![
        ("Content-Type"@, "text/html"@),
        ("access-control-allow-origin"@, "*"@),
    ]);
    r
}

/// The start of the root page, up to the webview id.
pub const ROOT_HTML_HEAD: &'static str = "<!DOCTYPE html>\n<html>\n<head>\n    <title>Wry Test</title>\n    <script src=\"/__wbg__/";

/// The end of the root page, after the webview id.
pub const ROOT_HTML_TAIL: &'static str = "/init.js\"></script>\n</head>\n<body>\n</body>\n</html>";

/// The scheme prefix of the protocol's URIs.
pub open spec fn scheme_chars() -> Seq<char> {
    seq!['w', 'r', 'y', ':', '/', '/']
}

/// The URI with every occurrence of the scheme prefix removed, left to right.
pub open spec fn strip_scheme(s: Seq<char>) -> Seq<char>
    decreases s.len(),
{
    if s.len() >= 6 && s.take(6) == scheme_chars() {
        strip_scheme(s.skip(6))
    } else if s.len() == 0 {
        s
    } else {
        seq![s[0]] + strip_scheme(s.drop_first())
    }
}

/// `s` without its leading slashes.
pub open spec fn trim_leading_slashes(s: Seq<char>) -> Seq<char>
    decreases s.len(),
{
    if s.len() > 0 && s[0] == '/' {
        trim_leading_slashes(s.drop_first())
    } else {
        s
    }
}

/// `s` without its trailing slashes.
pub open spec fn trim_trailing_slashes(s: Seq<char>) -> Seq<char>
    decreases s.len(),
{
    if s.len() > 0 && s.last() == '/' {
        trim_trailing_slashes(s.drop_last())
    } else {
        s
    }
}

/// The path of a request: its URI without the scheme prefix and without slashes at
/// either end.
pub open spec fn request_path(uri: Seq<char>) -> Seq<char> {
    trim_trailing_slashes(trim_leading_slashes(strip_scheme(uri)))
}

/// The characters of a string.
fn chars_of(s: &str) -> (r: Vec<char>)
    ensures
        r@ == s@,
{
    let mut v: Vec<char> = Vec::new();
    for c in it: s.chars()
        invariant
            v@ == it.seq().take(it.index() as int),
    {
        v.push(c);
    }
    assert(v@ =~= s@);
    v
}

/// Appends a character to a string.
///
/// Trusted: `String::push` appends exactly the given character, as std documents.
#[verifier::external_body]
fn string_push(s: &mut String, c: char)
    ensures
        final(s)@ == old(s)@.push(c),
{
    s.push(c)
}

/// Whether the scheme prefix starts at position `i`.
fn scheme_at(v: &Vec<char>, i: usize) -> (r: bool)
    requires
        i <= v@.len(),
    ensures
        r == (v@.len() - i >= 6 && v@.skip(i as int).take(6) == scheme_chars()),
{
    if v.len() - i < 6 {
        return false;
    }
    let r = v[i] == 'w' && v[i + 1] == 'r' && v[i + 2] == 'y' && v[i + 3] == ':' && v[i + 4] == '/'
        && v[i + 5] == '/';
    assert(r == (v@.skip(i as int).take(6) =~= scheme_chars()));
    r
}

/// The path of a request with the given URI.
pub fn path_of(uri: &str) -> (r: String)
    ensures
        r@ == request_path(uri@),
{
    let v = chars_of(uri);
    let mut out: Vec<char> = Vec::new();
    let mut i: usize = 0;
    assert(v@.skip(0) =~= v@);
    while i < v.len()
        invariant
            i <= v@.len(),
            out@ + strip_scheme(v@.skip(i as int)) == strip_scheme(v@),
        decreases v@.len() - i,
    {
        if scheme_at(&v, i) {
            assert(v@.skip(i as int).skip(6) =~= v@.skip(i + 6));
            i = i + 6;
        } else {
            assert(v@.skip(i as int).drop_first() =~= v@.skip(i + 1));
            assert(v@.skip(i as int)[0] == v@[i as int]);
            let ghost before = out@;
            out.push(v[i]);
            assert(out@ + strip_scheme(v@.skip(i + 1)) =~= before + (seq![v@[i as int]]
                + strip_scheme(v@.skip(i + 1))));
            i = i + 1;
        }
    }
    assert(v@.skip(i as int) =~= Seq::<char>::empty());
    assert(out@ + Seq::<char>::empty() =~= out@);
    let ghost stripped = out@;
    let mut start: usize = 0;
    assert(stripped.skip(0) =~= stripped);
    while start < out.len() && out[start] == '/'
        invariant
            start <= out@.len(),
            out@ == stripped,
            trim_leading_slashes(stripped) == trim_leading_slashes(stripped.skip(start as int)),
        decreases out@.len() - start,
    {
        assert(stripped.skip(start as int).drop_first() =~= stripped.skip(start + 1));
        start = start + 1;
    }
    let ghost lead = stripped.skip(start as int);
    let mut end: usize = out.len();
    assert(lead =~= stripped.subrange(start as int, end as int));
    while end > start && out[end - 1] == '/'
        invariant
            start <= end <= out@.len(),
            out@ == stripped,
            trim_trailing_slashes(lead) == trim_trailing_slashes(
                stripped.subrange(start as int, end as int),
            ),
        decreases end,
    {
        assert(stripped.subrange(start as int, end as int).drop_last() =~= stripped.subrange(
            start as int,
            end - 1,
        ));
        end = end - 1;
    }
    let mut r = String::new();
    let mut k: usize = start;
    assert(r@ =~= stripped.subrange(start as int, k as int));
    while k < end
        invariant
            start <= k <= end <= out@.len(),
            out@ == stripped,
            r@ == stripped.subrange(start as int, k as int),
        decreases end - k,
    {
        string_push(&mut r, out[k]);
        k = k + 1;
        assert(r@ =~= stripped.subrange(start as int, k as int));
    }
    r
}


/// Where a request of the protocol goes.
pub enum Route {
    /// The root page (`index`).
    Index,
    /// The webview announces that it has loaded (`ready`).
    Ready,
    /// An inline module under `snippets/`, with its content.
    Module(&'static str),
    /// A path under `snippets/` that names no module.
    NotFound,
    /// The IPC endpoint (`handler`).
    Handler,
    /// Any other path, answered with a blank response.
    Other,
}

/// Where a request goes, as mathematical values.
pub enum RouteView {
    Index,
    Ready,
    Module(Seq<char>),
    NotFound,
    Handler,
    Other,
}

impl View for Route {
    type V = RouteView;

    open spec fn view(&self) -> RouteView {
        match self {
            Route::Index => RouteView::Index,
            Route::Ready => RouteView::Ready,
            Route::Module(c) => RouteView::Module(c@),
            Route::NotFound => RouteView::NotFound,
            Route::Handler => RouteView::Handler,
            Route::Other => RouteView::Other,
        }
    }
}

/// The directory of the inline modules.
pub open spec fn snippets_prefix() -> Seq<char> {
    seq!['s', 'n', 'i', 'p', 'p', 'e', 't', 's', '/']
}

/// Where a request with the given path goes, given the table of served modules.
pub open spec fn spec_route(modules: Seq<(Seq<char>, Seq<char>)>, path: Seq<char>) -> RouteView {
    if path == "index"@ {
        RouteView::Index
    } else if path == "ready"@ {
        RouteView::Ready
    } else if path.len() >= 9 && path.take(9) == snippets_prefix() {
        match lookup_module(modules, path) {
            Some(c) => RouteView::Module(c),
            None => RouteView::NotFound,
        }
    } else if path == "handler"@ {
        RouteView::Handler
    } else {
        RouteView::Other
    }
}

/// Whether a path lies under `snippets/`.
fn in_snippets(path: &str) -> (r: bool)
    ensures
        r == (path@.len() >= 9 && path@.take(9) == snippets_prefix()),
{
    let v = chars_of(path);
    if v.len() < 9 {
        return false;
    }
    let r = v[0] == 's' && v[1] == 'n' && v[2] == 'i' && v[3] == 'p' && v[4] == 'p' && v[5] == 'e'
        && v[6] == 't' && v[7] == 's' && v[8] == '/';
    assert(r == (v@.take(9) =~= snippets_prefix()));
    r
}

/// Routes the requests of the `wry://` protocol, serving the inline modules of a registry.
pub struct ProtocolHandler {
    function_registry: &'static FunctionRegistry,
}

impl ProtocolHandler {
    /// The registry whose modules are served.
    pub closed spec fn registry(&self) -> &'static FunctionRegistry {
        self.function_registry
    }

    /// Where a request with the given URI goes:
    /// - `index` serves the root page,
    /// - `ready` signals that the webview loaded,
    /// - `snippets/{path}` serves an inline module,
    /// - `handler` is the IPC endpoint.
    pub fn route(&self, uri: &str) -> (r: Route)
        ensures
            r@ == spec_route(self.registry().spec_modules(), request_path(uri@)),
    {
        let path = path_of(uri);
        let p = path.as_str();
        if str_eq(p, "index") {
            return Route::Index;
        }
        if str_eq(p, "ready") {
            return Route::Ready;
        }
        if in_snippets(p) {
            return match self.function_registry.get_module(p) {
                Some(content) => Route::Module(content),
                None => Route::NotFound,
            };
        }
        if str_eq(p, "handler") {
            return Route::Handler;
        }
        Route::Other
    }
}


/// How many round trips are open, and whether a request of JavaScript waits for its answer.
pub struct SharedView {
    pub ongoing: bool,
    pub pending_js: nat,
    pub pending_rust: nat,
}

/// Shared state for managing async protocol responses.
///
/// The request that waits for its answer is held by whoever serves the protocol; this
/// state records whether there is one.
pub struct SharedWebviewState {
    ongoing_request: bool,
    /// How many responses we are waiting for from JS
    pending_js_evaluates: usize,
    /// How many responses JS is waiting for from us
    pending_rust_evaluates: usize,
}

impl View for SharedWebviewState {
    type V = SharedView;

    closed spec fn view(&self) -> SharedView {
        SharedView {
            ongoing: self.ongoing_request,
            pending_js: self.pending_js_evaluates as nat,
            pending_rust: self.pending_rust_evaluates as nat,
        }
    }
}

/// The response that answers a waiting request with a message.
pub open spec fn ipc_response(data: Seq<u8>) -> ResponseView {
    ResponseView {
        status: 200,
        headers: seq![("Content-Type"@, "application/octet-stream"@)],
        body: data,
    }
}

impl SharedWebviewState {
    /// Nothing pending, no request waiting.
    pub fn new() -> (r: Self)
        ensures
            r@ == (SharedView { ongoing: false, pending_js: 0, pending_rust: 0 }),
    {
        SharedWebviewState { ongoing_request: false, pending_js_evaluates: 0, pending_rust_evaluates: 0 }
    }

    /// Records that a request waits for its answer; there must be none yet.
    pub fn set_ongoing_request(&mut self)
        requires
            !old(self)@.ongoing,
        ensures
            final(self)@ == (SharedView { ongoing: true, ..old(self)@ }),
    {
        self.ongoing_request = true;
    }

    /// Takes the waiting request, if there is one.
    pub fn take_ongoing_request(&mut self) -> (r: bool)
        ensures
            r == old(self)@.ongoing,
            final(self)@ == (SharedView { ongoing: false, ..old(self)@ }),
    {
        let r = self.ongoing_request;
        self.ongoing_request = false;
        r
    }

    /// Whether a request waits for its answer.
    pub fn has_pending_request(&self) -> (r: bool)
        ensures
            r == self@.ongoing,
    {
        self.ongoing_request
    }

    /// Answers the waiting request with a message: the response to send it.
    pub fn respond_to_request(&mut self, response: IPCMessage) -> (r: HttpResponse)
        requires
            old(self)@.ongoing,
        ensures
            final(self)@ == (SharedView { ongoing: false, ..old(self)@ }),
            r@ == ipc_response(response@),
    {
        self.take_ongoing_request();
        let r = HttpResponse {
            status: 200,
            headers: vec![header("Content-Type", "application/octet-stream")],
            body: response.into_data(),
        };
        assert(r@.headers =~= seq![("Content-Type"@, "application/octet-stream"@)]);
        r
    }
}

/// Tracks the loading state of the webview.
pub enum WebviewLoadingState {
    /// Webview is still loading, messages are queued.
    Pending { queued: Vec<IPCMessage> },
    /// Webview is loaded and ready.
    Loaded,
}

impl Default for WebviewLoadingState {
    fn default() -> (r: Self)
        ensures
            r matches WebviewLoadingState::Pending { queued } && queued@.len() == 0,
    {
        WebviewLoadingState::Pending { queued: Vec::new() }
    }
}

/// The messages of a queue, as byte sequences.
pub open spec fn message_views(v: Seq<IPCMessage>) -> Seq<Seq<u8>> {
    v.map_values(|m: IPCMessage| m@)
}

/// The state of the protocol: the round trips and, while the webview loads, the
/// messages queued for it.
pub struct WryView {
    pub shared: SharedView,
    pub queued: Option<Seq<Seq<u8>>>,
}

/// Reusable wry-bindgen state for integrating with existing wry applications.
///
/// This struct manages the IPC protocol between Rust and JavaScript,
/// handling message queuing, async responses, and JS function registration.
pub struct WryBindgen {
    function_registry: &'static FunctionRegistry,
    shared: SharedWebviewState,
    state: WebviewLoadingState,
}

impl View for WryBindgen {
    type V = WryView;

    closed spec fn view(&self) -> WryView {
        WryView {
            shared: self.shared@,
            queued: match self.state {
                WebviewLoadingState::Pending { queued } => Some(message_views(queued@)),
                WebviewLoadingState::Loaded => None,
            },
        }
    }
}

/// What the handler of the IPC endpoint does with a request.
pub enum HandlerOutcome {
    /// The request carried no readable message: answer with an error.
    Rejected,
    /// Hand the message to the Rust side; keep the request waiting for its answer, or
    /// answer it with a blank response.
    Forward { hold_responder: bool, msg: IPCMessage },
}

/// Whether the request that brought a message from JavaScript waits for an answer: a
/// new call always does, an answer does while round trips remain open.
pub open spec fn holds_request(s: SharedView, data: Seq<u8>) -> bool {
    spec_message_type(data) == Ok::<MessageType, crate::ipc::DecodeError>(MessageType::Evaluate)
        || s.pending_rust > 0 || s.pending_js > 1
}

/// The round trips after a message goes from JavaScript to Rust.
pub open spec fn after_request(s: SharedView, data: Seq<u8>) -> SharedView {
    let ongoing = s.ongoing || holds_request(s, data);
    if spec_message_type(data) == Ok::<MessageType, crate::ipc::DecodeError>(MessageType::Evaluate) {
        SharedView { ongoing, pending_rust: s.pending_rust + 1, ..s }
    } else {
        SharedView {
            ongoing,
            pending_js: if s.pending_js > 0 {
                (s.pending_js - 1) as nat
            } else {
                0nat
            },
            ..s
        }
    }
}

/// Whether a message from JavaScript can be handled without dropping a waiting request
/// or overflowing a count.
pub open spec fn request_acceptable(s: SharedView, data: Seq<u8>) -> bool {
    &&& spec_message_type(data) is Ok
    &&& s.pending_rust < usize::MAX
    &&& holds_request(s, data) ==> !s.ongoing
}

/// The script that hands a message to JavaScript.
pub open spec fn evaluate_script(data: Seq<u8>) -> Seq<char> {
    "window.evaluate_from_rust_binary(\""@ + base64_standard_encode(data) + "\")"@
}

/// What the event loop does after a user event.
pub enum UserEventAction<T> {
    /// Nothing more.
    Idle,
    /// Answer the waiting request with this response.
    Respond(HttpResponse),
    /// Evaluate this script in the webview.
    Evaluate(String),
    /// Send these messages, queued while the webview loaded, to JavaScript again.
    Deliver(Vec<IPCMessage>),
    /// Work to execute on the main thread.
    Run(T),
}

/// The round trips after a message goes from Rust to JavaScript.
pub open spec fn after_send(s: SharedView, data: Seq<u8>) -> SharedView {
    if spec_message_type(data) == Ok::<MessageType, crate::ipc::DecodeError>(MessageType::Evaluate) {
        SharedView { pending_js: s.pending_js + 1, ..s }
    } else {
        SharedView {
            pending_rust: if s.pending_rust > 0 {
                (s.pending_rust - 1) as nat
            } else {
                0nat
            },
            ..s
        }
    }
}

/// Whether a message from Rust can be handled: its type is readable, the count of
/// round trips fits, and its script can be built.
pub open spec fn send_acceptable(s: SharedView, data: Seq<u8>) -> bool {
    &&& spec_message_type(data) is Ok
    &&& s.pending_js < usize::MAX
    &&& base64_encoded_len(data.len()) <= usize::MAX
}

impl WryBindgen {
    /// The registry of the JavaScript functions.
    pub closed spec fn registry(&self) -> &'static FunctionRegistry {
        self.function_registry
    }

    /// Create a new WryBindgen instance.
    pub fn new(function_registry: &'static FunctionRegistry) -> (r: Self)
        ensures
            r.registry() == function_registry,
            r@ == (WryView {
                shared: SharedView { ongoing: false, pending_js: 0, pending_rust: 0 },
                queued: Some(Seq::empty()),
            }),
    {
        let r = WryBindgen {
            function_registry,
            shared: SharedWebviewState::new(),
            state: WebviewLoadingState::default(),
        };
        assert(r@.queued == Some(Seq::<Seq<u8>>::empty()));
        r
    }

    /// Get the initialization script that must be evaluated in the webview.
    pub fn init_script(&self) -> (r: &str)
        ensures
            r@ == self.registry().spec_script(),
    {
        self.function_registry.script()
    }

    /// Create the router of the requests of the `wry://` protocol.
    pub fn create_protocol_handler(&self) -> (r: ProtocolHandler)
        ensures
            r.registry() == self.registry(),
    {
        ProtocolHandler { function_registry: self.function_registry }
    }

    /// Whether a message from JavaScript can be handled now: its type is readable, and it
    /// would not drop a request that waits for its answer.
    pub fn accepts_request(&self, msg: &IPCMessage) -> (r: bool)
        ensures
            r == request_acceptable(self@.shared, msg@),
    {
        let evaluate = match msg.ty() {
            Ok(MessageType::Evaluate) => true,
            Ok(MessageType::Respond) => false,
            Err(_) => {
                return false;
            },
        };
        let s = &self.shared;
        let holds = evaluate || s.pending_rust_evaluates > 0 || s.pending_js_evaluates > 1;
        s.pending_rust_evaluates < usize::MAX && (!holds || !s.ongoing_request)
    }

    /// Whether a message from Rust can be handled now: its type is readable, the count of
    /// round trips fits, and its script can be built.
    pub fn accepts_send(&self, msg: &IPCMessage) -> (r: bool)
        ensures
            r == (self@.queued is Some || send_acceptable(self@.shared, msg@)),
    {
        if let WebviewLoadingState::Pending { .. } = &self.state {
            return true;
        }
        let len = msg.data().len();
        let groups: usize = len / 3 + if len % 3 > 0 { 1 } else { 0 };
        msg.ty().is_ok() && self.shared.pending_js_evaluates < usize::MAX && groups <= usize::MAX / 4
    }

    /// Handles a request to the IPC endpoint: JavaScript sent either a new call
    /// (`Evaluate`) or the answer to a call of ours (`Respond`).
    pub fn handle_ipc_request(&mut self, msg: Option<IPCMessage>) -> (r: HandlerOutcome)
        requires
            msg matches Some(m) ==> request_acceptable(old(self)@.shared, m@),
        ensures
            final(self).registry() == old(self).registry(),
            msg is None ==> r is Rejected && final(self)@ == old(self)@,
            msg matches Some(m) ==> final(self)@ == (WryView {
                shared: after_request(old(self)@.shared, m@),
                ..old(self)@
            }),
            msg matches Some(m) ==> r == (HandlerOutcome::Forward {
                hold_responder: holds_request(old(self)@.shared, m@),
                msg: m,
            }),
    {
        let message = match msg {
            Some(m) => m,
            None => {
                return HandlerOutcome::Rejected;
            },
        };
        let ty = message.ty();
        let hold = match ty {
            Ok(MessageType::Evaluate) => {
                self.shared.pending_rust_evaluates = self.shared.pending_rust_evaluates + 1;
                self.shared.set_ongoing_request();
                true
            },
            _ => {
                self.shared.pending_js_evaluates = if self.shared.pending_js_evaluates > 0 {
                    self.shared.pending_js_evaluates - 1
                } else {
                    0
                };
                if self.shared.pending_rust_evaluates > 0 || self.shared.pending_js_evaluates > 0 {
                    self.shared.set_ongoing_request();
                    true
                } else {
                    false
                }
            },
        };
        HandlerOutcome::Forward { hold_responder: hold, msg: message }
    }

    /// Handle a user event from the event loop: a message for JavaScript, the webview
    /// having loaded, or a task for the main thread.
    pub fn handle_user_event<T>(&mut self, event: AppEvent<T>) -> (r: UserEventAction<T>)
        requires
            event.spec_variant() matches AppEventVariant::Ipc(m) ==> (old(self)@.queued is None
                ==> send_acceptable(old(self)@.shared, m@)),
        ensures
            final(self).registry() == old(self).registry(),
            match event.spec_variant() {
                AppEventVariant::RunOnMainThread(t) => final(self)@ == old(self)@ && r
                    == UserEventAction::<T>::Run(t),
                AppEventVariant::WebviewLoaded => match old(self)@.queued {
                    Some(q) => final(self)@ == (WryView { queued: None, ..old(self)@ }) && (
                    r matches UserEventAction::Deliver(v) && message_views(v@) == q),
                    None => final(self)@ == old(self)@ && r is Idle,
                },
                AppEventVariant::Ipc(m) => match old(self)@.queued {
                    Some(q) => final(self)@ == (WryView {
                        queued: Some(q.push(m@)),
                        ..old(self)@
                    }) && r is Idle,
                    None => {
                        let sent = after_send(old(self)@.shared, m@);
                        &&& final(self)@ == (WryView {
                            shared: SharedView { ongoing: false, ..sent },
                            ..old(self)@
                        })
                        &&& old(self)@.shared.ongoing ==> (r matches UserEventAction::Respond(
                            resp,
                        ) && resp@ == ipc_response(m@))
                        &&& !old(self)@.shared.ongoing ==> (if spec_message_type(m@)
                            == Ok::<MessageType, crate::ipc::DecodeError>(MessageType::Evaluate) {
                            r matches UserEventAction::Evaluate(code) && code@ == evaluate_script(
                                m@,
                            )
                        } else {
                            r is Idle
                        })
                    },
                },
            },
    {
        match event.into_variant() {
            AppEventVariant::RunOnMainThread(task) => UserEventAction::Run(task),
            AppEventVariant::WebviewLoaded => {
                let mut state = WebviewLoadingState::Loaded;
                core::mem::swap(&mut state, &mut self.state);
                match state {
                    WebviewLoadingState::Pending { queued } => UserEventAction::Deliver(queued),
                    WebviewLoadingState::Loaded => UserEventAction::Idle,
                }
            },
            AppEventVariant::Ipc(msg) => {
                let mut state = WebviewLoadingState::Loaded;
                core::mem::swap(&mut state, &mut self.state);
                match state {
                    WebviewLoadingState::Pending { mut queued } => {
                        let ghost before = queued@;
                        queued.push(msg);
                        assert(message_views(queued@) =~= message_views(before).push(msg@));
                        self.state = WebviewLoadingState::Pending { queued };
                        return UserEventAction::Idle;
                    },
                    WebviewLoadingState::Loaded => {},
                }
                let is_evaluate = match msg.ty() {
                    Ok(MessageType::Evaluate) => true,
                    _ => false,
                };
                if is_evaluate {
                    self.shared.pending_js_evaluates = self.shared.pending_js_evaluates + 1;
                } else {
                    self.shared.pending_rust_evaluates = if self.shared.pending_rust_evaluates > 0 {
                        self.shared.pending_rust_evaluates - 1
                    } else {
                        0
                    };
                }
                if self.shared.has_pending_request() {
                    return UserEventAction::Respond(self.shared.respond_to_request(msg));
                }
                if is_evaluate {
                    let mut code = String::new();
                    code.append("window.evaluate_from_rust_binary(\"");
                    let data = base64_encode(msg.data());
                    code.append(data.as_str());
                    code.append("\")");
                    UserEventAction::Evaluate(code)
                } else {
                    UserEventAction::Idle
                }
            },
        }
    }
}


/// A call from JavaScript and the answer that Rust sends back leave the round trips as
/// they were, and so do a call from Rust and the answer that JavaScript sends back.
pub proof fn lemma_round_trips_balance(s: SharedView, call: Seq<u8>, answer: Seq<u8>)
    requires
        spec_message_type(call) == Ok::<MessageType, crate::ipc::DecodeError>(MessageType::Evaluate),
        spec_message_type(answer) == Ok::<MessageType, crate::ipc::DecodeError>(MessageType::Respond),
    ensures
        after_send(after_request(s, call), answer).pending_rust == s.pending_rust,
        after_send(after_request(s, call), answer).pending_js == s.pending_js,
        after_request(after_send(s, call), answer).pending_rust == s.pending_rust,
        after_request(after_send(s, call), answer).pending_js == s.pending_js,
{
}

} // verus!
