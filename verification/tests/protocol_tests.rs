use wry_bindgen::ipc::{EncodedData, IPCMessage};
use wry_bindgen::protocol::{
    blank_response, error_response, module_response, not_found_response, path_of, root_response,
    HandlerOutcome, Route, UserEventAction, WryBindgen,
};
use wry_bindgen::registry::{FunctionRegistry, InlineJsModule, JsFunctionSpec};
use wry_bindgen::runtime::AppEvent;

fn registry() -> &'static FunctionRegistry {
    let modules = [InlineJsModule::new("export const x = 1;")];
    let specs = vec![JsFunctionSpec::new(1, String::from("() => 1"))];
    Box::leak(Box::new(FunctionRegistry::collect(&modules, specs, &[])))
}

fn message(kind: u8) -> IPCMessage {
    let mut e = EncodedData::new();
    e.push_u8(kind);
    IPCMessage::new(e.to_bytes())
}

#[test]
fn simple_responses() {
    let b = blank_response();
    assert_eq!((b.status, b.headers.len(), b.body.len()), (200, 0, 0));
    let e = error_response();
    assert_eq!((e.status, e.headers.len(), e.body.len()), (400, 0, 0));
    let n = not_found_response();
    assert_eq!(n.status, 404);
    assert_eq!(n.body, b"Not Found".to_vec());
    let m = module_response("export const y = 2;");
    assert_eq!(m.status, 200);
    assert_eq!(
        m.headers,
        vec![(String::from("Content-Type"), String::from("application/javascript"))]
    );
    assert_eq!(m.body, b"export const y = 2;".to_vec());
}

#[test]
fn root_page_loads_the_script_of_its_webview() {
    let r = root_response(42);
    assert_eq!(r.status, 200);
    assert_eq!(
        r.headers,
        vec![
            (String::from("Content-Type"), String::from("text/html")),
            (String::from("access-control-allow-origin"), String::from("*")),
        ]
    );
    let html = String::from_utf8(r.body).unwrap();
    assert_eq!(
        html,
        "<!DOCTYPE html>\n<html>\n<head>\n    <title>Wry Test</title>\n    <script src=\"/__wbg__/42/init.js\"></script>\n</head>\n<body>\n</body>\n</html>"
    );
}

#[test]
fn request_paths_drop_the_scheme_and_slashes() {
    assert_eq!(path_of("wry://index"), "index");
    assert_eq!(path_of("wry://ready/"), "ready");
    assert_eq!(path_of("wry://a/wry://b//"), "a/b");
    assert_eq!(path_of("///x///"), "x");
    assert_eq!(path_of("wry://"), "");
    assert_eq!(path_of("wry:/x"), "wry:/x");
}

#[test]
fn requests_are_routed_by_path() {
    let w = WryBindgen::new(registry());
    let h = w.create_protocol_handler();
    assert!(matches!(h.route("wry://index"), Route::Index));
    assert!(matches!(h.route("wry://ready"), Route::Ready));
    assert!(matches!(h.route("wry://handler/"), Route::Handler));
    assert!(matches!(h.route("wry://snippets/none.js"), Route::NotFound));
    assert!(matches!(h.route("wry://favicon.ico"), Route::Other));
    assert!(w.init_script().starts_with("(async () => {\n"));
}

#[test]
fn messages_wait_until_the_webview_loads() {
    let mut w = WryBindgen::new(registry());
    let first = message(0);
    let first_bytes = first.data().to_vec();
    assert!(matches!(
        w.handle_user_event(AppEvent::<()>::ipc(1, first)),
        UserEventAction::Idle
    ));
    match w.handle_user_event(AppEvent::<()>::webview_loaded(1)) {
        UserEventAction::Deliver(queued) => {
            assert_eq!(queued.len(), 1);
            assert_eq!(queued[0].data(), &first_bytes[..]);
        }
        _ => panic!("expected the queued messages"),
    }
    assert!(matches!(
        w.handle_user_event(AppEvent::<()>::webview_loaded(1)),
        UserEventAction::Idle
    ));
    match w.handle_user_event(AppEvent::<()>::ipc(1, message(0))) {
        UserEventAction::Evaluate(code) => {
            assert_eq!(code, "window.evaluate_from_rust_binary(\"DAAAAAwAAAANAAAAAA==\")")
        }
        _ => panic!("expected a script to evaluate"),
    }
    match w.handle_user_event(AppEvent::run_on_main_thread(1, 5u8)) {
        UserEventAction::Run(t) => assert_eq!(t, 5),
        _ => panic!("expected the work for the main thread"),
    }
}

#[test]
fn a_call_from_javascript_holds_its_request_until_answered() {
    let mut w = WryBindgen::new(registry());
    w.handle_user_event(AppEvent::<()>::webview_loaded(1));
    assert!(matches!(w.handle_ipc_request(None), HandlerOutcome::Rejected));
    match w.handle_ipc_request(Some(message(0))) {
        HandlerOutcome::Forward { hold_responder, msg } => {
            assert!(hold_responder);
            assert_eq!(msg.data()[12], 0);
        }
        HandlerOutcome::Rejected => panic!("expected the message to be forwarded"),
    }
    let answer = message(1);
    let answer_bytes = answer.data().to_vec();
    match w.handle_user_event(AppEvent::<()>::ipc(1, answer)) {
        UserEventAction::Respond(resp) => {
            assert_eq!(resp.status, 200);
            assert_eq!(
                resp.headers,
                vec![(String::from("Content-Type"), String::from("application/octet-stream"))]
            );
            assert_eq!(resp.body, answer_bytes);
        }
        _ => panic!("expected the held request to be answered"),
    }
    // An answer from JavaScript with nothing left open is answered blank.
    match w.handle_ipc_request(Some(message(1))) {
        HandlerOutcome::Forward { hold_responder, .. } => assert!(!hold_responder),
        HandlerOutcome::Rejected => panic!("expected the message to be forwarded"),
    }
}
