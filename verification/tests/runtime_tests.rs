use wry_bindgen::cast::{is_instance_of, unchecked_into, JsCast};
use wry_bindgen::closure::{Closure, JsError, UnwrapThrowExt};
use wry_bindgen::convert::{FromWasmAbi, IntoWasmAbi, RefFromBinaryDecode, RefFromWasmAbi};
use wry_bindgen::batch::BatchState;
use wry_bindgen::function::{CALL_EXPORT_FN_ID, DROP_NATIVE_REF_FN_ID};
use wry_bindgen::ipc::{DecodeError, DecodedData, EncodedData};
use wry_bindgen::registry::JsExportSpec;
use wry_bindgen::runtime::{find_export, parse_callback_request, AppEvent, AppEventVariant, CallbackRequest};
use wry_bindgen::text::{push_decimal, push_hex, str_eq, str_lt_exec};
use wry_bindgen::value::JsValue;

fn request(e: &EncodedData) -> Result<CallbackRequest, DecodeError> {
    let bytes = e.to_bytes();
    let mut d = DecodedData::from_bytes(&bytes).unwrap();
    parse_callback_request(&mut d)
}

#[test]
fn callback_requests_are_told_apart_by_function_id() {
    let mut e = EncodedData::new();
    e.push_u32(0);
    e.push_u32(17);
    assert!(matches!(request(&e), Ok(CallbackRequest::Callback { key: 17 })));

    let mut e = EncodedData::new();
    e.push_u32(DROP_NATIVE_REF_FN_ID);
    e.push_u32(4);
    match request(&e) {
        Ok(CallbackRequest::DropNativeRef { handle }) => assert_eq!(handle.0, 4),
        _ => panic!("expected a drop request"),
    }

    let mut e = EncodedData::new();
    e.push_u32(CALL_EXPORT_FN_ID);
    e.push_str("Counter::new");
    match request(&e) {
        Ok(CallbackRequest::CallExport { name }) => assert_eq!(name, "Counter::new"),
        _ => panic!("expected an export call"),
    }

    let mut e = EncodedData::new();
    e.push_u32(3);
    assert!(matches!(request(&e), Ok(CallbackRequest::Unknown { fn_id: 3 })));

    let e = EncodedData::new();
    assert!(matches!(request(&e), Err(DecodeError::U32BufferEmpty)));

    let mut e = EncodedData::new();
    e.push_u32(CALL_EXPORT_FN_ID);
    assert!(matches!(request(&e), Err(DecodeError::U32BufferEmpty)));
}

#[test]
fn exports_are_found_by_name() {
    let exports = [JsExportSpec::new("A::new"), JsExportSpec::new("A::get"), JsExportSpec::new("A::get")];
    assert_eq!(find_export(&exports, "A::get"), Some(1));
    assert_eq!(find_export(&exports, "A::new"), Some(0));
    assert_eq!(find_export(&exports, "B::new"), None);
}

#[test]
fn app_events_keep_their_id_and_kind() {
    let e = AppEvent::<u8>::webview_loaded(3);
    assert_eq!(e.id(), 3);
    assert!(matches!(e.into_variant(), AppEventVariant::WebviewLoaded));
    let e = AppEvent::run_on_main_thread(4, 9u8);
    assert_eq!(e.id(), 4);
    assert!(matches!(e.into_variant(), AppEventVariant::RunOnMainThread(9)));
}

#[test]
fn reserved_values() {
    assert_eq!(JsValue::undefined().id(), 128);
    assert_eq!(JsValue::null().id(), 129);
    assert_eq!(JsValue::from_bool(true).id(), 130);
    assert_eq!(JsValue::from_bool(false).id(), 131);
    assert_eq!(JsValue::default().id(), 128);
    assert!(JsValue::null().is_reserved());
    assert!(!JsValue::from_id(132).is_reserved());
    assert_eq!(JsValue::from_bool(true).known_bool(), Some(Some(true)));
    assert_eq!(JsValue::from_bool(false).known_bool(), Some(Some(false)));
    assert_eq!(JsValue::null().known_bool(), Some(None));
    assert_eq!(JsValue::from_id(500).known_bool(), None);
    assert_eq!(JsValue::from_id((1 << 32) + 7).into_abi(), 7);
}

#[test]
fn casts_keep_the_value() {
    let v = JsValue::from_id(200);
    let w: JsValue = unchecked_into::<JsValue, JsValue>(v);
    assert_eq!(w.id(), 200);
    assert_eq!(JsValue::dyn_into(JsValue::from_id(201)).map(|v| v.id()), Ok(201));
    assert_eq!(JsValue::dyn_ref(&JsValue::from_id(202)).map(|v| v.id()), Some(202));
    let c: Closure<dyn Fn()> = Closure::from_js_value(JsValue::from_id(300));
    assert_eq!(c.as_js_value().id(), 300);
    assert_eq!(c.into_js_value().id(), 300);
    let e = JsError::from_js_value(JsValue::from_id(301));
    assert_eq!(e.into_js_value().id(), 301);
}

#[test]
fn every_value_is_a_js_value() {
    let v = JsValue::from_id(210);
    assert!(JsValue::instanceof(&v));
    assert!(is_instance_of::<JsValue, JsValue>(&v));
    assert!(JsValue::dyn_ref(&v).is_some());
}

#[test]
fn abi_conversions() {
    assert_eq!(IntoWasmAbi::into_abi(&JsValue::from_id(5)), 5);
    assert_eq!(IntoWasmAbi::into_abi(Some(JsValue::from_id(6))), 6);
    assert_eq!(IntoWasmAbi::into_abi(None::<JsValue>), 0);
    assert_eq!(<JsValue as FromWasmAbi>::from_abi(9).id(), 9);
    assert_eq!(<JsValue as RefFromWasmAbi>::ref_from_abi(10).id(), 10);
}

#[test]
fn borrowed_references_take_borrow_ids() {
    let mut batch = BatchState::new();
    let e = EncodedData::new();
    let bytes = e.to_bytes();
    let mut d = DecodedData::from_bytes(&bytes).unwrap();
    let a = JsValue::ref_decode(&mut d, &mut batch).unwrap();
    let b = JsValue::ref_decode(&mut d, &mut batch).unwrap();
    assert_eq!(a.get().id(), 127);
    assert_eq!(b.get().id(), 126);
}

#[test]
fn unwrapping_values() {
    assert_eq!(Some(3).unwrap_throw(), 3);
    assert_eq!(Ok::<u8, String>(4).expect_throw("no value"), 4);
}

#[test]
fn text_helpers() {
    let mut s = String::new();
    push_decimal(&mut s, 0);
    s.push(' ');
    push_decimal(&mut s, 18446744073709551615);
    s.push(' ');
    push_hex(&mut s, 255);
    s.push(' ');
    push_hex(&mut s, 0);
    assert_eq!(s, "0 18446744073709551615 ff 0");
    assert!(str_eq("abc", "abc"));
    assert!(!str_eq("abc", "abd"));
    assert!(str_lt_exec("Alpha", "Beta"));
    assert!(str_lt_exec("ab", "abc"));
    assert!(!str_lt_exec("b", "ab"));
    assert!(!str_lt_exec("x", "x"));
}
