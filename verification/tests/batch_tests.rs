use wry_bindgen::batch::{add_operation, decode_response, BatchState, CallPlan, ResponseError};
use wry_bindgen::encode::PlaceholderResult;
use wry_bindgen::function::{encode_function_types, JSFunction, TypeCache};
use wry_bindgen::heap_ref::JSHeapRef;
use wry_bindgen::ipc::{DecodedData, DecodedVariant, EncodedData, IPCMessage, MessageType};
use wry_bindgen::object_store::{HandleTable, ObjectHandle};
use wry_bindgen::value::JsValue;

#[test]
fn heap_ids_start_after_the_reserved_ones() {
    let mut b = BatchState::new();
    assert_eq!(b.get_next_heap_id(), 132);
    assert_eq!(b.get_next_heap_id(), 133);
    assert_eq!(b.get_next_heap_id(), 134);
}

#[test]
fn released_ids_are_reused_last_first() {
    let mut b = BatchState::new();
    let a = b.get_next_heap_id();
    let c = b.get_next_heap_id();
    assert_eq!(b.release_heap_id(a), Some(a));
    assert_eq!(b.release_heap_id(c), Some(c));
    assert_eq!(b.get_next_heap_id(), c);
    assert_eq!(b.get_next_heap_id(), a);
    assert_eq!(b.get_next_heap_id(), 134);
}

#[test]
fn ids_released_during_an_operation_wait_for_its_end() {
    let mut b = BatchState::new();
    let a = b.get_next_heap_id();
    let c = b.get_next_heap_id();
    b.push_ids_to_free();
    assert_eq!(b.release_heap_id(a), None);
    b.push_ids_to_free();
    assert_eq!(b.release_heap_id(c), None);
    // The inner operation hands its ids to the outer one.
    assert!(b.pop_and_release_ids().is_empty());
    // The outer one frees them all.
    assert_eq!(b.pop_and_release_ids(), vec![a, c]);
    assert_eq!(b.get_next_heap_id(), c);
    assert!(b.pop_and_release_ids().is_empty());
}

#[test]
fn borrow_ids_count_down_and_frames_restore_them() {
    let mut b = BatchState::new();
    assert_eq!(b.get_next_borrow_id(), 127);
    b.push_borrow_frame();
    assert_eq!(b.get_next_borrow_id(), 126);
    assert_eq!(b.get_next_borrow_id(), 125);
    b.pop_borrow_frame();
    assert_eq!(b.get_next_borrow_id(), 126);
}

#[test]
fn nested_borrow_frames_restore_the_saved_pointer() {
    let mut b = BatchState::new();
    b.push_borrow_frame();
    assert_eq!(b.get_next_borrow_id(), 127);
    b.push_borrow_frame();
    assert_eq!(b.get_next_borrow_id(), 126);
    assert_eq!(b.get_next_borrow_id(), 125);
    b.pop_borrow_frame();
    assert_eq!(b.get_next_borrow_id(), 126);
    b.pop_borrow_frame();
    assert_eq!(b.get_next_borrow_id(), 127);
}

#[test]
fn placeholders_take_heap_ids() {
    let mut b = BatchState::new();
    let v = JsValue::batched_placeholder(&mut b);
    assert_eq!(v.id(), 132);
    let r = JSHeapRef::batched_placeholder(&mut b);
    assert_eq!(r.id, 133);
    <()>::batched_placeholder(&mut b);
    assert_eq!(b.get_next_heap_id(), 134);
}

#[test]
fn operations_queue_behind_the_batch() {
    let mut b = BatchState::new();
    assert!(b.is_empty());
    let mut batch = b.begin_operation();
    let mut args = EncodedData::new();
    args.push_u32(11);
    add_operation(&mut batch, 7, &args);
    // A call made while the arguments were encoded lands in the state's encoder.
    let mut nested = EncodedData::new();
    nested.push_u8(0);
    nested.push_u32(3);
    b.extend_encoder(&nested);
    b.end_operation_encoding(batch);
    assert!(!b.is_empty());
    assert!(b.pop_and_release_ids().is_empty());
    let msg = b.take_message();
    assert!(b.is_empty());
    assert_eq!(msg.ty(), Ok(MessageType::Evaluate));
    match msg.decoded().unwrap() {
        DecodedVariant::Evaluate { mut data } => {
            assert_eq!(data.take_u32(), Ok(7));
            assert_eq!(data.take_u32(), Ok(11));
            assert_eq!(data.take_u32(), Ok(3));
            assert!(data.is_empty());
        }
        DecodedVariant::Respond { .. } => panic!("expected an evaluate message"),
    }
}

#[test]
fn batching_flag() {
    let mut b = BatchState::new();
    assert!(!b.is_batching());
    b.set_batching(true);
    assert!(b.is_batching());
}

#[test]
fn responses_must_hold_exactly_the_value() {
    let mut payload = EncodedData::new();
    payload.push_u32(9);
    let m = IPCMessage::new_respond(&payload);
    if let DecodedVariant::Respond { mut data } = m.decoded().unwrap() {
        assert_eq!(decode_response::<u32>(&mut data).ok(), Some(9));
    } else {
        panic!("expected a respond message");
    }

    let mut extra = EncodedData::new();
    extra.push_u32(9);
    extra.push_u32(10);
    let m = IPCMessage::new_respond(&extra);
    if let DecodedVariant::Respond { mut data } = m.decoded().unwrap() {
        assert!(matches!(decode_response::<u32>(&mut data), Err(ResponseError::TrailingData)));
    }

    let empty = EncodedData::new();
    let m = IPCMessage::new_respond(&empty);
    if let DecodedVariant::Respond { mut data } = m.decoded().unwrap() {
        assert!(matches!(decode_response::<u32>(&mut data), Err(ResponseError::Decode(_))));
    }
}

#[test]
fn type_definitions_are_sent_once_then_by_id() {
    let mut cache = TypeCache::new();
    let mut e = EncodedData::new();
    encode_function_types(&mut e, &mut cache, vec![1, 4, 16]);
    encode_function_types(&mut e, &mut cache, vec![0, 0]);
    encode_function_types(&mut e, &mut cache, vec![1, 4, 16]);
    let bytes = e.to_bytes();
    let mut d = DecodedData::from_bytes(&bytes).unwrap();
    assert_eq!(d.take_u8(), Ok(0xFE));
    assert_eq!(d.take_u32(), Ok(0));
    assert_eq!(d.take_u8(), Ok(1));
    assert_eq!(d.take_u8(), Ok(4));
    assert_eq!(d.take_u8(), Ok(16));
    assert_eq!(d.take_u8(), Ok(0xFE));
    assert_eq!(d.take_u32(), Ok(1));
    assert_eq!(d.take_u8(), Ok(0));
    assert_eq!(d.take_u8(), Ok(0));
    assert_eq!(d.take_u8(), Ok(0xFF));
    assert_eq!(d.take_u32(), Ok(0));
    assert!(d.is_empty());
}

#[test]
fn function_call_data_is_types_then_arguments() {
    let f: JSFunction<fn(u32) -> ()> = JSFunction::new(5);
    assert_eq!(f.id(), 5);
    let mut cache = TypeCache::new();
    let mut args = EncodedData::new();
    args.push_u32(99);
    let data = f.call_data(&mut cache, vec![1, 4, 0], &args);
    let mut framed = EncodedData::new();
    framed.push_u8(0);
    framed.extend(&data);
    let bytes = framed.to_bytes();
    let mut d = DecodedData::from_bytes(&bytes).unwrap();
    assert_eq!(d.take_u8(), Ok(0));
    assert_eq!(d.take_u8(), Ok(0xFE));
    assert_eq!(d.take_u32(), Ok(0));
    assert_eq!(d.take_u32(), Ok(99));
}

#[test]
fn only_handed_out_ids_are_live() {
    let mut b = BatchState::new();
    assert!(!b.holds_live_id(5));
    assert!(!b.holds_live_id(132));
    let a = b.get_next_heap_id();
    let c = b.get_next_heap_id();
    assert!(b.holds_live_id(a));
    assert!(b.holds_live_id(c));
    b.release_heap_id(a);
    assert!(!b.holds_live_id(a));
    b.push_ids_to_free();
    b.release_heap_id(c);
    assert!(!b.holds_live_id(c));
}

#[test]
fn ids_never_handed_out_are_dropped_at_once_and_not_reused() {
    let mut b = BatchState::new();
    assert!(!b.may_release(5));
    assert!(b.may_release(500));
    assert_eq!(b.release_heap_id(500), Some(500));
    b.push_ids_to_free();
    assert_eq!(b.release_heap_id(501), Some(501));
    assert!(b.pop_and_release_ids().is_empty());
    assert_eq!(b.get_next_heap_id(), 132);
    assert!(b.may_release(132));
    assert_eq!(b.release_heap_id(132), Some(132));
    assert!(!b.may_release(132));
    assert_eq!(b.get_next_heap_id(), 132);
    assert_eq!(b.get_next_heap_id(), 133);
}

#[test]
fn call_plan_follows_flush_need_and_batching() {
    let mut b = BatchState::new();
    assert_eq!(b.call_plan(true), CallPlan::FlushAndDecode);
    assert_eq!(b.call_plan(false), CallPlan::FlushThenPlaceholder);
    b.set_batching(true);
    assert_eq!(b.call_plan(false), CallPlan::Placeholder);
    assert_eq!(b.call_plan(true), CallPlan::FlushAndDecode);
}

#[test]
fn handle_table_gives_back_what_was_inserted() {
    let mut t = HandleTable::new();
    assert!(t.has_room());
    let a = t.insert(77);
    let b = t.insert(99);
    assert_eq!(a, ObjectHandle(0));
    assert_eq!(b, ObjectHandle(1));
    assert_eq!(t.get(a), Some(77));
    assert_eq!(t.get(b), Some(99));
    assert_eq!(t.get(ObjectHandle(5)), None);
    assert_eq!(t.remove(a), Some(77));
    assert_eq!(t.get(a), None);
    assert_eq!(t.remove(a), None);
    // Handles are not reused after a removal.
    assert_eq!(t.insert(5), ObjectHandle(2));
    assert_eq!(t.get(b), Some(99));
    // Other insertions and removals leave an entry in place until it is removed.
    let c = t.insert(11);
    t.insert(12);
    assert_eq!(t.remove(b), Some(99));
    t.insert(13);
    assert_eq!(t.remove(c), Some(11));
    assert_eq!(t.get(c), None);
}

#[test]
fn undefined_and_null_constants_are_known_without_asking() {
    assert!(JsValue::undefined().is_undefined_constant());
    assert!(!JsValue::undefined().is_null_constant());
    assert!(JsValue::null().is_null_constant());
    assert!(!JsValue::from_id(200).is_undefined_constant());
    assert!(!JsValue::from_bool(true).is_null_constant());
    assert!(BatchState::new().can_alloc());
}
