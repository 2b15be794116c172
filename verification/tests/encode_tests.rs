use wry_bindgen::closure::Clamped;
use wry_bindgen::encode::{BinaryDecode, BinaryEncode, EncodeTypeDef, TypeTag, TYPE_CACHED, TYPE_FULL};
use wry_bindgen::heap_ref::JSHeapRef;
use wry_bindgen::ipc::{DecodeError, DecodedData, EncodedData};
use wry_bindgen::object_store::ObjectHandle;
use wry_bindgen::value::JsValue;

fn round_trip<T: BinaryEncode + BinaryDecode>(v: T) -> T {
    let mut e = EncodedData::new();
    v.encode(&mut e);
    let bytes = e.to_bytes();
    let mut d = DecodedData::from_bytes(&bytes).unwrap();
    let r = T::decode(&mut d).unwrap();
    assert!(d.is_empty());
    r
}

fn type_def<T: EncodeTypeDef>() -> Vec<u8> {
    let mut buf = Vec::new();
    T::encode_type_def(&mut buf);
    buf
}

#[test]
fn integers_round_trip() {
    assert_eq!(round_trip(true), true);
    assert_eq!(round_trip(false), false);
    assert_eq!(round_trip(200u8), 200u8);
    assert_eq!(round_trip(60000u16), 60000u16);
    assert_eq!(round_trip(4_000_000_000u32), 4_000_000_000u32);
    assert_eq!(round_trip(u64::MAX - 5), u64::MAX - 5);
    assert_eq!(round_trip(u128::MAX - 7), u128::MAX - 7);
    assert_eq!(round_trip(-5i8), -5i8);
    assert_eq!(round_trip(-300i16), -300i16);
    assert_eq!(round_trip(-70000i32), -70000i32);
    assert_eq!(round_trip(i64::MIN), i64::MIN);
    assert_eq!(round_trip(i128::MIN + 1), i128::MIN + 1);
    assert_eq!(round_trip(12345usize), 12345usize);
    assert_eq!(round_trip(-12345isize), -12345isize);
}

#[test]
fn strings_options_vectors_round_trip() {
    assert_eq!(round_trip(String::from("wry ✓")), "wry ✓");
    assert_eq!(round_trip(Some(9u32)), Some(9u32));
    assert_eq!(round_trip(None::<u32>), None);
    assert_eq!(round_trip(vec![1u16, 2, 3]), vec![1u16, 2, 3]);
    assert_eq!(
        round_trip(vec![String::from("a"), String::from("bc")]),
        vec![String::from("a"), String::from("bc")]
    );
    assert_eq!(round_trip(Vec::<u8>::new()), Vec::<u8>::new());
    assert_eq!(round_trip(Clamped(vec![0u8, 128, 255])).0, vec![0u8, 128, 255]);
    assert_eq!(round_trip(ObjectHandle(77)), ObjectHandle(77));
    assert_eq!(round_trip(JSHeapRef { id: 1 << 40 }), JSHeapRef { id: 1 << 40 });
}

#[test]
fn bool_decodes_any_nonzero_as_true() {
    let mut e = EncodedData::new();
    e.push_u8(2);
    let bytes = e.to_bytes();
    let mut d = DecodedData::from_bytes(&bytes).unwrap();
    assert_eq!(bool::decode(&mut d), Ok(true));
}

#[test]
fn vector_decoding_stops_at_the_first_failure() {
    let mut e = EncodedData::new();
    e.push_u32(3);
    e.push_u8(1);
    let bytes = e.to_bytes();
    let mut d = DecodedData::from_bytes(&bytes).unwrap();
    assert_eq!(Vec::<u8>::decode(&mut d), Err(DecodeError::U8BufferEmpty));
}

#[test]
fn result_decodes_by_its_flag() {
    let mut e = EncodedData::new();
    e.push_u8(1);
    e.push_u32(5);
    e.push_u8(0);
    e.push_str("bad");
    let bytes = e.to_bytes();
    let mut d = DecodedData::from_bytes(&bytes).unwrap();
    assert_eq!(Result::<u32, String>::decode(&mut d), Ok(Ok(5)));
    assert_eq!(Result::<u32, String>::decode(&mut d), Ok(Err(String::from("bad"))));
}

#[test]
fn js_values_encode_their_heap_id() {
    let mut e = EncodedData::new();
    JsValue::from_id(0x1_0000_0002).encode(&mut e);
    (&JsValue::null()).encode(&mut e);
    let bytes = e.to_bytes();
    let mut d = DecodedData::from_bytes(&bytes).unwrap();
    assert_eq!(d.take_u64(), Ok(0x1_0000_0002));
    assert_eq!(d.take_u64(), Ok(129));
}

#[test]
fn type_definitions_use_the_tags() {
    assert_eq!(type_def::<()>(), vec![0]);
    assert_eq!(type_def::<bool>(), vec![1]);
    assert_eq!(type_def::<u32>(), vec![4]);
    assert_eq!(type_def::<i64>(), vec![10]);
    assert_eq!(type_def::<String>(), vec![16]);
    assert_eq!(type_def::<JsValue>(), vec![17]);
    assert_eq!(type_def::<Option<u8>>(), vec![19, 2]);
    assert_eq!(type_def::<Result<u16, String>>(), vec![20, 3, 16]);
    assert_eq!(type_def::<Vec<Option<i8>>>(), vec![21, 19, 7]);
    assert_eq!(type_def::<Clamped<Vec<u8>>>(), vec![23]);
    assert_eq!(type_def::<ObjectHandle>(), vec![4]);
    assert_eq!(TypeTag::StringEnum.as_u8(), 24);
    assert_eq!(TYPE_CACHED, 0xFF);
    assert_eq!(TYPE_FULL, 0xFE);
}
