use wry_bindgen::attrs::{
    attr_kind_of_name, extract_wasm_bindgen_attrs, parse_attrs, unknown_attr_message, AttrKind,
    BindgenAttr, BindgenAttrs, ItemAttr,
};

fn s(x: &str) -> String {
    x.to_string()
}

#[test]
fn no_attributes_parse_to_the_empty_record() {
    let a = parse_attrs(vec![]).unwrap();
    assert!(!a.is_method());
    assert!(a.js_name().is_none());
    assert!(a.extends.is_empty());
    assert_eq!(a.crate_path_tokens(), "wasm_bindgen");
}

#[test]
fn attributes_are_recorded() {
    let a = parse_attrs(vec![
        BindgenAttr::Method,
        BindgenAttr::JsName(s("getAttribute")),
        BindgenAttr::JsClass(s("Element")),
        BindgenAttr::Getter(Some(s("id"))),
        BindgenAttr::Catch,
        BindgenAttr::Crate(s("crate")),
        BindgenAttr::JsNamespace(vec![s("a"), s("b")]),
    ])
    .unwrap();
    assert!(a.is_method());
    assert!(a.is_getter());
    assert!(!a.is_setter());
    assert!(a.catch);
    assert_eq!(a.js_name(), Some("getAttribute"));
    assert_eq!(a.js_class(), Some("Element"));
    assert_eq!(a.getter, Some(Some(s("id"))));
    assert_eq!(a.crate_path_tokens(), "crate");
    assert_eq!(a.js_namespace, Some(vec![s("a"), s("b")]));
}

#[test]
fn repeatable_attributes_accumulate_in_order() {
    let a = parse_attrs(vec![
        BindgenAttr::Extends(s("Node")),
        BindgenAttr::VendorPrefix(s("webkit")),
        BindgenAttr::Extends(s("EventTarget")),
        BindgenAttr::VendorPrefix(s("moz")),
    ])
    .unwrap();
    assert_eq!(a.extends, vec![s("Node"), s("EventTarget")]);
    assert_eq!(a.vendor_prefixes, vec![s("webkit"), s("moz")]);
}

#[test]
fn a_repeated_attribute_is_refused() {
    match parse_attrs(vec![BindgenAttr::Method, BindgenAttr::Catch, BindgenAttr::Method]) {
        Err(e) => assert_eq!(e, "duplicate `method` attribute"),
        Ok(_) => panic!("accepted a duplicate"),
    }
    match parse_attrs(vec![BindgenAttr::Final, BindgenAttr::Final]) {
        Err(e) => assert_eq!(e, "duplicate `final` attribute"),
        Ok(_) => panic!("accepted a duplicate"),
    }
}

#[test]
fn the_first_refused_attribute_decides_the_error() {
    let r = parse_attrs(vec![
        BindgenAttr::Catch,
        BindgenAttr::Skip,
        BindgenAttr::Catch,
        BindgenAttr::Skip,
    ]);
    assert_eq!(r.err().unwrap(), "duplicate `catch` attribute");
}

#[test]
fn inline_js_and_module_exclude_each_other() {
    let r = parse_attrs(vec![BindgenAttr::InlineJs(s("\"x\"")), BindgenAttr::Module(s("m.js"))]);
    assert_eq!(r.err().unwrap(), "cannot specify both `module` and `inline_js`");
    let r = parse_attrs(vec![BindgenAttr::Module(s("m.js")), BindgenAttr::InlineJs(s("\"x\""))]);
    assert_eq!(r.err().unwrap(), "cannot specify both `inline_js` and `module`");
}

#[test]
fn attribute_kinds_have_their_written_names() {
    assert_eq!(AttrKind::StaticMethodOf.name(), "static_method_of");
    assert_eq!(BindgenAttr::Crate(s("x")).kind(), AttrKind::Crate);
    assert!(AttrKind::Extends.is_repeatable());
    assert!(!AttrKind::JsName.is_repeatable());
}

#[test]
fn later_wasm_bindgen_attributes_override_earlier_ones() {
    let attrs = vec![
        ItemAttr::Other,
        ItemAttr::List(Ok(vec![BindgenAttr::JsName(s("a")), BindgenAttr::Extends(s("A"))])),
        ItemAttr::Bare,
        ItemAttr::List(Ok(vec![
            BindgenAttr::JsName(s("b")),
            BindgenAttr::Extends(s("B")),
            BindgenAttr::Readonly,
        ])),
    ];
    let a = extract_wasm_bindgen_attrs(attrs).unwrap();
    assert_eq!(a.js_name(), Some("b"));
    assert_eq!(a.extends, vec![s("A"), s("B")]);
    assert!(a.readonly);
    assert!(!a.skip);
}

#[test]
fn name_value_wasm_bindgen_attributes_are_refused() {
    let r = extract_wasm_bindgen_attrs(vec![ItemAttr::NameValue]);
    assert_eq!(r.err().unwrap(), "wasm_bindgen does not support = syntax at top level");
    let r = extract_wasm_bindgen_attrs(vec![
        ItemAttr::List(Err(s("expected `=`"))),
        ItemAttr::NameValue,
    ]);
    assert_eq!(r.err().unwrap(), "expected `=`");
    let r = extract_wasm_bindgen_attrs(vec![ItemAttr::List(Ok(vec![
        BindgenAttr::Skip,
        BindgenAttr::Skip,
    ]))]);
    assert_eq!(r.err().unwrap(), "duplicate `skip` attribute");
}

#[test]
fn merge_keeps_what_the_later_record_does_not_give() {
    let mut a = parse_attrs(vec![BindgenAttr::JsClass(s("X")), BindgenAttr::Method]).unwrap();
    let b = parse_attrs(vec![BindgenAttr::JsName(s("y"))]).unwrap();
    a.merge(b);
    assert_eq!(a.js_class(), Some("X"));
    assert_eq!(a.js_name(), Some("y"));
    assert!(a.is_method());
    let d = BindgenAttrs::default();
    assert!(!d.is_structural());
}

#[test]
fn structural_typing_makes_a_method() {
    let a = parse_attrs(vec![BindgenAttr::StructuralTyping]).unwrap();
    assert!(a.is_method());
    assert!(a.is_structural());
    let m = parse_attrs(vec![BindgenAttr::Method]).unwrap();
    assert!(m.is_method());
    assert!(!m.is_structural());
}

#[test]
fn attribute_names_map_to_their_kinds() {
    assert_eq!(attr_kind_of_name("crate"), Some(AttrKind::Crate));
    assert_eq!(attr_kind_of_name("final"), Some(AttrKind::Final));
    assert_eq!(attr_kind_of_name("method"), Some(AttrKind::Method));
    assert_eq!(attr_kind_of_name("structural"), Some(AttrKind::StructuralTyping));
    assert_eq!(attr_kind_of_name("js_name"), Some(AttrKind::JsName));
    assert_eq!(attr_kind_of_name("nope"), None);
    assert_eq!(attr_kind_of_name(""), None);
    assert_eq!(unknown_attr_message("nope"), "unknown wasm_bindgen attribute: `nope`");
}
