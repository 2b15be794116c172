use wry_bindgen::attrs::{parse_attrs, BindgenAttr, ItemAttr};
use wry_bindgen::items::{
    check_export_method, static_method_class, ExportMethod, FunctionArg, extract_simple_type_name, parse_foreign_fn, parse_foreign_mod, parse_foreign_static,
    parse_impl_block, parse_impl_method, parse_item, parse_program, parse_string_enum,
    parse_struct, strip_set_prefix, Discriminant, EnumVariant, ExportMethodKind, FnInput,
    ForeignFn, ForeignItem, ForeignStatic, ImplBlock, ImplItem, ImplMethod, ImportFunctionKind,
    Item, ItemStruct, MethodInput, NamedField, PathArguments, PathSegment, Program, SelfType,
    StructFields, TypeShape,
};

fn s(x: &str) -> String {
    x.to_string()
}

fn path(names: &[&str]) -> TypeShape {
    TypeShape::Path {
        leading_colon: false,
        segments: names
            .iter()
            .map(|n| PathSegment { ident: s(n), arguments: PathArguments::Empty })
            .collect(),
    }
}

fn generic(name: &str, inner: TypeShape) -> TypeShape {
    TypeShape::Path {
        leading_colon: false,
        segments: vec![PathSegment {
            ident: s(name),
            arguments: PathArguments::AngleBracketed { first_type: Some(Box::new(inner)) },
        }],
    }
}

fn typed(name: &str, ty: &'static str) -> FnInput<&'static str> {
    FnInput::Typed { name: Some(s(name)), ty }
}

fn attrs(list: Vec<BindgenAttr>) -> wry_bindgen::attrs::BindgenAttrs {
    parse_attrs(list).unwrap()
}

fn foreign(name: &str, inputs: Vec<FnInput<&'static str>>, ret: Option<(&'static str, TypeShape)>) -> ForeignFn<&'static str> {
    let (ret, ret_shape) = match ret {
        Some((t, shape)) => (Some(t), shape),
        None => (None, TypeShape::Other),
    };
    ForeignFn { rust_name: s(name), is_async: false, inputs, ret, ret_shape }
}

#[test]
fn simple_type_names() {
    assert_eq!(extract_simple_type_name(&path(&["Element"])), Some(s("Element")));
    assert_eq!(extract_simple_type_name(&path(&["web_sys", "Element"])), Some(s("Element")));
    assert_eq!(
        extract_simple_type_name(&generic("Result", path(&["Element"]))),
        Some(s("Element"))
    );
    assert_eq!(
        extract_simple_type_name(&generic("Option", generic("Result", path(&["Node"])))),
        Some(s("Node"))
    );
    assert_eq!(extract_simple_type_name(&path(&["Result"])), Some(s("Result")));
    assert_eq!(extract_simple_type_name(&TypeShape::Other), None);
    let bare_result = TypeShape::Path {
        leading_colon: false,
        segments: vec![
            PathSegment { ident: s("std"), arguments: PathArguments::Empty },
            PathSegment { ident: s("Result"), arguments: PathArguments::Parenthesized },
        ],
    };
    assert_eq!(extract_simple_type_name(&bare_result), None);
}

#[test]
fn set_prefix_is_stripped_once() {
    assert_eq!(strip_set_prefix("set_value"), "value");
    assert_eq!(strip_set_prefix("set_set_x"), "set_x");
    assert_eq!(strip_set_prefix("setter"), "setter");
    assert_eq!(strip_set_prefix("set"), "set");
}

#[test]
fn method_imports_take_their_receiver_from_the_first_argument() {
    let f = foreign("get_attribute", vec![typed("this", "&Element"), typed("name", "&str")], None);
    let a = attrs(vec![BindgenAttr::Method, BindgenAttr::JsName(s("getAttribute"))]);
    let r = parse_foreign_fn(f, a).unwrap();
    assert_eq!(r.js_name, "getAttribute");
    assert_eq!(r.arguments.len(), 1);
    assert_eq!(r.arguments[0].name, "name");
    assert!(matches!(r.kind, ImportFunctionKind::Method { receiver: "&Element" }));
}

#[test]
fn accessor_imports_name_their_property() {
    let f = foreign("id", vec![typed("this", "&Element")], None);
    let r = parse_foreign_fn(f, attrs(vec![BindgenAttr::Method, BindgenAttr::Getter(None)])).unwrap();
    match r.kind {
        ImportFunctionKind::Getter { receiver, property } => {
            assert_eq!(receiver, "&Element");
            assert_eq!(property, "id");
        }
        _ => panic!("not a getter"),
    }
    let f = foreign("set_id", vec![typed("this", "&Element"), typed("v", "&str")], None);
    let r = parse_foreign_fn(f, attrs(vec![BindgenAttr::Method, BindgenAttr::Setter(None)])).unwrap();
    match r.kind {
        ImportFunctionKind::Setter { property, .. } => assert_eq!(property, "id"),
        _ => panic!("not a setter"),
    }
}

#[test]
fn constructors_name_the_class_of_their_return_type() {
    let f = foreign("new", vec![], Some(("Result<Foo, JsValue>", generic("Result", path(&["Foo"])))));
    let r = parse_foreign_fn(f, attrs(vec![BindgenAttr::Constructor, BindgenAttr::JsClass(s("Bar"))])).unwrap();
    match r.kind {
        ImportFunctionKind::Constructor { class } => assert_eq!(class, "Foo"),
        _ => panic!("not a constructor"),
    }
    let f = foreign("new", vec![], None);
    let r = parse_foreign_fn(f, attrs(vec![BindgenAttr::Constructor, BindgenAttr::JsClass(s("Bar"))])).unwrap();
    match r.kind {
        ImportFunctionKind::Constructor { class } => assert_eq!(class, "Bar"),
        _ => panic!("not a constructor"),
    }
}

#[test]
fn imports_that_cannot_be_served_are_refused() {
    let f = foreign("x", vec![FnInput::Receiver], None);
    assert_eq!(parse_foreign_fn(f, attrs(vec![])).err().unwrap(), "self receivers are not supported in extern blocks");
    let f = foreign("x", vec![FnInput::Typed { name: None, ty: "u32" }], None);
    assert_eq!(parse_foreign_fn(f, attrs(vec![])).err().unwrap(), "complex patterns not supported");
    let f = foreign("x", vec![], None);
    assert_eq!(
        parse_foreign_fn(f, attrs(vec![BindgenAttr::Method])).err().unwrap(),
        "method must have a receiver argument"
    );
    let f = foreign("x", vec![typed("this", "&A")], None);
    assert_eq!(
        parse_foreign_fn(f, attrs(vec![BindgenAttr::IndexingGetter])).err().unwrap(),
        "indexing_getter must have a receiver argument"
    );
}

#[test]
fn exported_methods_get_their_kind_from_receiver_and_attributes() {
    let m = ImplMethod {
        rust_name: s("area"),
        inputs: vec![MethodInput::Receiver { reference: true, mutable: false }, MethodInput::Typed { name: Some(s("k")), ty: "f64" }],
        ret: Some("f64"),
    };
    let e = parse_impl_method("Shape", m, attrs(vec![])).unwrap();
    assert_eq!(e.class, "Shape");
    assert_eq!(e.js_name, "area");
    assert!(matches!(e.kind, ExportMethodKind::Method { self_ty: SelfType::RefShared }));
    assert_eq!(e.arguments.len(), 1);
    let m: ImplMethod<&'static str> = ImplMethod { rust_name: s("set_width"), inputs: vec![MethodInput::Receiver { reference: true, mutable: true }], ret: None };
    let e = parse_impl_method("Shape", m, attrs(vec![BindgenAttr::Setter(None)])).unwrap();
    match e.kind {
        ExportMethodKind::Setter { property } => assert_eq!(property, "width"),
        _ => panic!("not a setter"),
    }
    let m = ImplMethod { rust_name: s("new"), inputs: vec![], ret: Some("Shape") };
    let e = parse_impl_method("Shape", m, attrs(vec![])).unwrap();
    assert!(matches!(e.kind, ExportMethodKind::StaticMethod));
    let m = ImplMethod {
        rust_name: s("bad"),
        inputs: vec![MethodInput::Typed { name: Some(s("a")), ty: "u8" }, MethodInput::Receiver { reference: false, mutable: false }],
        ret: None,
    };
    assert_eq!(parse_impl_method("Shape", m, attrs(vec![])).err().unwrap(), "self must be first argument");
}

#[test]
fn impl_blocks_export_their_public_methods() {
    let block = ImplBlock {
        has_generics: false,
        is_trait_impl: false,
        is_unsafe: false,
        self_ident: Some(s("Counter")),
        items: vec![
            ImplItem::Fn {
                is_public: true,
                attrs: vec![ItemAttr::List(Ok(vec![BindgenAttr::Constructor]))],
                method: ImplMethod { rust_name: s("new"), inputs: vec![], ret: Some("Counter") },
            },
            ImplItem::Fn {
                is_public: false,
                attrs: vec![],
                method: ImplMethod { rust_name: s("hidden"), inputs: vec![], ret: None },
            },
            ImplItem::Const,
            ImplItem::Fn {
                is_public: true,
                attrs: vec![],
                method: ImplMethod { rust_name: s("bump"), inputs: vec![MethodInput::Receiver { reference: true, mutable: true }], ret: None },
            },
        ],
    };
    let exports = parse_impl_block(block).unwrap();
    assert_eq!(exports.len(), 2);
    assert!(matches!(exports[0].kind, ExportMethodKind::Constructor));
    assert!(matches!(exports[1].kind, ExportMethodKind::Method { self_ty: SelfType::RefMutable }));
    let generic_block: ImplBlock<&'static str> = ImplBlock { has_generics: true, is_trait_impl: false, is_unsafe: false, self_ident: None, items: vec![] };
    assert_eq!(parse_impl_block(generic_block).err().unwrap(), "generic impl blocks are not supported");
    let other: ImplBlock<&'static str> = ImplBlock { has_generics: false, is_trait_impl: false, is_unsafe: false, self_ident: Some(s("A")), items: vec![ImplItem::Other] };
    assert_eq!(parse_impl_block(other).err().unwrap(), "only methods are supported in impl blocks");
}

#[test]
fn string_enums_need_string_discriminants() {
    let e = parse_string_enum(s("Color"), vec![
        EnumVariant { ident: s("Red"), is_unit: true, discriminant: Discriminant::Str(s("red")) },
        EnumVariant { ident: s("Green"), is_unit: true, discriminant: Discriminant::Str(s("green")) },
    ]).unwrap();
    assert_eq!(e.variants, vec![s("Red"), s("Green")]);
    assert_eq!(e.variant_values, vec![s("red"), s("green")]);
    let r = parse_string_enum(s("Color"), vec![EnumVariant { ident: s("Red"), is_unit: true, discriminant: Discriminant::Missing }]);
    assert_eq!(r.err().unwrap(), "wasm_bindgen string enum variants must have string discriminants (e.g., Variant = \"value\")");
    let r = parse_string_enum(s("Color"), vec![EnumVariant { ident: s("Red"), is_unit: false, discriminant: Discriminant::Other }]);
    assert_eq!(r.err().unwrap(), "wasm_bindgen string enums only support unit variants");
}

#[test]
fn mutable_statics_are_refused() {
    let st = ForeignStatic { rust_name: s("WINDOW"), mutable: false, ty: "Window" };
    let r = parse_foreign_static(st, attrs(vec![BindgenAttr::JsName(s("window")), BindgenAttr::ThreadLocalV2])).unwrap();
    assert_eq!(r.js_name, "window");
    assert!(r.thread_local_v2);
    let st = ForeignStatic { rust_name: s("X"), mutable: true, ty: "u32" };
    assert_eq!(parse_foreign_static(st, attrs(vec![])).err().unwrap(), "cannot import mutable statics");
}

#[test]
fn structs_export_their_named_fields() {
    let st = ItemStruct {
        rust_name: s("Point"),
        fields: StructFields::Named(vec![
            NamedField { ident: Some(s("x")), attrs: vec![ItemAttr::List(Ok(vec![BindgenAttr::JsName(s("xPos"))]))], ty: "f64" },
            NamedField { ident: Some(s("y")), attrs: vec![], ty: "f64" },
        ]),
    };
    let block_attrs = attrs(vec![BindgenAttr::Inspectable]);
    let e = parse_struct(st, &block_attrs).unwrap();
    assert_eq!(e.js_name, "Point");
    assert!(e.is_inspectable);
    assert_eq!(e.fields.len(), 2);
    assert_eq!(e.fields[0].js_name, "xPos");
    assert_eq!(e.fields[1].js_name, "y");
    let tuple: ItemStruct<&'static str> = ItemStruct { rust_name: s("T"), fields: StructFields::Unnamed };
    assert_eq!(parse_struct(tuple, &block_attrs).err().unwrap(), "tuple structs are not supported; use named fields");
}

#[test]
fn extern_blocks_import_their_items_in_order() {
    let mut program = Program::new(attrs(vec![]));
    let items = vec![
        ForeignItem::Type { attrs: vec![ItemAttr::List(Ok(vec![BindgenAttr::Extends(s("Node"))]))], rust_name: s("Element") },
        ForeignItem::Fn { attrs: vec![ItemAttr::List(Ok(vec![BindgenAttr::Method, BindgenAttr::Getter(None)]))], decl: foreign("id", vec![typed("this", "&Element")], None) },
        ForeignItem::Static { attrs: vec![], global: ForeignStatic { rust_name: s("DOC"), mutable: false, ty: "Document" } },
    ];
    parse_foreign_mod(&mut program, items).unwrap();
    assert_eq!(program.types.len(), 1);
    assert_eq!(program.types[0].extends, vec![s("Node")]);
    assert_eq!(program.functions.len(), 1);
    assert_eq!(program.statics.len(), 1);

    let mut program: Program<&'static str> = Program::new(attrs(vec![]));
    let items = vec![
        ForeignItem::Type { attrs: vec![], rust_name: s("A") },
        ForeignItem::Other,
        ForeignItem::Type { attrs: vec![], rust_name: s("B") },
    ];
    let r = parse_foreign_mod(&mut program, items);
    assert_eq!(r.err().unwrap(), "only functions, types, and statics are supported in extern blocks");
    // The items before the failing one were imported.
    assert_eq!(program.types.len(), 1);
    assert_eq!(program.types[0].rust_name, "A");
}

#[test]
fn items_go_where_their_kind_says() {
    let mut program: Program<&'static str> = Program::new(attrs(vec![BindgenAttr::JsName(s("P"))]));
    parse_item(&mut program, Item::Struct(ItemStruct { rust_name: s("Point"), fields: StructFields::Unit })).unwrap();
    assert_eq!(program.structs.len(), 1);
    assert_eq!(program.structs[0].js_name, "P");
    let r = parse_item(&mut program, Item::Other);
    assert_eq!(r.err().unwrap(), "wasm_bindgen attribute must be on extern \"C\" block, enum, struct, or impl block");
    assert_eq!(program.structs.len(), 1);
}

#[test]
fn a_program_is_its_attributes_and_its_item() {
    let p = parse_program(
        vec![BindgenAttr::JsNamespace(vec![s("console")])],
        Item::ForeignMod(vec![ForeignItem::Fn { attrs: vec![], decl: foreign("log", vec![typed("s", "&str")], None) }]),
    )
    .unwrap();
    assert_eq!(p.attrs.js_namespace, Some(vec![s("console")]));
    assert_eq!(p.functions.len(), 1);
    assert!(matches!(p.functions[0].kind, ImportFunctionKind::Normal));
    let r = parse_program::<&'static str>(vec![BindgenAttr::Method, BindgenAttr::Method], Item::Other);
    assert_eq!(r.err().unwrap(), "duplicate `method` attribute");
}

#[test]
fn structural_imports_take_a_receiver() {
    let f = foreign("focus", vec![typed("this", "&Element")], None);
    let r = parse_foreign_fn(f, attrs(vec![BindgenAttr::StructuralTyping])).unwrap();
    assert!(r.arguments.is_empty());
    assert!(matches!(r.kind, ImportFunctionKind::Method { receiver: "&Element" }));
}

fn export(kind: ExportMethodKind, args: usize, ret: Option<&'static str>) -> ExportMethod<&'static str> {
    ExportMethod {
        class: s("Counter"),
        rust_name: s("value"),
        js_name: s("value"),
        kind,
        arguments: (0..args).map(|i| FunctionArg { name: format!("a{}", i), ty: "u32" }).collect(),
        ret,
        catch: false,
    }
}

#[test]
fn exported_methods_are_checked_and_named() {
    assert_eq!(check_export_method(&export(ExportMethodKind::StaticMethod, 0, None)), Ok(s("Counter::value")));
    assert_eq!(
        check_export_method(&export(ExportMethodKind::Getter { property: s("value") }, 0, Some("u32"))),
        Ok(s("Counter::value"))
    );
    assert_eq!(
        check_export_method(&export(ExportMethodKind::Getter { property: s("value") }, 0, None)),
        Err(s("getter must have a return type"))
    );
    assert_eq!(
        check_export_method(&export(ExportMethodKind::Setter { property: s("value") }, 0, None)),
        Err(s("setter must have an argument"))
    );
    assert_eq!(
        check_export_method(&export(ExportMethodKind::Setter { property: s("value") }, 1, None)),
        Ok(s("Counter::value"))
    );
}

#[test]
fn field_attributes_take_effect() {
    let st = ItemStruct {
        rust_name: s("Config"),
        fields: StructFields::Named(vec![
            NamedField { ident: Some(s("secret")), attrs: vec![ItemAttr::List(Ok(vec![BindgenAttr::Skip]))], ty: "u32" },
            NamedField { ident: Some(s("id")), attrs: vec![ItemAttr::List(Ok(vec![BindgenAttr::Readonly]))], ty: "u32" },
            NamedField {
                ident: Some(s("name")),
                attrs: vec![
                    ItemAttr::List(Ok(vec![BindgenAttr::JsName(s("label"))])),
                    ItemAttr::List(Ok(vec![BindgenAttr::GetterWithClone])),
                ],
                ty: "String",
            },
        ]),
    };
    let e = parse_struct(st, &attrs(vec![])).unwrap();
    assert_eq!(e.fields.len(), 2);
    assert_eq!(e.fields[0].rust_name, "id");
    assert!(e.fields[0].readonly);
    assert!(!e.fields[0].getter_with_clone);
    assert_eq!(e.fields[1].js_name, "label");
    assert!(e.fields[1].getter_with_clone);
    assert!(!e.fields[1].readonly);
}

#[test]
fn a_namespace_naming_a_type_makes_a_static_method() {
    let types = vec![s("Math"), s("Date")];
    assert_eq!(static_method_class(&Some(vec![s("Math")]), &types), Some("Math"));
    assert_eq!(static_method_class(&Some(vec![s("console")]), &types), None);
    assert_eq!(static_method_class(&Some(vec![s("Math"), s("Date")]), &types), None);
    assert_eq!(static_method_class(&None, &types), None);
}
