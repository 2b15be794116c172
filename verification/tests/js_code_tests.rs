use wry_bindgen::js_code::{
    function_registry_name, generate_instanceof_js_code, generate_js_code,
    generate_static_js_code, generate_vendor_prefixed_constructor, wrap_body_with_try_catch,
    JsCode, JsImportKind,
};

fn code(kind: JsImportKind, args: usize, namespace: Option<Vec<String>>, catch: bool) -> (String, String) {
    let vendors = vec![(String::from("AudioContext"), vec![String::from("webkit")])];
    let c = generate_js_code("go", &namespace, args, &kind, catch, &vendors, "");
    (c.params, c.body)
}

#[test]
fn arrow_functions_join_params_and_body() {
    let c = JsCode { params: String::from("(a0)"), body: String::from("f(a0)") };
    assert_eq!(c.to_arrow_function(), "(a0) => f(a0)");
}

#[test]
fn catching_bodies_are_wrapped() {
    assert_eq!(
        wrap_body_with_try_catch("f()"),
        "{{ try {{ return {{ ok: f() }}; }} catch(e) {{ return {{ err: e }}; }} }}"
    );
    let (_, body) = code(JsImportKind::Normal, 0, None, true);
    assert_eq!(body, "{{ try {{ return {{ ok: go() }}; }} catch(e) {{ return {{ err: e }}; }} }}");
}

#[test]
fn code_of_each_kind_of_import() {
    assert_eq!(code(JsImportKind::Normal, 2, None, false), ("(a0, a1)".into(), "go(a0, a1)".into()));
    assert_eq!(code(JsImportKind::Method, 0, None, false), ("(obj)".into(), "obj.go()".into()));
    assert_eq!(code(JsImportKind::Method, 1, None, false), ("(obj, a0)".into(), "obj.go(a0)".into()));
    assert_eq!(
        code(JsImportKind::Getter { property: "title".into() }, 0, None, false),
        ("(obj)".into(), "obj.title".into())
    );
    assert_eq!(
        code(JsImportKind::Setter { property: "title".into() }, 1, None, false),
        ("(obj, value)".into(), "obj.title = value".into())
    );
    assert_eq!(
        code(JsImportKind::Constructor { class: "Date".into() }, 1, None, false),
        ("(a0)".into(), "new Date(a0)".into())
    );
    assert_eq!(
        code(JsImportKind::StaticMethod { class: "Date".into() }, 0, Some(vec!["globalThis".into()]), false),
        ("()".into(), "globalThis.Date.go()".into())
    );
    assert_eq!(
        code(JsImportKind::Normal, 0, Some(vec!["a".into(), "b".into()]), false),
        ("()".into(), "a.b.go()".into())
    );
    assert_eq!(code(JsImportKind::Normal, 0, Some(vec![]), false), ("()".into(), "go()".into()));
}

#[test]
fn constructors_fall_back_to_vendor_names() {
    assert_eq!(
        code(JsImportKind::Constructor { class: "AudioContext".into() }, 0, None, false).1,
        "new ((typeof AudioContext !== 'undefined' ? AudioContext : (typeof webkitAudioContext !== 'undefined' ? webkitAudioContext : undefined)))()"
    );
    assert_eq!(
        generate_vendor_prefixed_constructor("X", &vec!["moz".into(), "webkit".into()], "w."),
        "(typeof w.X !== 'undefined' ? w.X : (typeof w.mozX !== 'undefined' ? w.mozX : (typeof w.webkitX !== 'undefined' ? w.webkitX : undefined)))"
    );
    assert_eq!(
        generate_vendor_prefixed_constructor("MyApi", &vec!["webkit".into(), "moz".into()], ""),
        "(typeof MyApi !== 'undefined' ? MyApi : (typeof webkitMyApi !== 'undefined' ? webkitMyApi : (typeof mozMyApi !== 'undefined' ? mozMyApi : undefined)))"
    );
    assert_eq!(generate_vendor_prefixed_constructor("Y", &vec![], ""), "(typeof Y !== 'undefined' ? Y : )");
}

fn balanced(s: &str) -> bool {
    let mut depth: i64 = 0;
    for c in s.chars() {
        if c == '(' {
            depth += 1;
        } else if c == ')' {
            depth -= 1;
            if depth < 0 {
                return false;
            }
        }
    }
    depth == 0
}

#[test]
fn vendor_expressions_close_every_parenthesis() {
    for n in 0..5usize {
        let prefixes: Vec<String> = (0..n).map(|i| format!("v{}", i)).collect();
        assert!(balanced(&generate_vendor_prefixed_constructor("C", &prefixes, "p.")));
        assert!(balanced(&generate_instanceof_js_code("C", &prefixes)));
    }
}

#[test]
fn static_code_reads_the_name_under_its_namespace() {
    assert_eq!(generate_static_js_code("window", &None, ""), "() => window");
    assert_eq!(
        generate_static_js_code("PI", &Some(vec!["Math".to_string()]), "module_1."),
        "() => module_1.Math.PI"
    );
    assert_eq!(generate_static_js_code("x", &Some(vec![]), "p."), "() => p.x");
}

#[test]
fn instanceof_checks_fall_back_to_vendor_names() {
    assert_eq!(generate_instanceof_js_code("Element", &vec![]), "(a0) => a0 instanceof Element");
    assert_eq!(
        generate_instanceof_js_code("AudioContext", &vec!["webkit".to_string()]),
        "(a0) => a0 instanceof (typeof AudioContext !== 'undefined' ? AudioContext : (typeof webkitAudioContext !== 'undefined' ? webkitAudioContext : Object))"
    );
    assert_eq!(
        generate_instanceof_js_code("Foo", &vec!["webkit".to_string(), "moz".to_string()]),
        "(a0) => a0 instanceof (typeof Foo !== 'undefined' ? Foo : (typeof webkitFoo !== 'undefined' ? webkitFoo : (typeof mozFoo !== 'undefined' ? mozFoo : Object)))"
    );
}

#[test]
fn registry_names_follow_the_kind() {
    assert_eq!(function_registry_name("log", &JsImportKind::Normal, &None, &Some(vec!["console".to_string()])), "console::log");
    assert_eq!(function_registry_name("alert", &JsImportKind::Normal, &None, &None), "alert");
    assert_eq!(function_registry_name("focus", &JsImportKind::Method, &None, &None), "global::focus");
    assert_eq!(
        function_registry_name("id", &JsImportKind::Getter { property: "id".to_string() }, &Some("Element".to_string()), &None),
        "Element::id"
    );
    assert_eq!(
        function_registry_name("new", &JsImportKind::Constructor { class: "Foo".to_string() }, &None, &None),
        "Foo::new"
    );
    assert_eq!(
        function_registry_name("from", &JsImportKind::StaticMethod { class: "Array".to_string() }, &None, &None),
        "Array::from"
    );
}
