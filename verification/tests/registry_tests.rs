use wry_bindgen::registry::{
    generate_args, FunctionRegistry, InlineJsModule, JsClassMemberKind, JsClassMemberSpec,
    JsExportSpec, JsFunctionSpec,
};

fn sample_registry() -> FunctionRegistry {
    let modules = [
        InlineJsModule::new("export function f() {}"),
        InlineJsModule::new("export function f() {}"),
        InlineJsModule::new("export const x = 1;"),
    ];
    let specs = vec![
        JsFunctionSpec::new(100, String::from("(a0) => a0")),
        JsFunctionSpec::new(200, String::from("() => 1")),
    ];
    let members = [
        JsClassMemberSpec::new("Counter", "new", "Counter::new", 1, JsClassMemberKind::Constructor),
        JsClassMemberSpec::new("Counter", "increment", "Counter::increment", 0, JsClassMemberKind::Method),
        JsClassMemberSpec::new("Counter", "count", "Counter::count", 0, JsClassMemberKind::Getter),
        JsClassMemberSpec::new("Counter", "count", "Counter::set_count", 1, JsClassMemberKind::Setter),
        JsClassMemberSpec::new("Counter", "zero", "Counter::zero", 2, JsClassMemberKind::StaticMethod),
        JsClassMemberSpec::new("Alpha", "v", "Alpha::v", 0, JsClassMemberKind::Getter),
        JsClassMemberSpec::new("Counter", "add", "Counter::add", 2, JsClassMemberKind::Method),
    ];
    FunctionRegistry::collect(&modules, specs, &members)
}

#[test]
fn fnv1a_hash_of_module_content() {
    assert_eq!(InlineJsModule::new("").const_hash(), 0xcbf29ce484222325);
    assert_eq!(InlineJsModule::new("a").const_hash(), 0xaf63dc4c8601ec8c);
    let m = InlineJsModule::new("export function f() {}");
    assert_eq!(m.const_hash(), 0xe9affd470e8e1a4c);
    assert_eq!(m.hash(), "e9affd470e8e1a4c");
    assert_eq!(m.content(), "export function f() {}");
    assert_eq!(InlineJsModule::new("").hash(), "cbf29ce484222325");
}

#[test]
fn argument_lists() {
    assert_eq!(generate_args(0), "");
    assert_eq!(generate_args(1), "a0");
    assert_eq!(generate_args(3), "a0, a1, a2");
    assert_eq!(generate_args(11).split(", ").last(), Some("a10"));
}

#[test]
fn member_specs_keep_their_fields() {
    let m = JsClassMemberSpec::new("C", "m", "C::m", 3, JsClassMemberKind::Setter);
    assert_eq!(m.class_name(), "C");
    assert_eq!(m.member_name(), "m");
    assert_eq!(m.export_name(), "C::m");
    assert_eq!(m.arg_count(), 3);
    assert_eq!(m.kind(), JsClassMemberKind::Setter);
    let e = JsExportSpec::new("C::m");
    assert_eq!(e.name, "C::m");
    let f = JsFunctionSpec::new(7, String::from("() => 0"));
    assert_eq!(f.js_code(), "() => 0");
    assert_eq!(f.code_id(), 7);
}

#[test]
fn script_loads_modules_registers_functions_and_defines_classes() {
    let r = sample_registry();
    let expected = "(async () => {\n  const module_e9affd470e8e1a4c = await import('/__wbg__/snippets/e9affd470e8e1a4c.js');\n  const module_79c339ad5ba79925 = await import('/__wbg__/snippets/79c339ad5ba79925.js');\n  window.setFunctionRegistry([(a0) => a0,\n() => 1]);\n  class Alpha {\n    constructor(handle) {\n      this.__handle = handle;\n      this.__className = \"Alpha\";\n      window.__wryExportRegistry.register(this, { handle, className: \"Alpha\" });\n    }\n    static __wrap(handle) {\n      const obj = Object.create(Alpha.prototype);\n      obj.__handle = handle;\n      obj.__className = \"Alpha\";\n      window.__wryExportRegistry.register(obj, { handle, className: \"Alpha\" });\n      return obj;\n    }\n    free() {\n      const handle = this.__handle;\n      this.__handle = 0;\n      if (handle !== 0) window.__wryCallExport(\"Alpha::__drop\", handle);\n    }\n    get v() { return window.__wryCallExport(\"Alpha::v\", this.__handle); }\n  }\n  window.Alpha = Alpha;\n  class Counter {\n    constructor(handle) {\n      this.__handle = handle;\n      this.__className = \"Counter\";\n      window.__wryExportRegistry.register(this, { handle, className: \"Counter\" });\n    }\n    static __wrap(handle) {\n      const obj = Object.create(Counter.prototype);\n      obj.__handle = handle;\n      obj.__className = \"Counter\";\n      window.__wryExportRegistry.register(obj, { handle, className: \"Counter\" });\n      return obj;\n    }\n    free() {\n      const handle = this.__handle;\n      this.__handle = 0;\n      if (handle !== 0) window.__wryCallExport(\"Counter::__drop\", handle);\n    }\n    increment() { return window.__wryCallExport(\"Counter::increment\", this.__handle); }\n    add(a0, a1) { return window.__wryCallExport(\"Counter::add\", this.__handle, a0, a1); }\n    get count() { return window.__wryCallExport(\"Counter::count\", this.__handle); }\n    set count(v) { window.__wryCallExport(\"Counter::set_count\", this.__handle, v); }\n  }\n  Counter.new = function(a0) { const handle = window.__wryCallExport(\"Counter::new\", a0); return Counter.__wrap(handle); };\n  Counter.zero = function(a0, a1) { return window.__wryCallExport(\"Counter::zero\", a0, a1); };\n  window.Counter = Counter;\n  fetch('/__wbg__/initialized', { method: 'POST', body: [] });\n})();\n";
    assert_eq!(r.script(), expected);
}

#[test]
fn modules_are_served_under_their_hash() {
    let r = sample_registry();
    assert_eq!(
        r.get_module("__wbg__/snippets/e9affd470e8e1a4c.js"),
        Some("export function f() {}")
    );
    assert_eq!(
        r.get_module("__wbg__/snippets/79c339ad5ba79925.js"),
        Some("export const x = 1;")
    );
    assert_eq!(r.get_module("__wbg__/snippets/0.js"), None);
}

#[test]
fn functions_are_found_by_declaration() {
    let r = sample_registry();
    let f = r.get_function::<fn() -> u32>(&JsFunctionSpec::new(200, String::new())).unwrap();
    assert_eq!(f.id(), 1);
    let g = r.get_function::<fn() -> u32>(&JsFunctionSpec::new(100, String::new())).unwrap();
    assert_eq!(g.id(), 0);
    assert!(r.get_function::<fn()>(&JsFunctionSpec::new(300, String::new())).is_none());
}
