//! Registry of the JavaScript snippets, inline modules and exported classes that the
//! bindings declare, and the initialization script built from them.

use vstd::prelude::*;
use vstd::string::*;
use vstd::utf8::*;
use crate::function::JSFunction;
use crate::text::{
    decimal, hex_lower, push_decimal, push_hex, str_eq, str_lt, str_lt_exec,
    lemma_bytes_lt_irreflexive, lemma_bytes_lt_total, lemma_bytes_lt_transitive,
};

verus! {

broadcast use vstd::seq::group_seq_axioms;

/// Function specification for the registry: the JavaScript code of a function and the
/// identity of the declaration it came from.
pub struct JsFunctionSpec {
    code_id: usize,
    js_code: String,
}

impl JsFunctionSpec {
    /// The identity of the declaration.
    pub closed spec fn spec_code_id(&self) -> usize {
        self.code_id
    }

    /// The JavaScript code.
    pub closed spec fn spec_js_code(&self) -> Seq<char> {
        self.js_code@
    }

    pub fn new(code_id: usize, js_code: String) -> (r: Self)
        ensures
            r.spec_code_id() == code_id,
            r.spec_js_code() == js_code@,
    {
        JsFunctionSpec { code_id, js_code }
    }

    /// Get the JS code of the function.
    pub fn js_code(&self) -> (r: &str)
        ensures
            r@ == self.spec_js_code(),
    {
        self.js_code.as_str()
    }

    /// Get the identity of the declaration.
    pub fn code_id(&self) -> (r: usize)
        ensures
            r == self.spec_code_id(),
    {
        self.code_id
    }
}

/// The FNV-1a offset basis.
pub const FNV_OFFSET_BASIS: u64 = 0xcbf29ce484222325;

/// The FNV-1a prime.
pub const FNV_PRIME: u64 = 0x100000001b3;

/// The 64-bit FNV-1a hash of a byte sequence.
pub open spec fn fnv1a(bytes: Seq<u8>) -> u64
    decreases bytes.len(),
{
    if bytes.len() == 0 {
        FNV_OFFSET_BASIS
    } else {
        (fnv1a(bytes.drop_last()) ^ (bytes.last() as u64)).wrapping_mul(FNV_PRIME)
    }
}

/// The name of a module with the given content: the lowercase hex FNV-1a hash of its bytes.
pub open spec fn module_hash(content: Seq<char>) -> Seq<char> {
    hex_lower(fnv1a(encode_utf8(content)) as nat)
}

/// The path under which a module with the given hash is served.
pub open spec fn snippet_path(hash: Seq<char>) -> Seq<char> {
    "__wbg__/snippets/"@ + hash + ".js"@
}

/// Inline JS module info
#[derive(Clone, Copy)]
pub struct InlineJsModule {
    content: &'static str,
}

impl View for InlineJsModule {
    type V = Seq<char>;

    closed spec fn view(&self) -> Seq<char> {
        self.content@
    }
}

impl InlineJsModule {
    pub fn new(content: &'static str) -> (r: Self)
        ensures
            r@ == content@,
    {
        InlineJsModule { content }
    }

    /// Get the JS module content
    pub fn content(&self) -> (r: &'static str)
        ensures
            r@ == self@,
    {
        self.content
    }

    /// The hash of the module content, in lowercase hexadecimal, for use as a file name.
    pub fn hash(&self) -> (r: String)
        ensures
            r@ == module_hash(self@),
    {
        let mut s = String::new();
        push_hex(&mut s, self.const_hash());
        s
    }

    /// The FNV-1a hash of the module content.
    pub fn const_hash(&self) -> (r: u64)
        ensures
            r == fnv1a(encode_utf8(self@)),
    {
        let mut hash: u64 = FNV_OFFSET_BASIS;
        let mut i: usize = 0;
        let bytes = self.content.as_bytes();
        while i < bytes.len()
            invariant
                i <= bytes@.len(),
                bytes@ == encode_utf8(self@),
                hash == fnv1a(bytes@.take(i as int)),
            decreases bytes@.len() - i,
        {
            assert(bytes@.take(i + 1).drop_last() =~= bytes@.take(i as int));
            hash = (hash ^ bytes[i] as u64).wrapping_mul(FNV_PRIME);
            i = i + 1;
        }
        assert(bytes@.take(i as int) =~= bytes@);
        hash
    }
}

/// Type of class member for exported Rust structs
#[derive(Clone, Copy, Debug, PartialEq, Eq, Structural)]
pub enum JsClassMemberKind {
    /// Constructor function (e.g., `Counter.new`)
    Constructor,
    /// Instance method on prototype (e.g., `Counter.prototype.increment`)
    Method,
    /// Static method on class (e.g., `Counter.staticMethod`)
    StaticMethod,
    /// Property getter (e.g., `get count()`)
    Getter,
    /// Property setter (e.g., `set count(v)`)
    Setter,
}

/// What a class member specification holds.
pub struct MemberView {
    pub class_name: Seq<char>,
    pub member_name: Seq<char>,
    pub export_name: Seq<char>,
    pub arg_count: usize,
    pub kind: JsClassMemberKind,
}

/// Specification for a member of an exported Rust class
///
/// All class members (methods, constructors, getters, setters) are collected
/// and used to generate complete class code in FunctionRegistry.
#[derive(Clone, Copy)]
pub struct JsClassMemberSpec {
    class_name: &'static str,
    member_name: &'static str,
    export_name: &'static str,
    arg_count: usize,
    kind: JsClassMemberKind,
}

impl View for JsClassMemberSpec {
    type V = MemberView;

    closed spec fn view(&self) -> MemberView {
        MemberView {
            class_name: self.class_name@,
            member_name: self.member_name@,
            export_name: self.export_name@,
            arg_count: self.arg_count,
            kind: self.kind,
        }
    }
}

impl JsClassMemberSpec {
    pub fn new(
        class_name: &'static str,
        member_name: &'static str,
        export_name: &'static str,
        arg_count: usize,
        kind: JsClassMemberKind,
    ) -> (r: Self)
        ensures
            r@ == (MemberView {
                class_name: class_name@,
                member_name: member_name@,
                export_name: export_name@,
                arg_count,
                kind,
            }),
    {
        JsClassMemberSpec { class_name, member_name, export_name, arg_count, kind }
    }

    /// Get the class name this member belongs to
    pub fn class_name(&self) -> (r: &'static str)
        ensures
            r@ == self@.class_name,
    {
        self.class_name
    }

    /// Get the JavaScript member name
    pub fn member_name(&self) -> (r: &'static str)
        ensures
            r@ == self@.member_name,
    {
        self.member_name
    }

    /// Get the export name for IPC calls
    pub fn export_name(&self) -> (r: &'static str)
        ensures
            r@ == self@.export_name,
    {
        self.export_name
    }

    /// Get the number of arguments (excluding self/handle)
    pub fn arg_count(&self) -> (r: usize)
        ensures
            r == self@.arg_count,
    {
        self.arg_count
    }

    /// Get the type of member
    pub fn kind(&self) -> (r: JsClassMemberKind)
        ensures
            r == self@.kind,
    {
        self.kind
    }
}

/// Specification for an exported Rust function/method callable from JavaScript.
///
/// Each export is found by its name when JavaScript calls it; the handler that runs
/// it is kept beside the specification by the code that registers it.
#[derive(Clone, Copy)]
pub struct JsExportSpec {
    /// The export name (e.g., "MyStruct::new", "MyStruct::method")
    pub name: &'static str,
}

impl JsExportSpec {
    pub fn new(name: &'static str) -> (r: Self)
        ensures
            r.name@ == name@,
    {
        JsExportSpec { name }
    }
}

/// The argument list `a0, a1, ...` of `count` arguments.
pub open spec fn args_text(count: nat) -> Seq<char>
    decreases count,
{
    if count == 0 {
        Seq::empty()
    } else if count == 1 {
        "a"@ + decimal(0)
    } else {
        args_text((count - 1) as nat) + ", a"@ + decimal((count - 1) as nat)
    }
}

/// Generate argument names for JS function (a0, a1, a2, ...)
pub fn generate_args(count: usize) -> (r: String)
    ensures
        r@ == args_text(count as nat),
{
    let mut s = String::new();
    let mut i: usize = 0;
    while i < count
        invariant
            i <= count,
            s@ == args_text(i as nat),
        decreases count - i,
    {
        if i == 0 {
            s.append("a");
        } else {
            s.append(", a");
        }
        push_decimal(&mut s, i as u64);
        i = i + 1;
    }
    s
}


/// Distinct elements of a sequence, in the order of their first occurrence.
pub open spec fn distinct_in_order<A>(s: Seq<A>) -> Seq<A>
    decreases s.len(),
{
    if s.len() == 0 {
        s
    } else {
        let d = distinct_in_order(s.drop_last());
        if d.contains(s.last()) {
            d
        } else {
            d.push(s.last())
        }
    }
}

/// The texts of the elements of a sequence, one after the other.
pub open spec fn concat_map<A>(s: Seq<A>, f: spec_fn(A) -> Seq<char>) -> Seq<char>
    decreases s.len(),
{
    if s.len() == 0 {
        Seq::empty()
    } else {
        concat_map(s.drop_last(), f) + f(s.last())
    }
}

/// The hashes of module contents.
pub open spec fn module_hashes(contents: Seq<Seq<char>>) -> Seq<Seq<char>> {
    contents.map_values(|c: Seq<char>| module_hash(c))
}

/// The line of the script that imports the module with the given hash.
pub open spec fn import_line(hash: Seq<char>) -> Seq<char> {
    IMPORT_OPEN@ + hash + IMPORT_MID@ + hash + IMPORT_CLOSE@
}

/// The table of served modules: for each distinct hash, in order of first occurrence,
/// its path and the first content with that hash.
pub open spec fn module_table(contents: Seq<Seq<char>>) -> Seq<(Seq<char>, Seq<char>)>
    decreases contents.len(),
{
    if contents.len() == 0 {
        Seq::empty()
    } else {
        let t = module_table(contents.drop_last());
        let h = module_hash(contents.last());
        if distinct_in_order(module_hashes(contents.drop_last())).contains(h) {
            t
        } else {
            t.push((snippet_path(h), contents.last()))
        }
    }
}

/// The content of the first entry of a table with the given path.
pub open spec fn lookup_module(table: Seq<(Seq<char>, Seq<char>)>, path: Seq<char>) -> Option<
    Seq<char>,
>
    decreases table.len(),
{
    if table.len() == 0 {
        None
    } else if table[0].0 == path {
        Some(table[0].1)
    } else {
        lookup_module(table.drop_first(), path)
    }
}

/// The JavaScript codes, separated by a comma and a line break.
pub open spec fn join_codes(codes: Seq<Seq<char>>) -> Seq<char>
    decreases codes.len(),
{
    if codes.len() == 0 {
        Seq::empty()
    } else if codes.len() == 1 {
        codes[0]
    } else {
        join_codes(codes.drop_last()) + CODE_SEPARATOR@ + codes.last()
    }
}

/// `s` with `x` put in its place in byte-wise order, unless `s` already holds it.
pub open spec fn insert_sorted(s: Seq<Seq<char>>, x: Seq<char>) -> Seq<Seq<char>>
    decreases s.len(),
{
    if s.len() == 0 {
        seq![x]
    } else if s[0] == x {
        s
    } else if str_lt(x, s[0]) {
        seq![x] + s
    } else {
        seq![s[0]] + insert_sorted(s.drop_first(), x)
    }
}

/// The distinct names of a sequence, in byte-wise order.
pub open spec fn sorted_names(names: Seq<Seq<char>>) -> Seq<Seq<char>>
    decreases names.len(),
{
    if names.len() == 0 {
        Seq::empty()
    } else {
        insert_sorted(sorted_names(names.drop_last()), names.last())
    }
}

/// The exported classes, in byte-wise order of their names.
pub open spec fn class_names(members: Seq<MemberView>) -> Seq<Seq<char>> {
    sorted_names(members.map_values(|m: MemberView| m.class_name))
}

/// The members of one class, in the order they were registered.
pub open spec fn members_of(members: Seq<MemberView>, class: Seq<char>) -> Seq<MemberView> {
    members.filter(|m: MemberView| m.class_name == class)
}

/// The arguments passed on by an instance method: the handle, then its own.
pub open spec fn handle_args(count: nat) -> Seq<char> {
    if count > 0 {
        "this.__handle, "@ + args_text(count)
    } else {
        "this.__handle"@
    }
}

/// The line of the class body for an instance method; nothing for other members.
pub open spec fn method_line(m: MemberView) -> Seq<char> {
    if m.kind == JsClassMemberKind::Method {
        "    "@ + m.member_name + "("@ + args_text(m.arg_count as nat) + METHOD_CALL@ + m.export_name
            + "\", "@ + handle_args(m.arg_count as nat) + "); }\n"@
    } else {
        Seq::empty()
    }
}

/// Whether a member is a property getter or setter.
pub open spec fn is_accessor(m: MemberView) -> bool {
    m.kind == JsClassMemberKind::Getter || m.kind == JsClassMemberKind::Setter
}

/// The property names of a class, in byte-wise order.
pub open spec fn property_names(members: Seq<MemberView>) -> Seq<Seq<char>> {
    sorted_names(
        members.filter(|m: MemberView| is_accessor(m)).map_values(|m: MemberView| m.member_name),
    )
}

/// The last member of the given kind with the given name.
pub open spec fn last_member(members: Seq<MemberView>, kind: JsClassMemberKind, name: Seq<char>) -> Option<
    MemberView,
>
    decreases members.len(),
{
    if members.len() == 0 {
        None
    } else if members.last().kind == kind && members.last().member_name == name {
        Some(members.last())
    } else {
        last_member(members.drop_last(), kind, name)
    }
}

/// The getter line of a property.
pub open spec fn getter_line(name: Seq<char>, export: Seq<char>) -> Seq<char> {
    "    get "@ + name + GETTER_CALL@ + export + "\", this.__handle); }"@
}

/// The setter line of a property.
pub open spec fn setter_line(name: Seq<char>, export: Seq<char>) -> Seq<char> {
    "    set "@ + name + SETTER_CALL@ + export + "\", this.__handle, v); }"@
}

/// The accessor lines of a property: its last getter and its last setter.
pub open spec fn property_lines(members: Seq<MemberView>, name: Seq<char>) -> Seq<char> {
    match (
        last_member(members, JsClassMemberKind::Getter, name),
        last_member(members, JsClassMemberKind::Setter, name),
    ) {
        (Some(g), Some(s)) => getter_line(name, g.export_name) + "\n"@ + setter_line(
            name,
            s.export_name,
        ) + "\n"@,
        (Some(g), None) => getter_line(name, g.export_name) + "\n"@,
        (None, Some(s)) => setter_line(name, s.export_name) + "\n"@,
        (None, None) => Seq::empty(),
    }
}

/// The line after the class body for a constructor or static method; nothing for others.
pub open spec fn static_line(m: MemberView) -> Seq<char> {
    let args = args_text(m.arg_count as nat);
    if m.kind == JsClassMemberKind::Constructor {
        "  "@ + m.class_name + "."@ + m.member_name + " = function("@ + args + CONSTRUCTOR_CALL@
            + m.export_name + "\", "@ + args + "); return "@ + m.class_name + ".__wrap(handle); };\n"@
    } else if m.kind == JsClassMemberKind::StaticMethod {
        "  "@ + m.class_name + "."@ + m.member_name + " = function("@ + args + STATIC_CALL@
            + m.export_name + "\", "@ + args + "); };\n"@
    } else {
        Seq::empty()
    }
}

/// The opening of a class: constructor, wrapping, and freeing through its handle.
pub open spec fn class_shell(c: Seq<char>) -> Seq<char> {
    "  class "@ + c + SHELL_1@ + c + SHELL_2@ + c + SHELL_3@ + c + SHELL_4@ + c + SHELL_5@ + c
        + SHELL_6@ + c + SHELL_7@
}

/// The code of one exported class.
pub open spec fn class_text(members: Seq<MemberView>, c: Seq<char>) -> Seq<char> {
    class_body(members_of(members, c), c)
}

/// The code of a class with the given members: its body with the instance methods and
/// properties, then its constructors and static methods.
pub open spec fn class_body(ms: Seq<MemberView>, c: Seq<char>) -> Seq<char> {
    class_shell(c) + concat_map(ms, |m: MemberView| method_line(m)) + concat_map(
        property_names(ms),
        |p: Seq<char>| property_lines(ms, p),
    ) + "  }\n"@ + concat_map(ms, |m: MemberView| static_line(m)) + "  window."@ + c + " = "@ + c
        + ";\n"@
}

/// The initialization script: imports of the modules, the function registry, the
/// exported classes, and the notice that the registry is ready.
pub open spec fn script_text(
    contents: Seq<Seq<char>>,
    codes: Seq<Seq<char>>,
    members: Seq<MemberView>,
) -> Seq<char> {
    SCRIPT_OPEN@ + concat_map(distinct_in_order(module_hashes(contents)), |h: Seq<char>| import_line(h))
        + REGISTRY_OPEN@ + join_codes(codes) + REGISTRY_CLOSE@ + concat_map(
        class_names(members),
        |c: Seq<char>| class_text(members, c),
    ) + SCRIPT_CLOSE@
}

pub const IMPORT_OPEN: &'static str = "  const module_";

pub const IMPORT_MID: &'static str = " = await import('/__wbg__/snippets/";

pub const IMPORT_CLOSE: &'static str = ".js');\n";

pub const CODE_SEPARATOR: &'static str = ",\n";

pub const METHOD_CALL: &'static str = ") { return window.__wryCallExport(\"";

pub const GETTER_CALL: &'static str = "() { return window.__wryCallExport(\"";

pub const SETTER_CALL: &'static str = "(v) { window.__wryCallExport(\"";

pub const CONSTRUCTOR_CALL: &'static str = ") { const handle = window.__wryCallExport(\"";

pub const STATIC_CALL: &'static str = ") { return window.__wryCallExport(\"";

pub const SHELL_1: &'static str = " {\n    constructor(handle) {\n      this.__handle = handle;\n      this.__className = \"";

pub const SHELL_2: &'static str = "\";\n      window.__wryExportRegistry.register(this, { handle, className: \"";

pub const SHELL_3: &'static str = "\" });\n    }\n    static __wrap(handle) {\n      const obj = Object.create(";

pub const SHELL_4: &'static str = ".prototype);\n      obj.__handle = handle;\n      obj.__className = \"";

pub const SHELL_5: &'static str = "\";\n      window.__wryExportRegistry.register(obj, { handle, className: \"";

pub const SHELL_6: &'static str = "\" });\n      return obj;\n    }\n    free() {\n      const handle = this.__handle;\n      this.__handle = 0;\n      if (handle !== 0) window.__wryCallExport(\"";

pub const SHELL_7: &'static str = "::__drop\", handle);\n    }\n";

pub const SCRIPT_OPEN: &'static str = "(async () => {\n";

pub const REGISTRY_OPEN: &'static str = "  window.setFunctionRegistry([";

pub const REGISTRY_CLOSE: &'static str = "]);\n";

pub const SCRIPT_CLOSE: &'static str = "  fetch('/__wbg__/initialized', { method: 'POST', body: [] });\n})();\n";


/// The views of a sequence of strings.
pub open spec fn string_views(v: Seq<String>) -> Seq<Seq<char>> {
    v.map_values(|s: String| s@)
}

/// The views of a sequence of string slices.
pub open spec fn str_views(v: Seq<&'static str>) -> Seq<Seq<char>> {
    v.map_values(|s: &'static str| s@)
}

/// The contents of a sequence of modules.
pub open spec fn module_contents(v: Seq<InlineJsModule>) -> Seq<Seq<char>> {
    v.map_values(|m: InlineJsModule| m@)
}

/// The views of a sequence of class members.
pub open spec fn member_views(v: Seq<JsClassMemberSpec>) -> Seq<MemberView> {
    v.map_values(|m: JsClassMemberSpec| m@)
}

/// The codes of a sequence of function specifications.
pub open spec fn spec_codes(v: Seq<JsFunctionSpec>) -> Seq<Seq<char>> {
    v.map_values(|f: JsFunctionSpec| f.spec_js_code())
}

/// The entries of a module table.
pub open spec fn table_views(v: Seq<(String, &'static str)>) -> Seq<(Seq<char>, Seq<char>)> {
    v.map_values(|e: (String, &'static str)| (e.0@, e.1@))
}

/// Whether `v` holds a string equal to `x`.
pub(crate) fn contains_str(v: &Vec<String>, x: &str) -> (r: bool)
    ensures
        r == string_views(v@).contains(x@),
{
    let mut i: usize = 0;
    while i < v.len()
        invariant
            i <= v@.len(),
            forall|j: int| 0 <= j < i ==> v@[j]@ != x@,
        decreases v@.len() - i,
    {
        if str_eq(v[i].as_str(), x) {
            assert(string_views(v@)[i as int] == x@);
            return true;
        }
        i = i + 1;
    }
    proof {
        if string_views(v@).contains(x@) {
            let j = choose|j: int| 0 <= j < string_views(v@).len() && string_views(v@)[j] == x@;
            assert(v@[j]@ == x@);
        }
    }
    false
}

/// Appends the import lines of the modules, each distinct hash once, and gives the
/// table of served modules.
///
/// The table is a vector searched in order rather than an ordered map: vstd specifies
/// `BTreeMap` and `BTreeSet` only for keys whose order obeys its model, which string
/// keys do not.
fn push_modules(script: &mut String, modules: &[InlineJsModule]) -> (table: Vec<(String, &'static str)>)
    ensures
        final(script)@ == old(script)@ + concat_map(
            distinct_in_order(module_hashes(module_contents(modules@))),
            |h: Seq<char>| import_line(h),
        ),
        table_views(table@) == module_table(module_contents(modules@)),
{
    let ghost cs = module_contents(modules@);
    let mut seen: Vec<String> = Vec::new();
    let mut table: Vec<(String, &'static str)> = Vec::new();
    let mut i: usize = 0;
    assert(cs.take(0) =~= Seq::<Seq<char>>::empty());
    assert(module_hashes(cs.take(0)) =~= Seq::<Seq<char>>::empty());
    assert(string_views(seen@) =~= Seq::<Seq<char>>::empty());
    assert(table_views(table@) =~= Seq::<(Seq<char>, Seq<char>)>::empty());
    while i < modules.len()
        invariant
            i <= modules@.len(),
            cs == module_contents(modules@),
            string_views(seen@) == distinct_in_order(module_hashes(cs.take(i as int))),
            table_views(table@) == module_table(cs.take(i as int)),
            script@ == old(script)@ + concat_map(
                distinct_in_order(module_hashes(cs.take(i as int))),
                |h: Seq<char>| import_line(h),
            ),
        decreases modules@.len() - i,
    {
        let ghost prev = cs.take(i as int);
        let ghost next = cs.take(i + 1);
        assert(next.drop_last() =~= prev);
        assert(next.last() == modules@[i as int]@);
        assert(module_hashes(next).drop_last() =~= module_hashes(prev));
        let m = modules[i];
        let h = m.hash();
        assert(module_hashes(next).last() == h@);
        if !contains_str(&seen, h.as_str()) {
            let ghost d = string_views(seen@);
            script.append(IMPORT_OPEN);
            script.append(h.as_str());
            script.append(IMPORT_MID);
            script.append(h.as_str());
            script.append(IMPORT_CLOSE);
            let mut path = String::new();
            path.append("__wbg__/snippets/");
            path.append(h.as_str());
            path.append(".js");
            table.push((path, m.content()));
            seen.push(h);
            assert(string_views(seen@) =~= d.push(module_hash(cs[i as int])));
            assert(d.push(module_hash(cs[i as int])).drop_last() =~= d);
            assert(table_views(table@) =~= module_table(prev).push(
                (snippet_path(module_hash(cs[i as int])), cs[i as int]),
            ));
            assert(script@ =~= old(script)@ + concat_map(d, |h: Seq<char>| import_line(h))
                + import_line(module_hash(cs[i as int])));
        }
        i = i + 1;
    }
    assert(cs.take(i as int) =~= cs);
    table
}


/// Appends the codes of the functions, separated by a comma and a line break.
fn push_function_list(script: &mut String, specs: &Vec<JsFunctionSpec>)
    ensures
        final(script)@ == old(script)@ + join_codes(spec_codes(specs@)),
{
    let ghost codes = spec_codes(specs@);
    let mut i: usize = 0;
    assert(old(script)@ + join_codes(codes.take(0)) =~= old(script)@);
    while i < specs.len()
        invariant
            i <= specs@.len(),
            codes == spec_codes(specs@),
            script@ == old(script)@ + join_codes(codes.take(i as int)),
        decreases specs@.len() - i,
    {
        let ghost next = codes.take(i + 1);
        assert(next.drop_last() =~= codes.take(i as int));
        if i > 0 {
            script.append(CODE_SEPARATOR);
        } else {
            assert(next =~= seq![codes[0]]);
        }
        script.append(specs[i].js_code());
        i = i + 1;
        assert(script@ =~= old(script)@ + join_codes(codes.take(i as int)));
    }
    assert(codes.take(i as int) =~= codes);
}

/// Inserting into the rest of a sequence, past elements that stay before the new one.
proof fn lemma_insert_sorted_skip(s: Seq<Seq<char>>, x: Seq<char>, i: int)
    requires
        0 <= i <= s.len(),
        forall|j: int| 0 <= j < i ==> s[j] != x && !str_lt(x, #[trigger] s[j]),
    ensures
        insert_sorted(s, x) == s.take(i) + insert_sorted(s.skip(i), x),
    decreases i,
{
    if i == 0 {
        assert(s.take(0) + s.skip(0) =~= s);
        assert(s.skip(0) =~= s);
        assert(s.take(0) + insert_sorted(s.skip(0), x) =~= insert_sorted(s, x));
    } else {
        let t = s.drop_first();
        assert forall|j: int| 0 <= j < i - 1 implies t[j] != x && !str_lt(x, #[trigger] t[j]) by {
            assert(t[j] == s[j + 1]);
        }
        lemma_insert_sorted_skip(t, x, i - 1);
        assert(t.skip(i - 1) =~= s.skip(i));
        assert(seq![s[0]] + t.take(i - 1) =~= s.take(i));
        assert(s[0] != x && !str_lt(x, s[0]));
        assert(insert_sorted(s, x) == seq![s[0]] + insert_sorted(t, x));
        assert(seq![s[0]] + (t.take(i - 1) + insert_sorted(t.skip(i - 1), x)) =~= s.take(i)
            + insert_sorted(s.skip(i), x));
    }
}

/// Puts `x` in its place among sorted names, unless it is already there.
fn insert_sorted_exec(v: &mut Vec<&'static str>, x: &'static str)
    ensures
        str_views(final(v)@) == insert_sorted(str_views(old(v)@), x@),
{
    let ghost s = str_views(v@);
    let mut i: usize = 0;
    while i < v.len()
        invariant
            i <= v@.len(),
            s == str_views(v@),
            v@ == old(v)@,
            forall|j: int| 0 <= j < i ==> s[j] != x@ && !str_lt(x@, #[trigger] s[j]),
        decreases v@.len() - i,
    {
        let e = v[i];
        if str_eq(e, x) {
            proof {
                lemma_insert_sorted_skip(s, x@, i as int);
                assert(s.skip(i as int)[0] == x@);
                assert(s.take(i as int) + s.skip(i as int) =~= s);
            }
            return;
        }
        if str_lt_exec(x, e) {
            proof {
                lemma_insert_sorted_skip(s, x@, i as int);
                assert(s.skip(i as int)[0] == s[i as int]);
            }
            v.insert(i, x);
            assert(str_views(v@) =~= s.take(i as int) + (seq![x@] + s.skip(i as int)));
            return;
        }
        i = i + 1;
    }
    proof {
        lemma_insert_sorted_skip(s, x@, i as int);
        assert(s.skip(i as int) =~= Seq::<Seq<char>>::empty());
        assert(s.take(i as int) =~= s);
    }
    v.push(x);
    assert(str_views(v@) =~= s + seq![x@]);
}

/// The names of the exported classes, in byte-wise order, each once (an ordered set
/// kept by hand, for the reason given at `push_modules`).
fn sorted_class_names(members: &[JsClassMemberSpec]) -> (r: Vec<&'static str>)
    ensures
        str_views(r@) == class_names(member_views(members@)),
{
    let ghost ms = member_views(members@);
    let ghost f = |m: MemberView| m.class_name;
    let mut names: Vec<&'static str> = Vec::new();
    let mut i: usize = 0;
    assert(ms.take(0).map_values(f) =~= Seq::<Seq<char>>::empty());
    assert(str_views(names@) =~= Seq::<Seq<char>>::empty());
    while i < members.len()
        invariant
            i <= members@.len(),
            ms == member_views(members@),
            f == (|m: MemberView| m.class_name),
            str_views(names@) == sorted_names(ms.take(i as int).map_values(f)),
        decreases members@.len() - i,
    {
        let ghost next = ms.take(i + 1).map_values(f);
        assert(next.drop_last() =~= ms.take(i as int).map_values(f));
        assert(next.last() == members@[i as int]@.class_name);
        insert_sorted_exec(&mut names, members[i].class_name());
        i = i + 1;
    }
    assert(ms.take(i as int) =~= ms);
    names
}

/// The members of one class, in the order they were registered.
fn members_of_exec(members: &[JsClassMemberSpec], class: &str) -> (r: Vec<JsClassMemberSpec>)
    ensures
        member_views(r@) == members_of(member_views(members@), class@),
{
    reveal(Seq::filter);
    let ghost ms = member_views(members@);
    let ghost p = |m: MemberView| m.class_name == class@;
    let mut out: Vec<JsClassMemberSpec> = Vec::new();
    let mut i: usize = 0;
    assert(ms.take(0).filter(p) =~= Seq::<MemberView>::empty()) by {
        assert(ms.take(0) =~= Seq::<MemberView>::empty());
    }
    assert(member_views(out@) =~= Seq::<MemberView>::empty());
    while i < members.len()
        invariant
            i <= members@.len(),
            ms == member_views(members@),
            p == (|m: MemberView| m.class_name == class@),
            member_views(out@) == ms.take(i as int).filter(p),
        decreases members@.len() - i,
    {
        let ghost prev = member_views(out@);
        assert(ms.take(i + 1).drop_last() =~= ms.take(i as int));
        assert(ms.take(i + 1).last() == members@[i as int]@);
        let m = members[i];
        reveal(Seq::filter);
        assert(p(m@) == (m@.class_name == class@));
        let ghost unfolded = ms.take(i + 1).filter(p);
        assert(unfolded == (if p(m@) {
            ms.take(i as int).filter(p).push(m@)
        } else {
            ms.take(i as int).filter(p)
        }));
        if str_eq(m.class_name(), class) {
            out.push(m);
            assert(member_views(out@) =~= prev.push(m@));
        }
        i = i + 1;
    }
    assert(ms.take(i as int) =~= ms);
    out
}


/// Appends the opening of a class.
fn push_shell(script: &mut String, c: &str)
    ensures
        final(script)@ == old(script)@ + class_shell(c@),
{
    script.append("  class ");
    script.append(c);
    script.append(SHELL_1);
    script.append(c);
    script.append(SHELL_2);
    script.append(c);
    script.append(SHELL_3);
    script.append(c);
    script.append(SHELL_4);
    script.append(c);
    script.append(SHELL_5);
    script.append(c);
    script.append(SHELL_6);
    script.append(c);
    script.append(SHELL_7);
    assert(script@ =~= old(script)@ + class_shell(c@));
}

/// Appends the line of an instance method, if the member is one.
fn push_method_line(script: &mut String, m: &JsClassMemberSpec)
    ensures
        final(script)@ == old(script)@ + method_line(m@),
{
    if m.kind() == JsClassMemberKind::Method {
        let args = generate_args(m.arg_count());
        script.append("    ");
        script.append(m.member_name());
        script.append("(");
        script.append(args.as_str());
        script.append(METHOD_CALL);
        script.append(m.export_name());
        script.append("\", ");
        if m.arg_count() > 0 {
            script.append("this.__handle, ");
            script.append(args.as_str());
        } else {
            script.append("this.__handle");
        }
        script.append("); }\n");
        assert(script@ =~= old(script)@ + method_line(m@));
    } else {
        assert(script@ =~= old(script)@ + method_line(m@));
    }
}

/// Appends the line of a constructor or static method, if the member is one.
fn push_static_line(script: &mut String, m: &JsClassMemberSpec)
    ensures
        final(script)@ == old(script)@ + static_line(m@),
{
    let kind = m.kind();
    if kind == JsClassMemberKind::Constructor || kind == JsClassMemberKind::StaticMethod {
        let args = generate_args(m.arg_count());
        script.append("  ");
        script.append(m.class_name());
        script.append(".");
        script.append(m.member_name());
        script.append(" = function(");
        script.append(args.as_str());
        if kind == JsClassMemberKind::Constructor {
            script.append(CONSTRUCTOR_CALL);
        } else {
            script.append(STATIC_CALL);
        }
        script.append(m.export_name());
        script.append("\", ");
        script.append(args.as_str());
        if kind == JsClassMemberKind::Constructor {
            script.append("); return ");
            script.append(m.class_name());
            script.append(".__wrap(handle); };\n");
        } else {
            script.append("); };\n");
        }
        assert(script@ =~= old(script)@ + static_line(m@));
    } else {
        assert(script@ =~= old(script)@ + static_line(m@));
    }
}

/// Appends the lines of all members that `line` renders, in order.
fn push_member_lines(script: &mut String, ms: &Vec<JsClassMemberSpec>, statics: bool)
    ensures
        statics ==> final(script)@ == old(script)@ + concat_map(
            member_views(ms@),
            |m: MemberView| static_line(m),
        ),
        !statics ==> final(script)@ == old(script)@ + concat_map(
            member_views(ms@),
            |m: MemberView| method_line(m),
        ),
{
    let ghost v = member_views(ms@);
    let ghost f = if statics {
        |m: MemberView| static_line(m)
    } else {
        |m: MemberView| method_line(m)
    };
    let mut i: usize = 0;
    assert(v.take(0) =~= Seq::<MemberView>::empty());
    assert(old(script)@ + concat_map(v.take(0), f) =~= old(script)@);
    while i < ms.len()
        invariant
            i <= ms@.len(),
            v == member_views(ms@),
            f == (if statics {
                |m: MemberView| static_line(m)
            } else {
                |m: MemberView| method_line(m)
            }),
            script@ == old(script)@ + concat_map(v.take(i as int), f),
        decreases ms@.len() - i,
    {
        assert(v.take(i + 1).drop_last() =~= v.take(i as int));
        assert(v.take(i + 1).last() == ms@[i as int]@);
        let ghost before = script@;
        if statics {
            push_static_line(script, &ms[i]);
        } else {
            push_method_line(script, &ms[i]);
        }
        i = i + 1;
        assert(script@ =~= old(script)@ + concat_map(v.take(i as int), f));
    }
    assert(v.take(i as int) =~= v);
}


/// The property names of a class, in byte-wise order.
fn property_names_exec(ms: &Vec<JsClassMemberSpec>) -> (r: Vec<&'static str>)
    ensures
        str_views(r@) == property_names(member_views(ms@)),
{
    reveal(Seq::filter);
    let ghost v = member_views(ms@);
    let ghost p = |m: MemberView| is_accessor(m);
    let ghost f = |m: MemberView| m.member_name;
    let mut names: Vec<&'static str> = Vec::new();
    let mut i: usize = 0;
    assert(v.take(0) =~= Seq::<MemberView>::empty());
    assert(v.take(0).filter(p).map_values(f) =~= Seq::<Seq<char>>::empty());
    assert(str_views(names@) =~= Seq::<Seq<char>>::empty());
    while i < ms.len()
        invariant
            i <= ms@.len(),
            v == member_views(ms@),
            p == (|m: MemberView| is_accessor(m)),
            f == (|m: MemberView| m.member_name),
            str_views(names@) == sorted_names(v.take(i as int).filter(p).map_values(f)),
        decreases ms@.len() - i,
    {
        reveal(Seq::filter);
        let m = ms[i];
        let ghost prev = v.take(i as int).filter(p);
        assert(v.take(i + 1).drop_last() =~= v.take(i as int));
        assert(v.take(i + 1).last() == m@);
        assert(p(m@) == is_accessor(m@));
        let kind = m.kind();
        if kind == JsClassMemberKind::Getter || kind == JsClassMemberKind::Setter {
            assert(v.take(i + 1).filter(p) == prev.push(m@));
            assert(prev.push(m@).map_values(f).drop_last() =~= prev.map_values(f));
            insert_sorted_exec(&mut names, m.member_name());
        } else {
            assert(v.take(i + 1).filter(p) == prev);
        }
        i = i + 1;
    }
    assert(v.take(i as int) =~= v);
    names
}

/// The last member of the given kind with the given name.
fn find_last(ms: &Vec<JsClassMemberSpec>, kind: JsClassMemberKind, name: &str) -> (r: Option<
    JsClassMemberSpec,
>)
    ensures
        match r {
            Some(m) => last_member(member_views(ms@), kind, name@) == Some(m@),
            None => last_member(member_views(ms@), kind, name@) is None,
        },
{
    let ghost v = member_views(ms@);
    let mut found: Option<JsClassMemberSpec> = None;
    let mut i: usize = 0;
    assert(v.take(0) =~= Seq::<MemberView>::empty());
    while i < ms.len()
        invariant
            i <= ms@.len(),
            v == member_views(ms@),
            match found {
                Some(m) => last_member(v.take(i as int), kind, name@) == Some(m@),
                None => last_member(v.take(i as int), kind, name@) is None,
            },
        decreases ms@.len() - i,
    {
        assert(v.take(i + 1).drop_last() =~= v.take(i as int));
        assert(v.take(i + 1).last() == ms@[i as int]@);
        let m = ms[i];
        if m.kind() == kind && str_eq(m.member_name(), name) {
            found = Some(m);
        }
        i = i + 1;
    }
    assert(v.take(i as int) =~= v);
    found
}

/// Appends the accessor lines of one property.
fn push_property_lines(script: &mut String, ms: &Vec<JsClassMemberSpec>, name: &str)
    ensures
        final(script)@ == old(script)@ + property_lines(member_views(ms@), name@),
{
    let getter = find_last(ms, JsClassMemberKind::Getter, name);
    let setter = find_last(ms, JsClassMemberKind::Setter, name);
    if let Some(g) = getter {
        script.append("    get ");
        script.append(name);
        script.append(GETTER_CALL);
        script.append(g.export_name());
        script.append("\", this.__handle); }");
        script.append("\n");
    }
    if let Some(s) = setter {
        script.append("    set ");
        script.append(name);
        script.append(SETTER_CALL);
        script.append(s.export_name());
        script.append("\", this.__handle, v); }");
        script.append("\n");
    }
    assert(script@ =~= old(script)@ + property_lines(member_views(ms@), name@));
}

/// Appends the accessor lines of all properties of a class.
fn push_properties(script: &mut String, ms: &Vec<JsClassMemberSpec>)
    ensures
        final(script)@ == old(script)@ + concat_map(
            property_names(member_views(ms@)),
            |p: Seq<char>| property_lines(member_views(ms@), p),
        ),
{
    let names = property_names_exec(ms);
    let ghost ns = str_views(names@);
    let ghost f = |p: Seq<char>| property_lines(member_views(ms@), p);
    let mut i: usize = 0;
    assert(ns.take(0) =~= Seq::<Seq<char>>::empty());
    assert(old(script)@ + concat_map(ns.take(0), f) =~= old(script)@);
    while i < names.len()
        invariant
            i <= names@.len(),
            ns == str_views(names@),
            f == (|p: Seq<char>| property_lines(member_views(ms@), p)),
            script@ == old(script)@ + concat_map(ns.take(i as int), f),
        decreases names@.len() - i,
    {
        assert(ns.take(i + 1).drop_last() =~= ns.take(i as int));
        assert(ns.take(i + 1).last() == names@[i as int]@);
        push_property_lines(script, ms, names[i]);
        i = i + 1;
        assert(script@ =~= old(script)@ + concat_map(ns.take(i as int), f));
    }
    assert(ns.take(i as int) =~= ns);
}

/// Appends the code of one class with the given members.
fn push_class(script: &mut String, c: &str, ms: &Vec<JsClassMemberSpec>)
    ensures
        final(script)@ == old(script)@ + class_body(member_views(ms@), c@),
{
    push_shell(script, c);
    push_member_lines(script, ms, false);
    push_properties(script, ms);
    script.append("  }\n");
    push_member_lines(script, ms, true);
    script.append("  window.");
    script.append(c);
    script.append(" = ");
    script.append(c);
    script.append(";\n");
    assert(script@ =~= old(script)@ + class_body(member_views(ms@), c@));
}


/// Registry of JS functions collected from the bindings.
pub struct FunctionRegistry {
    functions: String,
    function_specs: Vec<JsFunctionSpec>,
    modules: Vec<(String, &'static str)>,
}

impl FunctionRegistry {
    /// The initialization script.
    pub closed spec fn spec_script(&self) -> Seq<char> {
        self.functions@
    }

    /// The identities of the registered functions, by position.
    pub closed spec fn spec_code_ids(&self) -> Seq<usize> {
        self.function_specs@.map_values(|f: JsFunctionSpec| f.spec_code_id())
    }

    /// The table of served modules.
    pub closed spec fn spec_modules(&self) -> Seq<(Seq<char>, Seq<char>)> {
        table_views(self.modules@)
    }

    /// Builds the registry from the declared inline modules, functions and class members:
    /// the modules are served under the hash of their content, and the script loads them,
    /// registers the functions in order and defines the exported classes.
    pub fn collect(
        modules: &[InlineJsModule],
        specs: Vec<JsFunctionSpec>,
        members: &[JsClassMemberSpec],
    ) -> (r: Self)
        ensures
            r.spec_script() == script_text(
                module_contents(modules@),
                spec_codes(specs@),
                member_views(members@),
            ),
            r.spec_modules() == module_table(module_contents(modules@)),
            r.spec_code_ids() == specs@.map_values(|f: JsFunctionSpec| f.spec_code_id()),
    {
        let ghost cs = module_contents(modules@);
        let ghost mv = member_views(members@);
        let mut script = String::new();
        script.append(SCRIPT_OPEN);
        let table = push_modules(&mut script, modules);
        script.append(REGISTRY_OPEN);
        push_function_list(&mut script, &specs);
        script.append(REGISTRY_CLOSE);
        let ghost head = script@;
        let names = sorted_class_names(members);
        let ghost ns = str_views(names@);
        let ghost f = |c: Seq<char>| class_text(mv, c);
        let mut i: usize = 0;
        assert(ns.take(0) =~= Seq::<Seq<char>>::empty());
        assert(head + concat_map(ns.take(0), f) =~= head);
        while i < names.len()
            invariant
                i <= names@.len(),
                ns == str_views(names@),
                mv == member_views(members@),
                f == (|c: Seq<char>| class_text(mv, c)),
                script@ == head + concat_map(ns.take(i as int), f),
            decreases names@.len() - i,
        {
            assert(ns.take(i + 1).drop_last() =~= ns.take(i as int));
            assert(ns.take(i + 1).last() == names@[i as int]@);
            let ms = members_of_exec(members, names[i]);
            push_class(&mut script, names[i], &ms);
            i = i + 1;
            assert(script@ =~= head + concat_map(ns.take(i as int), f));
        }
        assert(ns.take(i as int) =~= ns);
        script.append(SCRIPT_CLOSE);
        assert(script@ =~= script_text(cs, spec_codes(specs@), mv));
        FunctionRegistry { functions: script, function_specs: specs, modules: table }
    }

    /// Get a function by its declaration from the registry: the function at the position
    /// of the first registered specification with the same identity.
    pub fn get_function<F>(&self, spec: &JsFunctionSpec) -> (r: Option<JSFunction<F>>)
        ensures
            match r {
                Some(f) => exists|i: int|
                    0 <= i < self.spec_code_ids().len() && self.spec_code_ids()[i]
                        == spec.spec_code_id() && f.spec_id() == i as u32 && forall|j: int|
                        0 <= j < i ==> self.spec_code_ids()[j] != spec.spec_code_id(),
                None => !self.spec_code_ids().contains(spec.spec_code_id()),
            },
    {
        let ghost ids = self.spec_code_ids();
        let mut i: usize = 0;
        while i < self.function_specs.len()
            invariant
                i <= self.function_specs@.len(),
                ids == self.spec_code_ids(),
                forall|j: int| 0 <= j < i ==> ids[j] != spec.spec_code_id(),
            decreases self.function_specs@.len() - i,
        {
            if self.function_specs[i].code_id() == spec.code_id() {
                assert(ids[i as int] == spec.spec_code_id());
                return Some(JSFunction::new(i as u32));
            }
            i = i + 1;
        }
        proof {
            if ids.contains(spec.spec_code_id()) {
                let j = choose|j: int| 0 <= j < ids.len() && ids[j] == spec.spec_code_id();
                assert(ids[j] != spec.spec_code_id());
            }
        }
        None
    }

    /// Get the initialization script
    pub fn script(&self) -> (r: &str)
        ensures
            r@ == self.spec_script(),
    {
        self.functions.as_str()
    }

    /// Get the content of an inline_js module by path
    pub fn get_module(&self, path: &str) -> (r: Option<&'static str>)
        ensures
            match r {
                Some(c) => lookup_module(self.spec_modules(), path@) == Some(c@),
                None => lookup_module(self.spec_modules(), path@) is None,
            },
    {
        let ghost t = self.spec_modules();
        let mut i: usize = 0;
        assert(t.skip(0) =~= t);
        while i < self.modules.len()
            invariant
                i <= self.modules@.len(),
                t == self.spec_modules(),
                lookup_module(t, path@) == lookup_module(t.skip(i as int), path@),
            decreases self.modules@.len() - i,
        {
            assert(t.skip(i as int).drop_first() =~= t.skip(i + 1));
            assert(t.skip(i as int)[0] == t[i as int]);
            if str_eq(self.modules[i].0.as_str(), path) {
                return Some(self.modules[i].1);
            }
            i = i + 1;
        }
        None
    }
}


/// An element occurs among the distinct elements exactly when it occurs at all.
proof fn lemma_distinct_contains<A>(s: Seq<A>, x: A)
    ensures
        distinct_in_order(s).contains(x) <==> s.contains(x),
    decreases s.len(),
{
    if s.len() > 0 {
        let p = s.drop_last();
        lemma_distinct_contains(p, x);
        let d = distinct_in_order(p);
        assert(s =~= p.push(s.last()));
        assert(s.contains(x) <==> (p.contains(x) || s.last() == x)) by {
            if s.contains(x) {
                let j = choose|j: int| 0 <= j < s.len() && s[j] == x;
                if j < s.len() - 1 {
                    assert(p[j] == x);
                }
            }
            if p.contains(x) {
                let j = choose|j: int| 0 <= j < p.len() && p[j] == x;
                assert(s[j] == x);
            }
            if s.last() == x {
                assert(s[s.len() - 1] == x);
            }
        }
        if !d.contains(s.last()) {
            let e = d.push(s.last());
            assert(e.contains(x) <==> (d.contains(x) || s.last() == x)) by {
                if e.contains(x) {
                    let j = choose|j: int| 0 <= j < e.len() && e[j] == x;
                    if j < d.len() {
                        assert(d[j] == x);
                    }
                }
                if d.contains(x) {
                    let j = choose|j: int| 0 <= j < d.len() && d[j] == x;
                    assert(e[j] == x);
                }
                if s.last() == x {
                    assert(e[d.len() as int] == x);
                }
            }
        }
    }
}

/// Different hashes are served under different paths.
proof fn lemma_snippet_path_injective(a: Seq<char>, b: Seq<char>)
    requires
        snippet_path(a) == snippet_path(b),
    ensures
        a == b,
{
    let n = "__wbg__/snippets/"@.len();
    assert(snippet_path(a).len() == n + a.len() + ".js"@.len());
    assert(a =~= snippet_path(a).subrange(n as int, (n + a.len()) as int));
    assert(b =~= snippet_path(b).subrange(n as int, (n + b.len()) as int));
}

/// Looking up a path in a table with one more entry at the end.
proof fn lemma_lookup_push(t: Seq<(Seq<char>, Seq<char>)>, e: (Seq<char>, Seq<char>), p: Seq<char>)
    ensures
        lookup_module(t.push(e), p) == (if lookup_module(t, p) is Some {
            lookup_module(t, p)
        } else if e.0 == p {
            Some(e.1)
        } else {
            None
        }),
    decreases t.len(),
{
    if t.len() > 0 {
        assert(t.push(e).drop_first() =~= t.drop_first().push(e));
        assert(t.push(e)[0] == t[0]);
        lemma_lookup_push(t.drop_first(), e, p);
    } else {
        assert(t.push(e).drop_first() =~= Seq::<(Seq<char>, Seq<char>)>::empty());
        assert(lookup_module(t.push(e).drop_first(), p) is None);
        assert(t.push(e)[0] == e);
    }
}

/// Every path that the table serves is that of a hash of one of the modules.
proof fn lemma_table_paths(cs: Seq<Seq<char>>, p: Seq<char>)
    requires
        lookup_module(module_table(cs), p) is Some,
    ensures
        exists|h: Seq<char>| module_hashes(cs).contains(h) && p == snippet_path(h),
    decreases cs.len(),
{
    let prev = cs.drop_last();
    let h = module_hash(cs.last());
    assert(module_hashes(cs).drop_last() =~= module_hashes(prev));
    assert(module_hashes(cs).last() == h);
    if distinct_in_order(module_hashes(prev)).contains(h) {
        lemma_table_paths(prev, p);
        let g = choose|g: Seq<char>| module_hashes(prev).contains(g) && p == snippet_path(g);
        let j = choose|j: int| 0 <= j < module_hashes(prev).len() && module_hashes(prev)[j] == g;
        assert(module_hashes(cs)[j] == g);
    } else {
        lemma_lookup_push(module_table(prev), (snippet_path(h), cs.last()), p);
        if lookup_module(module_table(prev), p) is Some {
            lemma_table_paths(prev, p);
            let g = choose|g: Seq<char>| module_hashes(prev).contains(g) && p == snippet_path(g);
            let j = choose|j: int|
                0 <= j < module_hashes(prev).len() && module_hashes(prev)[j] == g;
            assert(module_hashes(cs)[j] == g);
        } else {
            assert(module_hashes(cs)[cs.len() - 1] == h);
        }
    }
}

/// Each registered module is served under the path of its hash, with the content of the
/// first registered module that has that hash.
pub proof fn lemma_module_served(cs: Seq<Seq<char>>, i: int)
    requires
        0 <= i < cs.len(),
    ensures
        exists|k: int|
            0 <= k <= i && module_hash(cs[k]) == module_hash(cs[i]) && (forall|j: int|
                0 <= j < k ==> module_hash(cs[j]) != module_hash(cs[i])) && lookup_module(
                module_table(cs),
                snippet_path(module_hash(cs[i])),
            ) == Some(cs[k]),
    decreases cs.len(),
{
    let prev = cs.drop_last();
    let h = module_hash(cs[i]);
    let last = module_hash(cs.last());
    assert(module_hashes(cs).drop_last() =~= module_hashes(prev));
    lemma_distinct_contains(module_hashes(prev), last);
    if i < cs.len() - 1 {
        lemma_module_served(prev, i);
        let k = choose|k: int|
            0 <= k <= i && module_hash(prev[k]) == module_hash(prev[i]) && (forall|j: int|
                0 <= j < k ==> module_hash(prev[j]) != module_hash(prev[i])) && lookup_module(
                module_table(prev),
                snippet_path(module_hash(prev[i])),
            ) == Some(prev[k]);
        if !distinct_in_order(module_hashes(prev)).contains(last) {
            lemma_lookup_push(module_table(prev), (snippet_path(last), cs.last()), snippet_path(h));
        }
        assert(prev[k] == cs[k]);
        assert forall|j: int| 0 <= j < k implies module_hash(cs[j]) != h by {
            assert(prev[j] == cs[j]);
        }
    } else if distinct_in_order(module_hashes(prev)).contains(last) {
        let j0 = choose|j: int| 0 <= j < module_hashes(prev).len() && module_hashes(prev)[j] == last;
        lemma_module_served(prev, j0);
        let k = choose|k: int|
            0 <= k <= j0 && module_hash(prev[k]) == module_hash(prev[j0]) && (forall|j: int|
                0 <= j < k ==> module_hash(prev[j]) != module_hash(prev[j0])) && lookup_module(
                module_table(prev),
                snippet_path(module_hash(prev[j0])),
            ) == Some(prev[k]);
        assert(prev[k] == cs[k]);
        assert forall|j: int| 0 <= j < k implies module_hash(cs[j]) != h by {
            assert(prev[j] == cs[j]);
        }
    } else {
        lemma_lookup_push(module_table(prev), (snippet_path(last), cs.last()), snippet_path(h));
        if lookup_module(module_table(prev), snippet_path(h)) is Some {
            lemma_table_paths(prev, snippet_path(h));
            let g = choose|g: Seq<char>|
                module_hashes(prev).contains(g) && snippet_path(h) == snippet_path(g);
            lemma_snippet_path_injective(h, g);
        }
        assert forall|j: int| 0 <= j < i implies module_hash(cs[j]) != h by {
            if module_hash(cs[j]) == h {
                assert(module_hashes(prev)[j] == h);
            }
        }
    }
}


/// Each name comes strictly before the next, in byte-wise order.
pub open spec fn strictly_sorted(s: Seq<Seq<char>>) -> bool {
    forall|i: int, j: int| 0 <= i < j < s.len() ==> str_lt(#[trigger] s[i], #[trigger] s[j])
}

/// The order of strings is transitive, and total on distinct strings.
proof fn lemma_str_lt_order(a: Seq<char>, b: Seq<char>, c: Seq<char>)
    ensures
        str_lt(a, b) && str_lt(b, c) ==> str_lt(a, c),
        a != b ==> str_lt(a, b) || str_lt(b, a),
        !str_lt(a, a),
{
    if str_lt(a, b) && str_lt(b, c) {
        lemma_bytes_lt_transitive(encode_utf8(a), encode_utf8(b), encode_utf8(c));
    }
    if a != b {
        encode_utf8_decode_utf8(a);
        encode_utf8_decode_utf8(b);
        lemma_bytes_lt_total(encode_utf8(a), encode_utf8(b));
    }
    lemma_bytes_lt_irreflexive(encode_utf8(a));
}

/// Inserting into a sorted sequence keeps it sorted and adds exactly the new name.
proof fn lemma_insert_sorted(s: Seq<Seq<char>>, x: Seq<char>)
    requires
        strictly_sorted(s),
    ensures
        strictly_sorted(insert_sorted(s, x)),
        forall|y: Seq<char>| #[trigger]
            insert_sorted(s, x).contains(y) <==> (s.contains(y) || y == x),
    decreases s.len(),
{
    let r = insert_sorted(s, x);
    if s.len() == 0 {
        assert forall|y: Seq<char>| r.contains(y) <==> (s.contains(y) || y == x) by {
            if y == x {
                assert(r[0] == x);
            }
        }
    } else if s[0] == x {
        assert forall|y: Seq<char>| r.contains(y) <==> (s.contains(y) || y == x) by {
            if y == x {
                assert(s[0] == x);
            }
        }
    } else if str_lt(x, s[0]) {
        assert forall|i: int, j: int| 0 <= i < j < r.len() implies str_lt(
            #[trigger] r[i],
            #[trigger] r[j],
        ) by {
            if i == 0 {
                lemma_str_lt_order(x, s[0], s[j - 1]);
                if j > 1 {
                    assert(str_lt(s[0], s[j - 1]));
                }
            } else {
                assert(str_lt(s[i - 1], s[j - 1]));
            }
        }
        assert forall|y: Seq<char>| r.contains(y) <==> (s.contains(y) || y == x) by {
            if r.contains(y) {
                let k = choose|k: int| 0 <= k < r.len() && r[k] == y;
                if k > 0 {
                    assert(s[k - 1] == y);
                }
            }
            if s.contains(y) {
                let k = choose|k: int| 0 <= k < s.len() && s[k] == y;
                assert(r[k + 1] == y);
            }
            if y == x {
                assert(r[0] == y);
            }
        }
    } else {
        let t = s.drop_first();
        assert(strictly_sorted(t)) by {
            assert forall|i: int, j: int| 0 <= i < j < t.len() implies str_lt(
                #[trigger] t[i],
                #[trigger] t[j],
            ) by {
                assert(str_lt(s[i + 1], s[j + 1]));
            }
        }
        lemma_insert_sorted(t, x);
        let u = insert_sorted(t, x);
        lemma_str_lt_order(x, s[0], x);
        assert(str_lt(s[0], x));
        assert forall|k: int| 0 <= k < u.len() implies str_lt(s[0], #[trigger] u[k]) by {
            assert(u.contains(u[k]));
            assert(u.contains(u[k]) <==> (t.contains(u[k]) || u[k] == x));
            if u[k] != x {
                let m = choose|m: int| 0 <= m < t.len() && t[m] == u[k];
                assert(str_lt(s[0], s[m + 1]));
            }
        }
        assert(r == seq![s[0]] + u);
        assert forall|i: int, j: int| 0 <= i < j < r.len() implies str_lt(
            #[trigger] r[i],
            #[trigger] r[j],
        ) by {
            if i == 0 {
                assert(r[j] == u[j - 1]);
            } else {
                assert(r[i] == u[i - 1] && r[j] == u[j - 1]);
            }
        }
        assert forall|y: Seq<char>| r.contains(y) <==> (s.contains(y) || y == x) by {
            if r.contains(y) {
                let k = choose|k: int| 0 <= k < r.len() && r[k] == y;
                if k > 0 {
                    assert(u[k - 1] == y);
                    assert(u.contains(y));
                    if t.contains(y) {
                        let m = choose|m: int| 0 <= m < t.len() && t[m] == y;
                        assert(s[m + 1] == y);
                    }
                }
            }
            if s.contains(y) {
                let k = choose|k: int| 0 <= k < s.len() && s[k] == y;
                if k > 0 {
                    assert(t[k - 1] == y);
                    assert(u.contains(y));
                    let m = choose|m: int| 0 <= m < u.len() && u[m] == y;
                    assert(r[m + 1] == y);
                } else {
                    assert(r[0] == y);
                }
            }
            if y == x {
                assert(u.contains(x));
                let m = choose|m: int| 0 <= m < u.len() && u[m] == x;
                assert(r[m + 1] == y);
            }
        }
    }
}

/// The sorted names are strictly increasing and are exactly the names given.
pub proof fn lemma_sorted_names(names: Seq<Seq<char>>)
    ensures
        strictly_sorted(sorted_names(names)),
        forall|y: Seq<char>| #[trigger] sorted_names(names).contains(y) <==> names.contains(y),
    decreases names.len(),
{
    if names.len() > 0 {
        let p = names.drop_last();
        lemma_sorted_names(p);
        lemma_insert_sorted(sorted_names(p), names.last());
        assert forall|y: Seq<char>| sorted_names(names).contains(y) <==> names.contains(y) by {
            if names.contains(y) {
                let k = choose|k: int| 0 <= k < names.len() && names[k] == y;
                if k < names.len() - 1 {
                    assert(p[k] == y);
                }
            }
            if p.contains(y) {
                let k = choose|k: int| 0 <= k < p.len() && p[k] == y;
                assert(names[k] == y);
            }
            if y == names.last() {
                assert(names[names.len() - 1] == y);
            }
        }
    }
}

/// The classes of the script come in strictly increasing byte-wise order of their
/// names, each class of a registered member exactly once.
pub proof fn lemma_class_order(members: Seq<MemberView>)
    ensures
        strictly_sorted(class_names(members)),
        forall|c: Seq<char>|
            class_names(members).contains(c) <==> exists|i: int|
                0 <= i < members.len() && #[trigger] members[i].class_name == c,
{
    let names = members.map_values(|m: MemberView| m.class_name);
    assert(class_names(members) == sorted_names(names));
    lemma_sorted_names(names);
    assert forall|c: Seq<char>|
        class_names(members).contains(c) implies exists|i: int|
            0 <= i < members.len() && #[trigger] members[i].class_name == c by {
        let k = choose|k: int| 0 <= k < names.len() && names[k] == c;
        assert(members[k].class_name == c);
    }
    assert forall|c: Seq<char>|
        (exists|i: int| 0 <= i < members.len() && #[trigger] members[i].class_name == c)
        implies class_names(members).contains(c) by {
        let i = choose|i: int| 0 <= i < members.len() && #[trigger] members[i].class_name == c;
        assert(names[i] == c);
    }
}

/// Whether `needle` occurs in `hay`.
pub open spec fn has_text(hay: Seq<char>, needle: Seq<char>) -> bool {
    exists|i: int|
        0 <= i && i + needle.len() <= hay.len() && #[trigger] hay.subrange(i, i + needle.len())
            == needle
}

proof fn lemma_has_text_self(n: Seq<char>)
    ensures
        has_text(n, n),
{
    let i: int = 0;
    assert(n.subrange(i, i + n.len()) =~= n);
}

/// Text found in a part is found in any text that contains the part.
proof fn lemma_has_text_grows(n: Seq<char>)
    ensures
        forall|a: Seq<char>, b: Seq<char>|
            #![trigger a + b]
            (has_text(a, n) || has_text(b, n)) ==> has_text(a + b, n),
{
    assert forall|a: Seq<char>, b: Seq<char>| (has_text(a, n) || has_text(b, n)) implies has_text(
        a + b,
        n,
    ) by {
        if has_text(a, n) {
            let i = choose|i: int|
                0 <= i && i + n.len() <= a.len() && #[trigger] a.subrange(i, i + n.len()) == n;
            assert((a + b).subrange(i, i + n.len()) =~= a.subrange(i, i + n.len()));
        } else {
            let i = choose|i: int|
                0 <= i && i + n.len() <= b.len() && #[trigger] b.subrange(i, i + n.len()) == n;
            assert((a + b).subrange(a.len() + i, a.len() + i + n.len()) =~= b.subrange(
                i,
                i + n.len(),
            ));
        }
    }
}

/// Text found in the piece of one element is found in the concatenation of the pieces.
proof fn lemma_concat_map_has<A>(s: Seq<A>, f: spec_fn(A) -> Seq<char>, k: int, n: Seq<char>)
    requires
        0 <= k < s.len(),
        has_text(f(s[k]), n),
    ensures
        has_text(concat_map(s, f), n),
    decreases s.len(),
{
    lemma_has_text_grows(n);
    let p = s.drop_last();
    if k < s.len() - 1 {
        assert(p[k] == s[k]);
        lemma_concat_map_has(p, f, k, n);
    }
    assert(concat_map(s, f) == concat_map(p, f) + f(s.last()));
}

/// A member of a kind and name makes the last member of that kind and name exist.
proof fn lemma_last_member_found(ms: Seq<MemberView>, kind: JsClassMemberKind, name: Seq<char>, x: MemberView)
    requires
        ms.contains(x),
        x.kind == kind,
        x.member_name == name,
    ensures
        last_member(ms, kind, name) matches Some(m) && ms.contains(m) && m.kind == kind
            && m.member_name == name,
    decreases ms.len(),
{
    let p = ms.drop_last();
    if ms.last().kind == kind && ms.last().member_name == name {
        assert(ms[ms.len() - 1] == ms.last());
    } else {
        let i = choose|i: int| 0 <= i < ms.len() && ms[i] == x;
        assert(i < ms.len() - 1);
        assert(p[i] == x);
        lemma_last_member_found(p, kind, name, x);
        let m = last_member(p, kind, name)->0;
        let j = choose|j: int| 0 <= j < p.len() && p[j] == m;
        assert(ms[j] == m);
    }
}

/// The accessor lines of the property of an accessor member are in the script, within
/// the text of its class; the last accessor of each kind of that name and class is the
/// one used, and it is a member of the class.
proof fn lemma_property_lines_in_script(
    contents: Seq<Seq<char>>,
    codes: Seq<Seq<char>>,
    members: Seq<MemberView>,
    k: int,
)
    requires
        0 <= k < members.len(),
        is_accessor(members[k]),
    ensures
        has_text(
            script_text(contents, codes, members),
            property_lines(members_of(members, members[k].class_name), members[k].member_name),
        ),
{
    let x = members[k];
    let c = x.class_name;
    let name = x.member_name;
    let ms = members_of(members, c);
    let pred = |m: MemberView| m.class_name == c;
    members.lemma_filter_contains(pred, k);
    assert(ms.contains(x));
    let t = choose|t: int| 0 <= t < ms.len() && ms[t] == x;
    let acc = ms.filter(|m: MemberView| is_accessor(m));
    ms.lemma_filter_contains(|m: MemberView| is_accessor(m), t);
    let u = choose|u: int| 0 <= u < acc.len() && acc[u] == x;
    let names = acc.map_values(|m: MemberView| m.member_name);
    assert(names[u] == name);
    assert(names.contains(name));
    lemma_sorted_names(names);
    assert(property_names(ms).contains(name));
    let q = choose|q: int| 0 <= q < property_names(ms).len() && property_names(ms)[q] == name;
    let lines = property_lines(ms, name);
    lemma_has_text_self(lines);
    let fp = |p: Seq<char>| property_lines(ms, p);
    lemma_concat_map_has(property_names(ms), fp, q, lines);
    lemma_has_text_grows(lines);
    assert(has_text(class_body(ms, c), lines));
    lemma_class_order(members);
    assert(class_names(members).contains(c));
    let ci = choose|ci: int| 0 <= ci < class_names(members).len() && class_names(members)[ci] == c;
    let fc = |cn: Seq<char>| class_text(members, cn);
    lemma_concat_map_has(class_names(members), fc, ci, lines);
    assert(has_text(script_text(contents, codes, members), lines));
}

/// Every setter of an exported class is in the script: the text of its class has a
/// `set` accessor of the member's name that calls the export of a setter of that
/// class and name (the last one registered), whether or not a getter of that name
/// exists.
pub proof fn lemma_setters_in_script(
    contents: Seq<Seq<char>>,
    codes: Seq<Seq<char>>,
    members: Seq<MemberView>,
    k: int,
)
    requires
        0 <= k < members.len(),
        members[k].kind == JsClassMemberKind::Setter,
    ensures
        exists|j: int|
            0 <= j < members.len() && members[j].kind == JsClassMemberKind::Setter
                && members[j].class_name == members[k].class_name && members[j].member_name
                == members[k].member_name && has_text(
                script_text(contents, codes, members),
                "    set "@ + members[k].member_name + "(v) { window.__wryCallExport(\""@
                    + #[trigger] members[j].export_name + "\", this.__handle, v); }"@,
            ),
{
    let x = members[k];
    let c = x.class_name;
    let ms = members_of(members, c);
    lemma_property_lines_in_script(contents, codes, members, k);
    members.lemma_filter_contains(|m: MemberView| m.class_name == c, k);
    lemma_last_member_found(ms, JsClassMemberKind::Setter, x.member_name, x);
    let m = last_member(ms, JsClassMemberKind::Setter, x.member_name)->0;
    let line = "    set "@ + x.member_name + "(v) { window.__wryCallExport(\""@ + m.export_name
        + "\", this.__handle, v); }"@;
    assert(line == setter_line(x.member_name, m.export_name));
    lemma_has_text_self(line);
    lemma_has_text_grows(line);
    let lines = property_lines(ms, x.member_name);
    assert(has_text(lines, line));
    lemma_has_text_within(script_text(contents, codes, members), lines, line);
    let t = choose|t: int| 0 <= t < ms.len() && ms[t] == m;
    members.lemma_filter_pred(|m: MemberView| m.class_name == c, t);
    members.lemma_filter_contains_rev(|m: MemberView| m.class_name == c, m);
    let j = choose|j: int| 0 <= j < members.len() && members[j] == m;
    assert(members[j].export_name == m.export_name);
}

/// Every getter of an exported class is in the script: the text of its class has a
/// `get` accessor of the member's name that calls the export of a getter of that class
/// and name (the last one registered), whether or not a setter of that name exists.
pub proof fn lemma_getters_in_script(
    contents: Seq<Seq<char>>,
    codes: Seq<Seq<char>>,
    members: Seq<MemberView>,
    k: int,
)
    requires
        0 <= k < members.len(),
        members[k].kind == JsClassMemberKind::Getter,
    ensures
        exists|j: int|
            0 <= j < members.len() && members[j].kind == JsClassMemberKind::Getter
                && members[j].class_name == members[k].class_name && members[j].member_name
                == members[k].member_name && has_text(
                script_text(contents, codes, members),
                "    get "@ + members[k].member_name + "() { return window.__wryCallExport(\""@
                    + #[trigger] members[j].export_name + "\", this.__handle); }"@,
            ),
{
    let x = members[k];
    let c = x.class_name;
    let ms = members_of(members, c);
    lemma_property_lines_in_script(contents, codes, members, k);
    members.lemma_filter_contains(|m: MemberView| m.class_name == c, k);
    lemma_last_member_found(ms, JsClassMemberKind::Getter, x.member_name, x);
    let m = last_member(ms, JsClassMemberKind::Getter, x.member_name)->0;
    let line = "    get "@ + x.member_name + "() { return window.__wryCallExport(\""@ + m.export_name
        + "\", this.__handle); }"@;
    assert(line == getter_line(x.member_name, m.export_name));
    lemma_has_text_self(line);
    lemma_has_text_grows(line);
    let lines = property_lines(ms, x.member_name);
    assert(has_text(lines, line));
    lemma_has_text_within(script_text(contents, codes, members), lines, line);
    let t = choose|t: int| 0 <= t < ms.len() && ms[t] == m;
    members.lemma_filter_pred(|m: MemberView| m.class_name == c, t);
    members.lemma_filter_contains_rev(|m: MemberView| m.class_name == c, m);
    let j = choose|j: int| 0 <= j < members.len() && members[j] == m;
    assert(members[j].export_name == m.export_name);
}

/// Text found within text found in a third is found in the third.
proof fn lemma_has_text_within(hay: Seq<char>, mid: Seq<char>, n: Seq<char>)
    requires
        has_text(hay, mid),
        has_text(mid, n),
    ensures
        has_text(hay, n),
{
    let i = choose|i: int|
        0 <= i && i + mid.len() <= hay.len() && #[trigger] hay.subrange(i, i + mid.len()) == mid;
    let j = choose|j: int| 0 <= j && j + n.len() <= mid.len() && #[trigger] mid.subrange(j, j + n.len()) == n;
    assert(hay.subrange(i + j, i + j + n.len()) =~= mid.subrange(j, j + n.len()));
}

/// The method line and the static line of every member are in the script.
proof fn lemma_member_lines_in_script(
    contents: Seq<Seq<char>>,
    codes: Seq<Seq<char>>,
    members: Seq<MemberView>,
    k: int,
)
    requires
        0 <= k < members.len(),
    ensures
        has_text(script_text(contents, codes, members), method_line(members[k])),
        has_text(script_text(contents, codes, members), static_line(members[k])),
{
    let x = members[k];
    let c = x.class_name;
    let ms = members_of(members, c);
    members.lemma_filter_contains(|m: MemberView| m.class_name == c, k);
    assert(ms.contains(x));
    let t = choose|t: int| 0 <= t < ms.len() && ms[t] == x;
    lemma_class_order(members);
    assert(class_names(members).contains(c));
    let ci = choose|ci: int| 0 <= ci < class_names(members).len() && class_names(members)[ci] == c;
    let fc = |cn: Seq<char>| class_text(members, cn);
    let ml = method_line(x);
    lemma_has_text_self(ml);
    lemma_concat_map_has(ms, |m: MemberView| method_line(m), t, ml);
    lemma_has_text_grows(ml);
    assert(has_text(class_body(ms, c), ml));
    lemma_concat_map_has(class_names(members), fc, ci, ml);
    assert(has_text(script_text(contents, codes, members), ml));
    let sl = static_line(x);
    lemma_has_text_self(sl);
    lemma_concat_map_has(ms, |m: MemberView| static_line(m), t, sl);
    lemma_has_text_grows(sl);
    assert(has_text(class_body(ms, c), sl));
    lemma_concat_map_has(class_names(members), fc, ci, sl);
    assert(has_text(script_text(contents, codes, members), sl));
}

/// Every instance method, constructor and static method of an exported class is in the
/// script, calling its export with its arguments: an instance method on the class
/// prototype passes the object's handle first; a constructor wraps the handle it gets
/// back in an object of the class; a static method returns what the export returns.
pub proof fn lemma_class_members_in_script(
    contents: Seq<Seq<char>>,
    codes: Seq<Seq<char>>,
    members: Seq<MemberView>,
    k: int,
)
    requires
        0 <= k < members.len(),
    ensures
        ({
            let m = members[k];
            let args = args_text(m.arg_count as nat);
            let script = script_text(contents, codes, members);
            &&& m.kind == JsClassMemberKind::Method ==> has_text(
                script,
                "    "@ + m.member_name + "("@ + args + ") { return window.__wryCallExport(\""@
                    + m.export_name + "\", "@ + (if m.arg_count > 0 {
                    "this.__handle, "@ + args
                } else {
                    "this.__handle"@
                }) + "); }\n"@,
            )
            &&& m.kind == JsClassMemberKind::Constructor ==> has_text(
                script,
                "  "@ + m.class_name + "."@ + m.member_name + " = function("@ + args
                    + ") { const handle = window.__wryCallExport(\""@ + m.export_name + "\", "@
                    + args + "); return "@ + m.class_name + ".__wrap(handle); };\n"@,
            )
            &&& m.kind == JsClassMemberKind::StaticMethod ==> has_text(
                script,
                "  "@ + m.class_name + "."@ + m.member_name + " = function("@ + args
                    + ") { return window.__wryCallExport(\""@ + m.export_name + "\", "@ + args
                    + "); };\n"@,
            )
        }),
{
    lemma_member_lines_in_script(contents, codes, members, k);
}

/// Each code is among the codes joined.
proof fn lemma_join_codes_has(codes: Seq<Seq<char>>, i: int)
    requires
        0 <= i < codes.len(),
    ensures
        has_text(join_codes(codes), codes[i]),
    decreases codes.len(),
{
    lemma_has_text_self(codes[i]);
    lemma_has_text_grows(codes[i]);
    if codes.len() > 1 && i < codes.len() - 1 {
        let p = codes.drop_last();
        assert(p[i] == codes[i]);
        lemma_join_codes_has(p, i);
    }
}

/// The code of every registered function is in the script, and the codes are joined in
/// the order of registration: the code at position `i` follows all codes before it, so
/// the id a function gets is its position.
pub proof fn lemma_function_codes_in_script(
    contents: Seq<Seq<char>>,
    codes: Seq<Seq<char>>,
    members: Seq<MemberView>,
    i: int,
)
    requires
        0 <= i < codes.len(),
    ensures
        has_text(script_text(contents, codes, members), codes[i]),
        i > 0 ==> join_codes(codes.take(i + 1)) == join_codes(codes.take(i)) + ",\n"@ + codes[i],
{
    lemma_join_codes_has(codes, i);
    lemma_has_text_grows(codes[i]);
    assert(has_text(script_text(contents, codes, members), codes[i]));
    if i > 0 {
        assert(codes.take(i + 1).drop_last() =~= codes.take(i));
    }
}

/// Each distinct module hash is imported in the script, from its snippet path.
pub proof fn lemma_modules_imported(
    contents: Seq<Seq<char>>,
    codes: Seq<Seq<char>>,
    members: Seq<MemberView>,
    i: int,
)
    requires
        0 <= i < contents.len(),
    ensures
        has_text(
            script_text(contents, codes, members),
            "  const module_"@ + module_hash(contents[i]) + " = await import('/__wbg__/snippets/"@
                + module_hash(contents[i]) + ".js');\n"@,
        ),
{
    let h = module_hash(contents[i]);
    let line = "  const module_"@ + h + " = await import('/__wbg__/snippets/"@ + h + ".js');\n"@;
    assert(line == import_line(h));
    let hs = module_hashes(contents);
    assert(hs[i] == h);
    lemma_distinct_in_order_contains(hs, i);
    let k = choose|k: int| 0 <= k < distinct_in_order(hs).len() && distinct_in_order(hs)[k] == h;
    lemma_has_text_self(line);
    lemma_concat_map_has(distinct_in_order(hs), |x: Seq<char>| import_line(x), k, line);
    lemma_has_text_grows(line);
    assert(has_text(script_text(contents, codes, members), line));
}

/// Every element of a sequence is among its distinct elements.
proof fn lemma_distinct_in_order_contains<A>(s: Seq<A>, i: int)
    requires
        0 <= i < s.len(),
    ensures
        distinct_in_order(s).contains(s[i]),
    decreases s.len(),
{
    let p = s.drop_last();
    if i < s.len() - 1 {
        assert(p[i] == s[i]);
        lemma_distinct_in_order_contains(p, i);
        let d = distinct_in_order(p);
        let k = choose|k: int| 0 <= k < d.len() && d[k] == s[i];
        if !d.contains(s.last()) {
            assert(d.push(s.last())[k] == s[i]);
        }
    } else {
        let d = distinct_in_order(p);
        if !d.contains(s.last()) {
            assert(d.push(s.last())[d.len() as int] == s.last());
        }
    }
}

} // verus!
