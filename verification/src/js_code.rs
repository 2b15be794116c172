//! The JavaScript text that the bindings generate for imported functions.

use vstd::prelude::*;
use vstd::string::*;
use crate::registry::args_text;
use crate::registry::generate_args;
use crate::text::str_eq;

verus! {

/// JavaScript function code parts
pub struct JsCode {
    /// Function parameters (e.g., "(arg1, arg2)" or "(obj, arg1, arg2)")
    pub params: String,
    /// Function body (e.g., "obj.method(arg1, arg2)" or "new Class(arg1)")
    pub body: String,
}

impl JsCode {
    /// Convert to a complete JavaScript arrow function
    pub fn to_arrow_function(&self) -> (r: String)
        ensures
            r@ == self.params@ + " => "@ + self.body@,
    {
        let mut s = String::new();
        s.append(self.params.as_str());
        s.append(" => ");
        s.append(self.body.as_str());
        s
    }
}

/// The body of a function that catches what the given body throws: it returns
/// `{ ok: value }`, or `{ err: exception }`. The braces are doubled, for use as a
/// format string.
pub fn wrap_body_with_try_catch(body: &str) -> (r: String)
    ensures
        r@ == "{{ try {{ return {{ ok: "@ + body@ + " }}; }} catch(e) {{ return {{ err: e }}; }} }}"@,
{
    let mut s = String::new();
    s.append("{{ try {{ return {{ ok: ");
    s.append(body);
    s.append(" }}; }} catch(e) {{ return {{ err: e }}; }} }}");
    s
}


/// The kind of an imported JavaScript function, with what its code names.
pub enum JsImportKind {
    /// Regular function (not a method)
    Normal,
    /// Instance method
    Method,
    /// Property getter
    Getter { property: String },
    /// Property setter
    Setter { property: String },
    /// Constructor of a class
    Constructor { class: String },
    /// Static method of a class
    StaticMethod { class: String },
}

/// The names separated by dots.
pub open spec fn dotted(names: Seq<Seq<char>>) -> Seq<char>
    decreases names.len(),
{
    if names.len() == 0 {
        Seq::empty()
    } else if names.len() == 1 {
        names[0]
    } else {
        dotted(names.drop_last()) + "."@ + names.last()
    }
}

/// The views of a sequence of strings.
pub open spec fn views(v: Seq<String>) -> Seq<Seq<char>> {
    v.map_values(|s: String| s@)
}

/// The path before a name: the prefix, then the namespace (if any) and a dot.
pub open spec fn namespace_prefix(prefix: Seq<char>, namespace: Option<Seq<Seq<char>>>) -> Seq<char> {
    match namespace {
        Some(ns) => if ns.len() > 0 {
            prefix + dotted(ns) + "."@
        } else {
            prefix
        },
        None => prefix,
    }
}

/// One vendor-prefixed alternative of a constructor; the last one falls back to
/// `undefined`.
pub open spec fn vendor_alternative(p: Seq<char>, name: Seq<char>, last: bool) -> Seq<char> {
    "(typeof "@ + p + name + " !== 'undefined' ? "@ + p + name + if last {
        " : undefined)"@
    } else {
        " : "@
    }
}

/// The vendor-prefixed alternatives of the first `k` prefixes.
pub open spec fn vendor_alternatives(
    p: Seq<char>,
    class: Seq<char>,
    prefixes: Seq<Seq<char>>,
    k: nat,
) -> Seq<char>
    decreases k,
{
    if k == 0 {
        Seq::empty()
    } else {
        vendor_alternatives(p, class, prefixes, (k - 1) as nat) + vendor_alternative(
            p,
            prefixes[k - 1] + class,
            k == prefixes.len(),
        )
    }
}

/// `n` closing parentheses.
pub open spec fn closing_parens(n: nat) -> Seq<char> {
    Seq::new(n, |i: int| ')')
}

/// How many parentheses are still open after the alternatives of `k` prefixes: the
/// class's own and one per prefix but the last, which closes itself.
pub open spec fn open_after_alternatives(k: nat) -> nat {
    if k == 0 {
        1
    } else {
        k
    }
}

/// Append `n` closing parentheses.
fn push_closing_parens(s: &mut String, n: usize)
    ensures
        final(s)@ == old(s)@ + closing_parens(n as nat),
{
    proof {
        reveal_strlit(")");
    }
    let ghost head = s@;
    let mut i: usize = 0;
    assert(head + closing_parens(0) =~= head);
    while i < n
        invariant
            i <= n,
            s@ == head + closing_parens(i as nat),
        decreases n - i,
    {
        proof {
            reveal_strlit(")");
            assert(closing_parens(i as nat + 1) =~= closing_parens(i as nat).push(')'));
        }
        s.append(")");
        i = i + 1;
        assert(s@ =~= head + closing_parens(i as nat));
    }
}

/// The expression that picks a constructor: the class itself if it is defined, else
/// the first of its vendor-prefixed names that is; every parenthesis it opens is
/// closed at its end.
pub open spec fn vendor_constructor(p: Seq<char>, class: Seq<char>, prefixes: Seq<Seq<char>>) -> Seq<
    char,
> {
    "(typeof "@ + p + class + " !== 'undefined' ? "@ + p + class + " : "@ + vendor_alternatives(
        p,
        class,
        prefixes,
        prefixes.len(),
    ) + closing_parens(open_after_alternatives(prefixes.len()))
}

/// Generate the constructor expression that falls back to vendor-prefixed names.
#[verifier::spinoff_prover]
pub fn generate_vendor_prefixed_constructor(class: &str, prefixes: &Vec<String>, prefix: &str) -> (r:
    String)
    ensures
        r@ == vendor_constructor(prefix@, class@, views(prefixes@)),
{
    let ghost ps = views(prefixes@);
    let mut result = String::new();
    result.append("(typeof ");
    result.append(prefix);
    result.append(class);
    result.append(" !== 'undefined' ? ");
    result.append(prefix);
    result.append(class);
    result.append(" : ");
    let ghost head = result@;
    let mut i: usize = 0;
    while i < prefixes.len()
        invariant
            i <= prefixes@.len(),
            ps == views(prefixes@),
            result@ == head + vendor_alternatives(prefix@, class@, ps, i as nat),
        decreases prefixes@.len() - i,
    {
        let mut prefixed = String::new();
        prefixed.append(prefixes[i].as_str());
        prefixed.append(class);
        result.append("(typeof ");
        result.append(prefix);
        result.append(prefixed.as_str());
        result.append(" !== 'undefined' ? ");
        result.append(prefix);
        result.append(prefixed.as_str());
        if i == prefixes.len() - 1 {
            result.append(" : undefined)");
        } else {
            result.append(" : ");
        }
        i = i + 1;
        assert(result@ =~= head + vendor_alternatives(prefix@, class@, ps, i as nat));
    }
    let open = if prefixes.len() == 0 {
        1
    } else {
        prefixes.len()
    };
    push_closing_parens(&mut result, open);
    assert(result@ =~= vendor_constructor(prefix@, class@, ps));
    result
}

/// The constructor prefixes registered for a class, if any.
pub open spec fn vendor_prefixes_of(table: Seq<(Seq<char>, Seq<Seq<char>>)>, class: Seq<char>) -> Option<
    Seq<Seq<char>>,
>
    decreases table.len(),
{
    if table.len() == 0 {
        None
    } else if table[0].0 == class {
        Some(table[0].1)
    } else {
        vendor_prefixes_of(table.drop_first(), class)
    }
}

/// The views of a table of vendor prefixes.
pub open spec fn table_views(t: Seq<(String, Vec<String>)>) -> Seq<(Seq<char>, Seq<Seq<char>>)> {
    t.map_values(|e: (String, Vec<String>)| (e.0@, views(e.1@)))
}

/// The parameters and body of the code of an imported function.
pub open spec fn import_code(
    js_name: Seq<char>,
    p: Seq<char>,
    arg_count: nat,
    kind: JsImportKind,
    vendors: Seq<(Seq<char>, Seq<Seq<char>>)>,
) -> (Seq<char>, Seq<char>) {
    let args = args_text(arg_count);
    match kind {
        JsImportKind::Normal => ("("@ + args + ")"@, p + js_name + "("@ + args + ")"@),
        JsImportKind::Method => if arg_count == 0 {
            ("(obj)"@, "obj."@ + js_name + "()"@)
        } else {
            ("(obj, "@ + args + ")"@, "obj."@ + js_name + "("@ + args + ")"@)
        },
        JsImportKind::Getter { property } => ("(obj)"@, "obj."@ + property@),
        JsImportKind::Setter { property } => ("(obj, value)"@, "obj."@ + property@ + " = value"@),
        JsImportKind::Constructor { class } => (
            "("@ + args + ")"@,
            match vendor_prefixes_of(vendors, class@) {
                Some(prefixes) => if prefixes.len() > 0 {
                    "new ("@ + vendor_constructor(p, class@, prefixes) + ")("@ + args + ")"@
                } else {
                    "new "@ + p + class@ + "("@ + args + ")"@
                },
                None => "new "@ + p + class@ + "("@ + args + ")"@,
            },
        ),
        JsImportKind::StaticMethod { class } => (
            "("@ + args + ")"@,
            p + class@ + "."@ + js_name + "("@ + args + ")"@,
        ),
    }
}

/// The body of a function that catches what `body` throws, as `wrap_body_with_try_catch`
/// writes it.
pub open spec fn try_catch_body(body: Seq<char>) -> Seq<char> {
    "{{ try {{ return {{ ok: "@ + body + " }}; }} catch(e) {{ return {{ err: e }}; }} }}"@
}

/// The names separated by dots.
fn join_dotted(names: &Vec<String>) -> (r: String)
    ensures
        r@ == dotted(views(names@)),
{
    let ghost v = views(names@);
    let mut s = String::new();
    let mut i: usize = 0;
    assert(v.take(0) =~= Seq::<Seq<char>>::empty());
    while i < names.len()
        invariant
            i <= names@.len(),
            v == views(names@),
            s@ == dotted(v.take(i as int)),
        decreases names@.len() - i,
    {
        assert(v.take(i + 1).drop_last() =~= v.take(i as int));
        if i > 0 {
            s.append(".");
        } else {
            assert(v.take(1) =~= seq![v[0]]);
        }
        s.append(names[i].as_str());
        i = i + 1;
        assert(s@ =~= dotted(v.take(i as int)));
    }
    assert(v.take(i as int) =~= v);
    s
}

/// The prefixes registered for a class.
fn find_vendor_prefixes<'t>(table: &'t Vec<(String, Vec<String>)>, class: &str) -> (r: Option<&'t Vec<String>>)
    ensures
        match r {
            Some(ps) => vendor_prefixes_of(table_views(table@), class@) == Some(views(ps@)),
            None => vendor_prefixes_of(table_views(table@), class@) is None,
        },
{
    let ghost t = table_views(table@);
    let mut i: usize = 0;
    assert(t.skip(0) =~= t);
    while i < table.len()
        invariant
            i <= table@.len(),
            t == table_views(table@),
            vendor_prefixes_of(t, class@) == vendor_prefixes_of(t.skip(i as int), class@),
        decreases table@.len() - i,
    {
        assert(t.skip(i as int).drop_first() =~= t.skip(i + 1));
        assert(t.skip(i as int)[0] == t[i as int]);
        if str_eq(table[i].0.as_str(), class) {
            return Some(&table[i].1);
        }
        i = i + 1;
    }
    None
}

/// Generate the JavaScript code of an imported function: an arrow function over the
/// arguments `a0, a1, ...` (after the receiver `obj` for methods and accessors), whose
/// body calls the function under the namespace, wrapped in a try-catch when the
/// function catches exceptions.
pub fn generate_js_code(
    js_name: &str,
    namespace: &Option<Vec<String>>,
    arg_count: usize,
    kind: &JsImportKind,
    catch: bool,
    vendor_prefixes: &Vec<(String, Vec<String>)>,
    prefix: &str,
) -> (r: JsCode)
    ensures
        ({
            let p = namespace_prefix(
                prefix@,
                match namespace {
                    Some(ns) => Some(views(ns@)),
                    None => None,
                },
            );
            let code = import_code(js_name@, p, arg_count as nat, *kind, table_views(vendor_prefixes@));
            &&& r.params@ == code.0
            &&& r.body@ == if catch {
                try_catch_body(code.1)
            } else {
                code.1
            }
        }),
{
    let mut p = String::new();
    p.append(prefix);
    if let Some(ns) = namespace {
        if ns.len() > 0 {
            let joined = join_dotted(ns);
            p.append(joined.as_str());
            p.append(".");
        }
    }
    let args = generate_args(arg_count);
    let mut params = String::new();
    let mut body = String::new();
    match kind {
        JsImportKind::Normal => {
            params.append("(");
            params.append(args.as_str());
            params.append(")");
            body.append(p.as_str());
            body.append(js_name);
            body.append("(");
            body.append(args.as_str());
            body.append(")");
        },
        JsImportKind::Method => {
            if arg_count == 0 {
                params.append("(obj)");
                body.append("obj.");
                body.append(js_name);
                body.append("()");
            } else {
                params.append("(obj, ");
                params.append(args.as_str());
                params.append(")");
                body.append("obj.");
                body.append(js_name);
                body.append("(");
                body.append(args.as_str());
                body.append(")");
            }
        },
        JsImportKind::Getter { property } => {
            params.append("(obj)");
            body.append("obj.");
            body.append(property.as_str());
        },
        JsImportKind::Setter { property } => {
            params.append("(obj, value)");
            body.append("obj.");
            body.append(property.as_str());
            body.append(" = value");
        },
        JsImportKind::Constructor { class } => {
            params.append("(");
            params.append(args.as_str());
            params.append(")");
            let vendors = find_vendor_prefixes(vendor_prefixes, class.as_str());
            let prefixed = match vendors {
                Some(prefixes) => prefixes.len() > 0,
                None => false,
            };
            if prefixed {
                let prefixes = vendors.unwrap();
                let ctor = generate_vendor_prefixed_constructor(class.as_str(), prefixes, p.as_str());
                body.append("new (");
                body.append(ctor.as_str());
                body.append(")(");
            } else {
                body.append("new ");
                body.append(p.as_str());
                body.append(class.as_str());
                body.append("(");
            }
            body.append(args.as_str());
            body.append(")");
        },
        JsImportKind::StaticMethod { class } => {
            params.append("(");
            params.append(args.as_str());
            params.append(")");
            body.append(p.as_str());
            body.append(class.as_str());
            body.append(".");
            body.append(js_name);
            body.append("(");
            body.append(args.as_str());
            body.append(")");
        },
    }
    let body = if catch {
        wrap_body_with_try_catch(body.as_str())
    } else {
        body
    };
    JsCode { params, body }
}

/// JavaScript code to access a static value: an arrow function without parameters
/// that reads the name under the prefix and namespace.
pub fn generate_static_js_code(js_name: &str, namespace: &Option<Vec<String>>, prefix: &str) -> (r:
    String)
    ensures
        r@ == "() => "@ + namespace_prefix(
            prefix@,
            match namespace {
                Some(ns) => Some(views(ns@)),
                None => None,
            },
        ) + js_name@,
{
    let mut s = String::new();
    s.append("() => ");
    s.append(prefix);
    if let Some(ns) = namespace {
        if ns.len() > 0 {
            let joined = join_dotted(ns);
            s.append(joined.as_str());
            s.append(".");
        }
    }
    s.append(js_name);
    s
}

/// The vendor-prefixed alternatives of a class in an `instanceof` check, for the first
/// `k` prefixes; the last one falls back to `Object`.
pub open spec fn instanceof_alternatives(class: Seq<char>, prefixes: Seq<Seq<char>>, k: nat) -> Seq<
    char,
>
    decreases k,
{
    if k == 0 {
        Seq::empty()
    } else {
        let name = prefixes[k - 1] + class;
        instanceof_alternatives(class, prefixes, (k - 1) as nat) + "(typeof "@ + name
            + " !== 'undefined' ? "@ + name + if k == prefixes.len() {
            " : Object)"@
        } else {
            " : "@
        }
    }
}

/// The JavaScript check that a value is an instance of a class: a plain `instanceof`,
/// or, with vendor prefixes, one against the first of the class and its prefixed
/// names that is defined; every parenthesis it opens is closed at its end.
pub open spec fn instanceof_code(js_name: Seq<char>, prefixes: Seq<Seq<char>>) -> Seq<char> {
    if prefixes.len() == 0 {
        "(a0) => a0 instanceof "@ + js_name
    } else {
        "(a0) => a0 instanceof "@ + "(typeof "@ + js_name + " !== 'undefined' ? "@ + js_name
            + " : "@ + instanceof_alternatives(js_name, prefixes, prefixes.len())
            + closing_parens(prefixes.len())
    }
}

/// Generate the JavaScript `instanceof` check of an imported type.
#[verifier::spinoff_prover]
pub fn generate_instanceof_js_code(js_name: &str, vendor_prefixes: &Vec<String>) -> (r: String)
    ensures
        r@ == instanceof_code(js_name@, views(vendor_prefixes@)),
{
    let ghost ps = views(vendor_prefixes@);
    let mut s = String::new();
    s.append("(a0) => a0 instanceof ");
    if vendor_prefixes.len() == 0 {
        s.append(js_name);
        return s;
    }
    s.append("(typeof ");
    s.append(js_name);
    s.append(" !== 'undefined' ? ");
    s.append(js_name);
    s.append(" : ");
    let ghost head = s@;
    let mut i: usize = 0;
    while i < vendor_prefixes.len()
        invariant
            i <= vendor_prefixes@.len(),
            ps == views(vendor_prefixes@),
            s@ == head + instanceof_alternatives(js_name@, ps, i as nat),
        decreases vendor_prefixes@.len() - i,
    {
        let mut prefixed = String::new();
        prefixed.append(vendor_prefixes[i].as_str());
        prefixed.append(js_name);
        s.append("(typeof ");
        s.append(prefixed.as_str());
        s.append(" !== 'undefined' ? ");
        s.append(prefixed.as_str());
        if i == vendor_prefixes.len() - 1 {
            s.append(" : Object)");
        } else {
            s.append(" : ");
        }
        i = i + 1;
        assert(s@ =~= head + instanceof_alternatives(js_name@, ps, i as nat));
    }
    push_closing_parens(&mut s, vendor_prefixes.len());
    assert(s@ =~= instanceof_code(js_name@, ps));
    s
}

/// The name under which an imported function is looked up in the registry.
pub open spec fn registry_name(
    rust_name: Seq<char>,
    kind: JsImportKind,
    js_class: Option<Seq<char>>,
    namespace: Option<Seq<Seq<char>>>,
) -> Seq<char> {
    match kind {
        JsImportKind::Normal => match namespace {
            Some(ns) => dotted(ns) + "::"@ + rust_name,
            None => rust_name,
        },
        JsImportKind::Method | JsImportKind::Getter { .. } | JsImportKind::Setter { .. } => (match js_class {
            Some(c) => c,
            None => "global"@,
        }) + "::"@ + rust_name,
        JsImportKind::Constructor { class } => class@ + "::new"@,
        JsImportKind::StaticMethod { class } => class@ + "::"@ + rust_name,
    }
}

/// The registry name of an imported function: its namespace and name, its class
/// (or `global`) and name for methods and accessors, `Class::new` for constructors.
pub fn function_registry_name(
    rust_name: &str,
    kind: &JsImportKind,
    js_class: &Option<String>,
    namespace: &Option<Vec<String>>,
) -> (r: String)
    ensures
        r@ == registry_name(
            rust_name@,
            *kind,
            match js_class {
                Some(c) => Some(c@),
                None => None,
            },
            match namespace {
                Some(ns) => Some(views(ns@)),
                None => None,
            },
        ),
{
    let mut s = String::new();
    match kind {
        JsImportKind::Normal => {
            if let Some(ns) = namespace {
                let joined = join_dotted(ns);
                s.append(joined.as_str());
                s.append("::");
            }
            s.append(rust_name);
        },
        JsImportKind::Method | JsImportKind::Getter { .. } | JsImportKind::Setter { .. } => {
            match js_class {
                Some(c) => s.append(c.as_str()),
                None => s.append("global"),
            }
            s.append("::");
            s.append(rust_name);
        },
        JsImportKind::Constructor { class } => {
            s.append(class.as_str());
            s.append("::new");
        },
        JsImportKind::StaticMethod { class } => {
            s.append(class.as_str());
            s.append("::");
            s.append(rust_name);
        },
    }
    s
}

/// A constructor without vendor prefixes names its class under the same path as a
/// static method of that class does: its body is `new `, then the namespace prefix
/// (the module prefix, then the namespace joined by dots and a dot), then the class and
/// the argument list; a function under the same namespace is called under the same
/// prefix.
pub proof fn lemma_constructor_path(
    js_name: Seq<char>,
    prefix: Seq<char>,
    namespace: Seq<Seq<char>>,
    arg_count: nat,
    class: String,
    vendors: Seq<(Seq<char>, Seq<Seq<char>>)>,
)
    requires
        match vendor_prefixes_of(vendors, class@) {
            Some(ps) => ps.len() == 0,
            None => true,
        },
    ensures
        ({
            let p = namespace_prefix(prefix, Some(namespace));
            let path_len: int = p.len() as int + class@.len() as int;
            let c = import_code(js_name, p, arg_count, JsImportKind::Constructor { class }, vendors).1;
            let s = import_code(js_name, p, arg_count, JsImportKind::StaticMethod { class }, vendors).1;
            let f = import_code(js_name, p, arg_count, JsImportKind::Normal, vendors).1;
            &&& c.len() >= 4 + path_len
            &&& c.take(4) == "new "@
            &&& c.subrange(4, 4 + path_len) == s.take(path_len)
            &&& c.subrange(4, 4 + p.len() as int) == f.take(p.len() as int)
            &&& namespace.len() > 0 ==> c == "new "@ + prefix + dotted(namespace) + "."@ + class@
                + "("@ + args_text(arg_count) + ")"@
            &&& namespace.len() == 0 ==> c == "new "@ + prefix + class@ + "("@ + args_text(
                arg_count,
            ) + ")"@
        }),
{
    let p = namespace_prefix(prefix, Some(namespace));
    let path_len: int = p.len() as int + class@.len() as int;
    let args = args_text(arg_count);
    let c = import_code(js_name, p, arg_count, JsImportKind::Constructor { class }, vendors).1;
    let s = import_code(js_name, p, arg_count, JsImportKind::StaticMethod { class }, vendors).1;
    let f = import_code(js_name, p, arg_count, JsImportKind::Normal, vendors).1;
    reveal_strlit("new ");
    assert(c =~= "new "@ + p + class@ + "("@ + args + ")"@);
    assert(c.take(4) =~= "new "@);
    assert(c.subrange(4, 4 + path_len) =~= p + class@);
    assert(s.take(path_len) =~= p + class@);
    assert(c.subrange(4, 4 + p.len() as int) =~= p);
    assert(f.take(p.len() as int) =~= p);
    if namespace.len() > 0 {
        assert(c =~= "new "@ + prefix + dotted(namespace) + "."@ + class@ + "("@ + args + ")"@);
    } else {
        assert(c =~= "new "@ + prefix + class@ + "("@ + args + ")"@);
    }
}

/// How the codes of the kinds of import relate. Over the same prefix and argument
/// count: a function, a static method and a constructor take the same parameters
/// `(a0, a1, ...)`; the body of a function is its path under the prefix applied to its
/// parameters; a static method's is the class's path, a dot, and the function's name
/// applied to the parameters; a method calls the function's name on `obj`, which comes
/// first among its parameters; a getter reads the property of `obj` and a setter
/// assigns `value` to what the getter reads.
pub proof fn lemma_import_code_relations(
    js_name: Seq<char>,
    p: Seq<char>,
    n: nat,
    property: String,
    class: String,
    vendors: Seq<(Seq<char>, Seq<Seq<char>>)>,
)
    ensures
        ({
            let normal = import_code(js_name, p, n, JsImportKind::Normal, vendors);
            let stat = import_code(js_name, p, n, JsImportKind::StaticMethod { class }, vendors);
            let ctor = import_code(js_name, p, n, JsImportKind::Constructor { class }, vendors);
            let method = import_code(js_name, p, n, JsImportKind::Method, vendors);
            let getter = import_code(js_name, p, n, JsImportKind::Getter { property }, vendors);
            let setter = import_code(js_name, p, n, JsImportKind::Setter { property }, vendors);
            &&& normal.0 == "("@ + args_text(n) + ")"@
            &&& normal.1 == p + js_name + normal.0
            &&& stat.0 == normal.0
            &&& stat.1 == p + class@ + "."@ + js_name + normal.0
            &&& ctor.0 == normal.0
            &&& method.1 == "obj."@ + js_name + normal.0
            &&& n == 0 ==> method.0 == "(obj)"@
            &&& n > 0 ==> method.0 == "(obj, "@ + args_text(n) + ")"@
            &&& getter.0 == "(obj)"@
            &&& getter.1 == "obj."@ + property@
            &&& setter.0 == "(obj, value)"@
            &&& setter.1 == getter.1 + " = value"@
        }),
{
    let args = args_text(n);
    assert(p + js_name + ("("@ + args + ")"@) =~= p + js_name + "("@ + args + ")"@);
    assert(p + class@ + "."@ + js_name + ("("@ + args + ")"@) =~= p + class@ + "."@ + js_name
        + "("@ + args + ")"@);
    assert("obj."@ + js_name + ("("@ + args + ")"@) =~= "obj."@ + js_name + "("@ + args + ")"@);
    if n == 0 {
        assert(args =~= Seq::<char>::empty());
        reveal_strlit("()");
        reveal_strlit("(");
        reveal_strlit(")");
        assert("obj."@ + js_name + ("("@ + args + ")"@) =~= "obj."@ + js_name + "()"@);
    }
}

/// How many more parentheses `s` opens than it closes.
pub open spec fn paren_depth(s: Seq<char>) -> int
    decreases s.len(),
{
    if s.len() == 0 {
        0
    } else {
        paren_depth(s.drop_last()) + if s.last() == '(' {
            1int
        } else if s.last() == ')' {
            -1int
        } else {
            0int
        }
    }
}

proof fn lemma_depth_literal_0()
    ensures
        paren_depth("(typeof "@) == 1,
{
    reveal_strlit("(typeof ");
    reveal_with_fuel(paren_depth, 10);
}

proof fn lemma_depth_literal_1()
    ensures
        paren_depth(" !== 'undefined' ? "@) == 0,
{
    reveal_strlit(" !== 'undefined' ? ");
    reveal_with_fuel(paren_depth, 21);
}

proof fn lemma_depth_literal_2()
    ensures
        paren_depth(" : "@) == 0,
{
    reveal_strlit(" : ");
    reveal_with_fuel(paren_depth, 5);
}

proof fn lemma_depth_literal_3()
    ensures
        paren_depth(" : undefined)"@) == -1,
{
    reveal_strlit(" : undefined)");
    reveal_with_fuel(paren_depth, 15);
}

proof fn lemma_depth_literal_4()
    ensures
        paren_depth(" : Object)"@) == -1,
{
    reveal_strlit(" : Object)");
    reveal_with_fuel(paren_depth, 12);
}

proof fn lemma_depth_literal_5()
    ensures
        paren_depth("(a0) => a0 instanceof "@) == 0,
{
    reveal_strlit("(a0) => a0 instanceof ");
    reveal_with_fuel(paren_depth, 24);
}

/// Parenthesis depth adds up over concatenation.
proof fn lemma_depth_concat(a: Seq<char>, b: Seq<char>)
    ensures
        paren_depth(a + b) == paren_depth(a) + paren_depth(b),
    decreases b.len(),
{
    if b.len() > 0 {
        lemma_depth_concat(a, b.drop_last());
        assert((a + b).drop_last() =~= a + b.drop_last());
    } else {
        assert(a + b =~= a);
    }
}

proof fn lemma_depth_closing(n: nat)
    ensures
        paren_depth(closing_parens(n)) == -n,
    decreases n,
{
    if n > 0 {
        lemma_depth_closing((n - 1) as nat);
        assert(closing_parens(n).drop_last() =~= closing_parens((n - 1) as nat));
    } else {
        assert(closing_parens(0) =~= Seq::<char>::empty());
    }
}

/// Whether no name opens or closes more parentheses than it closes or opens.
pub open spec fn names_balanced(p: Seq<char>, class: Seq<char>, prefixes: Seq<Seq<char>>) -> bool {
    &&& paren_depth(p) == 0
    &&& paren_depth(class) == 0
    &&& forall|i: int| 0 <= i < prefixes.len() ==> paren_depth(#[trigger] prefixes[i]) == 0
}

proof fn lemma_depth_alternatives(p: Seq<char>, class: Seq<char>, prefixes: Seq<Seq<char>>, k: nat)
    requires
        names_balanced(p, class, prefixes),
        k <= prefixes.len(),
    ensures
        paren_depth(vendor_alternatives(p, class, prefixes, k)) == k - (if k > 0 && k == prefixes.len() { 1int } else { 0int }),
        paren_depth(instanceof_alternatives(class, prefixes, k)) == k - (if k > 0 && k == prefixes.len() { 1int } else { 0int }),
    decreases k,
{
    lemma_depth_literal_0();
    lemma_depth_literal_1();
    lemma_depth_literal_2();
    lemma_depth_literal_3();
    lemma_depth_literal_4();
    if k > 0 {
        lemma_depth_alternatives(p, class, prefixes, (k - 1) as nat);
        let name = prefixes[k - 1] + class;
        lemma_depth_concat(prefixes[k - 1], class);
        let last = k == prefixes.len();
        let tail = if last { " : undefined)"@ } else { " : "@ };
        let a1 = "(typeof "@ + p;
        lemma_depth_concat("(typeof "@, p);
        lemma_depth_concat(a1, name);
        lemma_depth_concat(a1 + name, " !== 'undefined' ? "@);
        lemma_depth_concat(a1 + name + " !== 'undefined' ? "@, p);
        lemma_depth_concat(a1 + name + " !== 'undefined' ? "@ + p, name);
        lemma_depth_concat(a1 + name + " !== 'undefined' ? "@ + p + name, tail);
        assert(vendor_alternative(p, name, last) == a1 + name + " !== 'undefined' ? "@ + p + name + tail);
        lemma_depth_concat(vendor_alternatives(p, class, prefixes, (k - 1) as nat), vendor_alternative(p, name, last));
        let itail = if last { " : Object)"@ } else { " : "@ };
        let b1 = "(typeof "@ + name;
        lemma_depth_concat("(typeof "@, name);
        lemma_depth_concat(b1, " !== 'undefined' ? "@);
        lemma_depth_concat(b1 + " !== 'undefined' ? "@, name);
        lemma_depth_concat(b1 + " !== 'undefined' ? "@ + name, itail);
        lemma_depth_concat(instanceof_alternatives(class, prefixes, (k - 1) as nat), b1 + " !== 'undefined' ? "@ + name + itail);
        assert(instanceof_alternatives(class, prefixes, k) == instanceof_alternatives(class, prefixes, (k - 1) as nat) + (b1 + " !== 'undefined' ? "@ + name + itail));
    }
}

/// Every parenthesis that a vendor-prefixed constructor expression or an `instanceof`
/// check opens is closed: when none of the names in it has an unmatched parenthesis,
/// the expression opens as many as it closes, for any number of prefixes.
pub proof fn lemma_vendor_code_balanced(p: Seq<char>, class: Seq<char>, prefixes: Seq<Seq<char>>)
    requires
        names_balanced(p, class, prefixes),
    ensures
        paren_depth(vendor_constructor(p, class, prefixes)) == 0,
        paren_depth(instanceof_code(class, prefixes)) == 0,
{
    let k = prefixes.len();
    lemma_depth_literal_0();
    lemma_depth_literal_1();
    lemma_depth_literal_2();
    lemma_depth_literal_5();
    lemma_depth_alternatives(p, class, prefixes, k);
    let head = "(typeof "@ + p + class + " !== 'undefined' ? "@ + p + class + " : "@;
    lemma_depth_concat("(typeof "@, p);
    lemma_depth_concat("(typeof "@ + p, class);
    lemma_depth_concat("(typeof "@ + p + class, " !== 'undefined' ? "@);
    lemma_depth_concat("(typeof "@ + p + class + " !== 'undefined' ? "@, p);
    lemma_depth_concat("(typeof "@ + p + class + " !== 'undefined' ? "@ + p, class);
    lemma_depth_concat("(typeof "@ + p + class + " !== 'undefined' ? "@ + p + class, " : "@);
    let alts = vendor_alternatives(p, class, prefixes, k);
    lemma_depth_concat(head, alts);
    lemma_depth_closing(open_after_alternatives(k));
    lemma_depth_concat(head + alts, closing_parens(open_after_alternatives(k)));
    let pre = "(a0) => a0 instanceof "@;
    if k == 0 {
        lemma_depth_concat(pre, class);
    } else {
        let ihead = "(typeof "@ + class + " !== 'undefined' ? "@ + class + " : "@;
        lemma_depth_concat("(typeof "@, class);
        lemma_depth_concat("(typeof "@ + class, " !== 'undefined' ? "@);
        lemma_depth_concat("(typeof "@ + class + " !== 'undefined' ? "@, class);
        lemma_depth_concat("(typeof "@ + class + " !== 'undefined' ? "@ + class, " : "@);
        let ialts = instanceof_alternatives(class, prefixes, k);
        lemma_depth_closing(k);
        lemma_depth_concat(pre, ihead);
        lemma_depth_concat(pre + ihead, ialts);
        lemma_depth_concat(pre + ihead + ialts, closing_parens(k));
        assert(instanceof_code(class, prefixes) == pre + ihead + ialts + closing_parens(k));
    }
}

} // verus!
