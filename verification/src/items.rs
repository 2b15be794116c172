//! The items that `#[wasm_bindgen]` accepts, and the decisions the macro takes on
//! them: which kind of JavaScript function an import is, under which names it is
//! found, which methods and fields an export exposes.
//!
//! The Rust syntax itself (types, visibility, bodies) is carried through as values
//! of the type parameter `Ty`, which this module never looks into; what the
//! decisions read of it comes as plain values beside it ([`TypeShape`]).

use vstd::prelude::*;
use crate::attrs::{
    AttrsView, BindgenAttr, BindgenAttrs, ItemAttr, attrs_outcome, extract_wasm_bindgen_attrs,
    item_attrs_outcome, parse_attrs,
};
use crate::text::str_eq;
use crate::registry::{contains_str, string_views};

verus! {

/// How self is passed to a method
#[derive(Debug, Clone, Copy, PartialEq, Eq, Structural)]
pub enum SelfType {
    /// &self - shared reference
    RefShared,
    /// &mut self - mutable reference
    RefMutable,
    /// self - by value (consumes)
    ByValue,
}

/// Kind of exported method
#[derive(Debug, Clone)]
pub enum ExportMethodKind {
    /// Constructor (creates new instance)
    Constructor,
    /// Instance method with a receiver
    Method {
        /// How self is passed
        self_ty: SelfType,
    },
    /// Static method (no self)
    StaticMethod,
    /// Property getter
    Getter {
        /// Property name
        property: String,
    },
    /// Property setter
    Setter {
        /// Property name
        property: String,
    },
}

/// The outline of a Rust type that the naming decisions read.
pub enum TypeShape {
    /// A path type such as `Foo`, `crate::Foo` or `Result<Foo, Bar>`.
    Path {
        /// Whether the path starts with `::`
        leading_colon: bool,
        /// The segments of the path
        segments: Vec<PathSegment>,
    },
    /// Any other type (references, tuples, slices, ...).
    Other,
}

/// One segment of a path type.
pub struct PathSegment {
    /// The segment's identifier
    pub ident: String,
    /// What follows the identifier
    pub arguments: PathArguments,
}

/// The arguments of a path segment.
pub enum PathArguments {
    /// No arguments
    Empty,
    /// `<...>`, with the first argument's shape when that argument is a type
    AngleBracketed { first_type: Option<Box<TypeShape>> },
    /// `(...)`, as in `Fn(A) -> B`
    Parenthesized,
}

/// Whether a path is a single identifier without arguments.
pub open spec fn is_plain_ident(leading_colon: bool, segments: Seq<PathSegment>) -> bool {
    !leading_colon && segments.len() == 1 && segments[0].arguments is Empty
}

/// The simple type name of a type: the identifier of a plain path, the inner name of
/// `Result<T, ..>` or `Option<T>`, or the last segment's name of another path.
pub open spec fn simple_type_name(ty: TypeShape) -> Option<Seq<char>>
    decreases ty,
{
    match ty {
        TypeShape::Path { leading_colon, segments } => {
            if is_plain_ident(leading_colon, segments@) {
                Some(segments@[0].ident@)
            } else if segments@.len() == 0 {
                None
            } else {
                let last = segments@.last();
                if last.ident@ == "Result"@ || last.ident@ == "Option"@ {
                    match last.arguments {
                        PathArguments::AngleBracketed { first_type: Some(inner) } => {
                            proof {
                                assert(decreases_to!(segments => segments@));
                            }
                            simple_type_name(*inner)
                        },
                        _ => None,
                    }
                } else {
                    Some(last.ident@)
                }
            }
        },
        TypeShape::Other => None,
    }
}

/// Extract a simple type name from a type: handles simple types like `Foo` and
/// generic types like `Result<Foo, Bar>`.
pub fn extract_simple_type_name(ty: &TypeShape) -> (r: Option<String>)
    ensures
        match r {
            Some(s) => simple_type_name(*ty) == Some(s@),
            None => simple_type_name(*ty) is None,
        },
    decreases ty,
{
    match ty {
        TypeShape::Path { leading_colon, segments } => {
            if !*leading_colon && segments.len() == 1 {
                if let PathArguments::Empty = segments[0].arguments {
                    return Some(segments[0].ident.clone());
                }
            }
            if segments.len() == 0 {
                return None;
            }
            let last = &segments[segments.len() - 1];
            if str_eq(last.ident.as_str(), "Result") || str_eq(last.ident.as_str(), "Option") {
                match &last.arguments {
                    PathArguments::AngleBracketed { first_type: Some(inner) } => {
                        proof {
                            assert(decreases_to!(segments => segments@));
                        }
                        extract_simple_type_name(inner)
                    },
                    _ => None,
                }
            } else {
                Some(last.ident.clone())
            }
        },
        TypeShape::Other => None,
    }
}

/// The name without a leading `set_`, if it has one.
pub open spec fn without_set_prefix(name: Seq<char>) -> Seq<char> {
    if name.len() >= 4 && name.take(4) == "set_"@ {
        name.skip(4)
    } else {
        name
    }
}

/// Remove the `set_` prefix of a setter's name, if present.
pub fn strip_set_prefix(name: &str) -> (r: String)
    ensures
        r@ == without_set_prefix(name@),
{
    proof {
        reveal_strlit("set_");
    }
    let n = name.unicode_len();
    if n >= 4 && name.get_char(0) == 's' && name.get_char(1) == 'e' && name.get_char(2) == 't'
        && name.get_char(3) == '_' {
        assert(name@.take(4) =~= "set_"@);
        name.substring_char(4, n).to_owned()
    } else {
        proof {
            if n >= 4 && name@.take(4) == "set_"@ {
                assert(name@[0] == name@.take(4)[0]);
                assert(name@[1] == name@.take(4)[1]);
                assert(name@[2] == name@.take(4)[2]);
                assert(name@[3] == name@.take(4)[3]);
            }
        }
        name.to_owned()
    }
}

/// The given name, or else a default.
pub open spec fn name_or(name: Option<String>, default: Seq<char>) -> Seq<char> {
    match name {
        Some(n) => n@,
        None => default,
    }
}

/// The JavaScript name of an item: its `js_name` attribute, else its Rust name.
fn js_name_or(js_name: Option<String>, rust_name: &String) -> (r: String)
    ensures
        r@ == name_or(js_name, rust_name@),
{
    match js_name {
        Some(n) => n,
        None => rust_name.clone(),
    }
}

/// Argument to an imported or exported function
pub struct FunctionArg<Ty> {
    /// Argument name
    pub name: String,
    /// Argument type
    pub ty: Ty,
}

/// A parameter of a function signature.
pub enum FnInput<Ty> {
    /// A `self` receiver
    Receiver,
    /// A typed parameter; its name, or `None` when its pattern is not a plain identifier
    Typed { name: Option<String>, ty: Ty },
}

/// Kind of imported function
pub enum ImportFunctionKind<Ty> {
    /// Regular function (not a method)
    Normal,
    /// Instance method
    Method {
        /// The receiver type
        receiver: Ty,
    },
    /// Property getter
    Getter {
        /// The receiver type
        receiver: Ty,
        /// Property name (may differ from function name)
        property: String,
    },
    /// Property setter
    Setter {
        /// The receiver type
        receiver: Ty,
        /// Property name (may differ from function name)
        property: String,
    },
    /// Indexing getter (e.g., `obj[index]`)
    IndexingGetter {
        /// The receiver type
        receiver: Ty,
    },
    /// Indexing setter (e.g., `obj[index] = value`)
    IndexingSetter {
        /// The receiver type
        receiver: Ty,
    },
    /// Indexing deleter (e.g., `delete obj[index]`)
    IndexingDeleter {
        /// The receiver type
        receiver: Ty,
    },
    /// Constructor
    Constructor {
        /// The class being constructed
        class: String,
    },
    /// Static method
    StaticMethod {
        /// The class the method belongs to
        class: String,
    },
}

/// A function declared in an `extern "C"` block, as the macro reads it.
pub struct ForeignFn<Ty> {
    /// Rust function name
    pub rust_name: String,
    /// Whether it is declared `async`
    pub is_async: bool,
    /// Its parameters, in order
    pub inputs: Vec<FnInput<Ty>>,
    /// Its return type, if it has one
    pub ret: Option<Ty>,
    /// The outline of its return type (read only when it has one)
    pub ret_shape: TypeShape,
}

/// An imported JavaScript function
pub struct ImportFunction<Ty> {
    /// Rust function name
    pub rust_name: String,
    /// JavaScript name (may differ from rust_name)
    pub js_name: String,
    /// The class this method belongs to (if any)
    pub js_class: Option<String>,
    /// JavaScript namespace
    pub js_namespace: Option<Vec<String>>,
    /// Function arguments (excluding self for methods)
    pub arguments: Vec<FunctionArg<Ty>>,
    /// Return type
    pub ret: Option<Ty>,
    /// Kind of function
    pub kind: ImportFunctionKind<Ty>,
    /// Whether to catch JS exceptions
    pub catch: bool,
    /// Whether this uses structural typing
    pub structural: bool,
    /// Whether this is variadic
    pub variadic: bool,
    /// Whether this is an async function
    pub is_async: bool,
}

/// The first parameter that an imported function cannot have: a `self` receiver or
/// a pattern other than an identifier.
pub open spec fn foreign_input_error<Ty>(s: Seq<FnInput<Ty>>) -> Option<Seq<char>>
    decreases s.len(),
{
    if s.len() == 0 {
        None
    } else {
        match s[0] {
            FnInput::Receiver => Some("self receivers are not supported in extern blocks"@),
            FnInput::Typed { name: None, .. } => Some("complex patterns not supported"@),
            _ => foreign_input_error(s.drop_first()),
        }
    }
}

/// A typed parameter as an argument.
pub open spec fn as_arg<Ty>(x: FnInput<Ty>) -> FunctionArg<Ty> {
    match x {
        FnInput::Typed { name: Some(n), ty } => FunctionArg { name: n, ty },
        _ => arbitrary(),
    }
}

/// Whether the attributes make a function a method: `method` or `structural`.
pub open spec fn is_method_attr(a: AttrsView) -> bool {
    a.method || a.structural
}

/// Whether the first parameter of an import is its receiver.
pub open spec fn takes_receiver(a: AttrsView) -> bool {
    is_method_attr(a) || a.getter is Some || a.setter is Some
}

/// The receiver type of an import.
pub open spec fn receiver_of<Ty>(a: AttrsView, s: Seq<FnInput<Ty>>) -> Option<Ty> {
    if takes_receiver(a) && s.len() > 0 {
        match s[0] {
            FnInput::Typed { ty, .. } => Some(ty),
            _ => None,
        }
    } else {
        None
    }
}

/// The arguments of an import: its parameters but the receiver.
pub open spec fn args_of<Ty>(a: AttrsView, s: Seq<FnInput<Ty>>) -> Seq<FunctionArg<Ty>> {
    if takes_receiver(a) && s.len() > 0 {
        s.drop_first().map_values(|x: FnInput<Ty>| as_arg(x))
    } else {
        s.map_values(|x: FnInput<Ty>| as_arg(x))
    }
}

/// Why the attributes of an import cannot be served with the receiver it has.
pub open spec fn foreign_kind_error<Ty>(a: AttrsView, receiver: Option<Ty>) -> Option<Seq<char>> {
    if a.constructor || a.static_method_of is Some {
        None
    } else if a.getter is Some {
        if receiver is None { Some("getter must have a receiver argument"@) } else { None }
    } else if a.setter is Some {
        if receiver is None { Some("setter must have a receiver argument"@) } else { None }
    } else if a.indexing_getter {
        if receiver is None { Some("indexing_getter must have a receiver argument"@) } else { None }
    } else if a.indexing_setter {
        if receiver is None { Some("indexing_setter must have a receiver argument"@) } else { None }
    } else if a.indexing_deleter {
        if receiver is None { Some("indexing_deleter must have a receiver argument"@) } else { None }
    } else if is_method_attr(a) {
        if receiver is None { Some("method must have a receiver argument"@) } else { None }
    } else {
        None
    }
}

/// The class that an imported constructor builds: the simple name of its return
/// type, else its `js_class`, else its JavaScript name.
pub open spec fn constructor_class(
    js_name: Seq<char>,
    js_class: Option<String>,
    has_ret: bool,
    ret_shape: TypeShape,
) -> Seq<char> {
    if has_ret && simple_type_name(ret_shape) is Some {
        simple_type_name(ret_shape)->0
    } else {
        name_or(js_class, js_name)
    }
}

/// The kind of an import whose attributes and receiver are served.
pub open spec fn foreign_kind_is<Ty>(
    k: ImportFunctionKind<Ty>,
    a: AttrsView,
    js_name: Seq<char>,
    receiver: Option<Ty>,
    has_ret: bool,
    ret_shape: TypeShape,
) -> bool {
    if a.constructor {
        k matches ImportFunctionKind::Constructor { class } && class@ == constructor_class(
            js_name,
            a.js_class,
            has_ret,
            ret_shape,
        )
    } else if a.static_method_of is Some {
        k == ImportFunctionKind::<Ty>::StaticMethod { class: a.static_method_of->0 }
    } else if a.getter is Some {
        k matches ImportFunctionKind::Getter { receiver: r, property } && receiver == Some(r)
            && property@ == name_or(a.getter->0, js_name)
    } else if a.setter is Some {
        k matches ImportFunctionKind::Setter { receiver: r, property } && receiver == Some(r)
            && property@ == (match a.setter->0 {
            Some(n) => n@,
            None => without_set_prefix(js_name),
        })
    } else if a.indexing_getter {
        k matches ImportFunctionKind::IndexingGetter { receiver: r } && receiver == Some(r)
    } else if a.indexing_setter {
        k matches ImportFunctionKind::IndexingSetter { receiver: r } && receiver == Some(r)
    } else if a.indexing_deleter {
        k matches ImportFunctionKind::IndexingDeleter { receiver: r } && receiver == Some(r)
    } else if is_method_attr(a) {
        k matches ImportFunctionKind::Method { receiver: r } && receiver == Some(r)
    } else {
        k is Normal
    }
}

/// Why a foreign function cannot be imported, if it cannot.
pub open spec fn foreign_fn_error<Ty>(f: ForeignFn<Ty>, a: AttrsView) -> Option<Seq<char>> {
    match foreign_input_error(f.inputs@) {
        Some(e) => Some(e),
        None => foreign_kind_error(a, receiver_of(a, f.inputs@)),
    }
}

/// The import that a foreign function with its attributes gives.
pub open spec fn foreign_fn_import<Ty>(f: ForeignFn<Ty>, a: AttrsView, r: ImportFunction<Ty>) -> bool {
    &&& r.rust_name == f.rust_name
    &&& r.js_name@ == name_or(a.js_name, f.rust_name@)
    &&& r.js_class == a.js_class
    &&& r.js_namespace == a.js_namespace
    &&& r.arguments@ == args_of(a, f.inputs@)
    &&& r.ret == f.ret
    &&& foreign_kind_is(r.kind, a, r.js_name@, receiver_of(a, f.inputs@), f.ret is Some, f.ret_shape)
    &&& r.catch == a.catch
    &&& r.structural == a.structural
    &&& r.variadic == a.variadic
    &&& r.is_async == f.is_async
}

/// Parse a foreign function declaration
pub fn parse_foreign_fn<Ty>(f: ForeignFn<Ty>, attrs: BindgenAttrs) -> (r: Result<ImportFunction<Ty>, String>)
    ensures
        match r {
            Ok(v) => foreign_fn_error(f, attrs@) is None && foreign_fn_import(f, attrs@, v),
            Err(e) => foreign_fn_error(f, attrs@) == Some(e@),
        },
{
    let ghost a = attrs@;
    let ghost fv = f;
    let ForeignFn { rust_name, is_async, inputs, ret, ret_shape } = f;
    let takes = attrs.is_method() || attrs.is_getter() || attrs.is_setter();
    let ghost all = inputs@;
    let n = inputs.len();
    let mut rest = inputs;
    let mut arguments: Vec<FunctionArg<Ty>> = Vec::new();
    let mut receiver: Option<Ty> = None;
    let mut k: usize = 0;
    while rest.len() > 0
        invariant
            k <= all.len() == n,
            a == attrs@,
            fv == f,
            all == fv.inputs@,
            takes == takes_receiver(a),
            rest@ == all.subrange(k as int, all.len() as int),
            foreign_input_error(all) == foreign_input_error(rest@),
            k == 0 ==> receiver is None && arguments@.len() == 0,
            k > 0 ==> receiver == receiver_of(a, all),
            k > 0 && takes ==> arguments@ == all.subrange(1, k as int).map_values(
                |x: FnInput<Ty>| as_arg(x),
            ),
            k > 0 && !takes ==> arguments@ == all.take(k as int).map_values(
                |x: FnInput<Ty>| as_arg(x),
            ),
        decreases rest@.len(),
    {
        let ghost before = rest@;
        let input = rest.remove(0);
        assert(input == all[k as int]);
        assert(before.drop_first() =~= rest@);
        match input {
            FnInput::Receiver => {
                let mut msg = String::new();
                msg.append("self receivers are not supported in extern blocks");
                return Err(msg);
            },
            FnInput::Typed { name: None, ty: _ } => {
                let mut msg = String::new();
                msg.append("complex patterns not supported");
                return Err(msg);
            },
            FnInput::Typed { name: Some(name), ty } => {
                if k == 0 && takes {
                    receiver = Some(ty);
                } else {
                    arguments.push(FunctionArg { name, ty });
                }
            },
        }
        proof {
            if takes {
                assert(arguments@ =~= all.subrange(1, k as int + 1).map_values(
                    |x: FnInput<Ty>| as_arg(x),
                ));
            } else {
                assert(arguments@ =~= all.take(k as int + 1).map_values(
                    |x: FnInput<Ty>| as_arg(x),
                ));
            }
        }
        k = k + 1;
    }
    proof {
        if takes && all.len() > 0 {
            assert(all.subrange(1, all.len() as int) =~= all.drop_first());
        } else {
            assert(all.take(all.len() as int) =~= all);
        }
    }
    let BindgenAttrs {
        js_name,
        js_class,
        js_namespace,
        getter,
        setter,
        constructor,
        catch,
        static_method_of,
        variadic,
        indexing_getter,
        indexing_setter,
        indexing_deleter,
        method,
        structural,
        ..
    } = attrs;
    let js_name = js_name_or(js_name, &rust_name);
    let kind = if constructor {
        let simple = match &ret {
            Some(_) => extract_simple_type_name(&ret_shape),
            None => None,
        };
        let class = match simple {
            Some(name) => name,
            None => match &js_class {
                Some(c) => c.clone(),
                None => js_name.clone(),
            },
        };
        ImportFunctionKind::Constructor { class }
    } else if let Some(class) = static_method_of {
        ImportFunctionKind::StaticMethod { class }
    } else if let Some(name) = getter {
        match receiver {
            Some(receiver) => {
                let property = match name {
                    Some(n) => n,
                    None => js_name.clone(),
                };
                ImportFunctionKind::Getter { receiver, property }
            },
            None => {
                let mut msg = String::new();
                msg.append("getter must have a receiver argument");
                return Err(msg);
            },
        }
    } else if let Some(name) = setter {
        match receiver {
            Some(receiver) => {
                let property = match name {
                    Some(n) => n,
                    None => strip_set_prefix(js_name.as_str()),
                };
                ImportFunctionKind::Setter { receiver, property }
            },
            None => {
                let mut msg = String::new();
                msg.append("setter must have a receiver argument");
                return Err(msg);
            },
        }
    } else if indexing_getter {
        match receiver {
            Some(receiver) => ImportFunctionKind::IndexingGetter { receiver },
            None => {
                let mut msg = String::new();
                msg.append("indexing_getter must have a receiver argument");
                return Err(msg);
            },
        }
    } else if indexing_setter {
        match receiver {
            Some(receiver) => ImportFunctionKind::IndexingSetter { receiver },
            None => {
                let mut msg = String::new();
                msg.append("indexing_setter must have a receiver argument");
                return Err(msg);
            },
        }
    } else if indexing_deleter {
        match receiver {
            Some(receiver) => ImportFunctionKind::IndexingDeleter { receiver },
            None => {
                let mut msg = String::new();
                msg.append("indexing_deleter must have a receiver argument");
                return Err(msg);
            },
        }
    } else if method || structural {
        match receiver {
            Some(receiver) => ImportFunctionKind::Method { receiver },
            None => {
                let mut msg = String::new();
                msg.append("method must have a receiver argument");
                return Err(msg);
            },
        }
    } else {
        ImportFunctionKind::Normal
    };
    let r = ImportFunction {
        rust_name,
        js_name,
        js_class,
        js_namespace,
        arguments,
        ret,
        kind,
        catch,
        structural,
        variadic,
        is_async,
    };
    assert(foreign_fn_error(fv, a) is None);
    assert(r.arguments@ == args_of(a, fv.inputs@));
    assert(foreign_kind_is(r.kind, a, r.js_name@, receiver_of(a, fv.inputs@), fv.ret is Some, fv.ret_shape));
    Ok(r)
}

/// A parameter of a method in an impl block.
pub enum MethodInput<Ty> {
    /// `self`, `&self` or `&mut self`
    Receiver { reference: bool, mutable: bool },
    /// A typed parameter; its name, or `None` when its pattern is not a plain identifier
    Typed { name: Option<String>, ty: Ty },
}

/// A method of an impl block, as the macro reads it.
pub struct ImplMethod<Ty> {
    /// Rust method name
    pub rust_name: String,
    /// Its parameters, in order
    pub inputs: Vec<MethodInput<Ty>>,
    /// Its return type, if it has one
    pub ret: Option<Ty>,
}

/// An exported method from an impl block
pub struct ExportMethod<Ty> {
    /// The struct this method belongs to
    pub class: String,
    /// Rust method name
    pub rust_name: String,
    /// JavaScript method name (may differ from rust_name)
    pub js_name: String,
    /// Kind of method
    pub kind: ExportMethodKind,
    /// Method arguments (excluding self)
    pub arguments: Vec<FunctionArg<Ty>>,
    /// Return type
    pub ret: Option<Ty>,
    /// Whether to wrap in try-catch
    pub catch: bool,
}

/// The first parameter that an exported method cannot have: a receiver after the
/// first position, or a pattern other than an identifier.
pub open spec fn method_input_error<Ty>(s: Seq<MethodInput<Ty>>, first: bool) -> Option<Seq<char>>
    decreases s.len(),
{
    if s.len() == 0 {
        None
    } else {
        match s[0] {
            MethodInput::Receiver { .. } => if first {
                method_input_error(s.drop_first(), false)
            } else {
                Some("self must be first argument"@)
            },
            MethodInput::Typed { name: None, .. } => Some("complex patterns not supported"@),
            _ => method_input_error(s.drop_first(), false),
        }
    }
}

/// How a receiver passes `self`.
pub open spec fn self_type(reference: bool, mutable: bool) -> SelfType {
    if reference {
        if mutable { SelfType::RefMutable } else { SelfType::RefShared }
    } else {
        SelfType::ByValue
    }
}

/// How a method's receiver passes `self`, if it has one.
pub open spec fn self_type_of<Ty>(s: Seq<MethodInput<Ty>>) -> Option<SelfType> {
    if s.len() > 0 {
        match s[0] {
            MethodInput::Receiver { reference, mutable } => Some(self_type(reference, mutable)),
            _ => None,
        }
    } else {
        None
    }
}

/// A typed method parameter as an argument.
pub open spec fn method_arg<Ty>(x: MethodInput<Ty>) -> FunctionArg<Ty> {
    match x {
        MethodInput::Typed { name: Some(n), ty } => FunctionArg { name: n, ty },
        _ => arbitrary(),
    }
}

/// The arguments of a method: its parameters but the receiver.
pub open spec fn method_args<Ty>(s: Seq<MethodInput<Ty>>) -> Seq<FunctionArg<Ty>> {
    if self_type_of(s) is Some {
        s.drop_first().map_values(|x: MethodInput<Ty>| method_arg(x))
    } else {
        s.map_values(|x: MethodInput<Ty>| method_arg(x))
    }
}

/// The kind of an exported method.
pub open spec fn export_kind_is(
    k: ExportMethodKind,
    a: AttrsView,
    js_name: Seq<char>,
    self_ty: Option<SelfType>,
) -> bool {
    if a.constructor {
        k is Constructor
    } else if a.getter is Some {
        k matches ExportMethodKind::Getter { property } && property@ == name_or(a.getter->0, js_name)
    } else if a.setter is Some {
        k matches ExportMethodKind::Setter { property } && property@ == (match a.setter->0 {
            Some(n) => n@,
            None => without_set_prefix(js_name),
        })
    } else if self_ty is Some {
        k == ExportMethodKind::Method { self_ty: self_ty->0 }
    } else {
        k is StaticMethod
    }
}

/// The export that a method with its attributes gives.
pub open spec fn method_export<Ty>(
    class: Seq<char>,
    m: ImplMethod<Ty>,
    a: AttrsView,
    r: ExportMethod<Ty>,
) -> bool {
    &&& r.class@ == class
    &&& r.rust_name == m.rust_name
    &&& r.js_name@ == name_or(a.js_name, m.rust_name@)
    &&& export_kind_is(r.kind, a, r.js_name@, self_type_of(m.inputs@))
    &&& r.arguments@ == method_args(m.inputs@)
    &&& r.ret == m.ret
    &&& r.catch == a.catch
}

/// Parse a method in an impl block
pub fn parse_impl_method<Ty>(class: &str, method: ImplMethod<Ty>, method_attrs: BindgenAttrs) -> (r:
    Result<ExportMethod<Ty>, String>)
    ensures
        match r {
            Ok(v) => method_input_error(method.inputs@, true) is None && method_export(
                class@,
                method,
                method_attrs@,
                v,
            ),
            Err(e) => method_input_error(method.inputs@, true) == Some(e@),
        },
{
    let ghost mv = method;
    let ImplMethod { rust_name, inputs, ret } = method;
    let ghost all = inputs@;
    let n = inputs.len();
    let mut rest = inputs;
    let mut arguments: Vec<FunctionArg<Ty>> = Vec::new();
    let mut self_ty: Option<SelfType> = None;
    let mut k: usize = 0;
    while rest.len() > 0
        invariant
            k <= all.len() == n,
            mv == method,
            all == mv.inputs@,
            rest@ == all.subrange(k as int, all.len() as int),
            method_input_error(all, true) == method_input_error(rest@, k == 0),
            k == 0 ==> self_ty is None && arguments@.len() == 0,
            k > 0 ==> self_ty == self_type_of(all),
            k > 0 && self_ty is Some ==> arguments@ == all.subrange(1, k as int).map_values(
                |x: MethodInput<Ty>| method_arg(x),
            ),
            k > 0 && self_ty is None ==> arguments@ == all.take(k as int).map_values(
                |x: MethodInput<Ty>| method_arg(x),
            ),
        decreases rest@.len(),
    {
        let ghost before = rest@;
        let input = rest.remove(0);
        assert(input == all[k as int]);
        assert(before.drop_first() =~= rest@);
        match input {
            MethodInput::Receiver { reference, mutable } => {
                if k != 0 {
                    let mut msg = String::new();
                    msg.append("self must be first argument");
                    return Err(msg);
                }
                self_ty = Some(
                    if reference {
                        if mutable {
                            SelfType::RefMutable
                        } else {
                            SelfType::RefShared
                        }
                    } else {
                        SelfType::ByValue
                    },
                );
            },
            MethodInput::Typed { name: None, ty: _ } => {
                let mut msg = String::new();
                msg.append("complex patterns not supported");
                return Err(msg);
            },
            MethodInput::Typed { name: Some(name), ty } => {
                arguments.push(FunctionArg { name, ty });
            },
        }
        proof {
            if self_ty is Some {
                assert(arguments@ =~= all.subrange(1, k as int + 1).map_values(
                    |x: MethodInput<Ty>| method_arg(x),
                ));
            } else {
                assert(arguments@ =~= all.take(k as int + 1).map_values(
                    |x: MethodInput<Ty>| method_arg(x),
                ));
            }
        }
        k = k + 1;
    }
    proof {
        if self_ty is Some {
            assert(all.subrange(1, all.len() as int) =~= all.drop_first());
        } else {
            assert(all.take(all.len() as int) =~= all);
        }
    }
    let ghost a = method_attrs@;
    let BindgenAttrs { js_name, getter, setter, constructor, catch, .. } = method_attrs;
    let js_name = js_name_or(js_name, &rust_name);
    let kind = if constructor {
        ExportMethodKind::Constructor
    } else if let Some(name) = getter {
        let property = match name {
            Some(n) => n,
            None => js_name.clone(),
        };
        ExportMethodKind::Getter { property }
    } else if let Some(name) = setter {
        let property = match name {
            Some(n) => n,
            None => strip_set_prefix(js_name.as_str()),
        };
        ExportMethodKind::Setter { property }
    } else if let Some(st) = self_ty {
        ExportMethodKind::Method { self_ty: st }
    } else {
        ExportMethodKind::StaticMethod
    };
    let r = ExportMethod {
        class: class.to_owned(),
        rust_name,
        js_name,
        kind,
        arguments,
        ret,
        catch,
    };
    assert(r.arguments@ == method_args(mv.inputs@));
    assert(export_kind_is(r.kind, a, r.js_name@, self_type_of(mv.inputs@)));
    Ok(r)
}

/// An item of an impl block.
pub enum ImplItem<Ty> {
    /// A method: whether it is `pub`, its attributes, the method
    Fn { is_public: bool, attrs: Vec<ItemAttr>, method: ImplMethod<Ty> },
    /// An associated constant
    Const,
    /// An associated type
    Type,
    /// Anything else (macros, ...)
    Other,
}

/// An impl block, as the macro reads it.
pub struct ImplBlock<Ty> {
    /// Whether it has generic parameters
    pub has_generics: bool,
    /// Whether it implements a trait
    pub is_trait_impl: bool,
    /// Whether it is `unsafe impl`
    pub is_unsafe: bool,
    /// The `Self` type, when it is a single identifier
    pub self_ident: Option<String>,
    /// Its items, in order
    pub items: Vec<ImplItem<Ty>>,
}

/// Why an item of an impl block cannot be exported, if it cannot.
pub open spec fn impl_item_error<Ty>(item: ImplItem<Ty>) -> Option<Seq<char>> {
    match item {
        ImplItem::Fn { is_public: true, attrs, method } => match item_attrs_outcome(attrs@) {
            Err(e) => Some(e),
            Ok(_) => method_input_error(method.inputs@, true),
        },
        ImplItem::Other => Some("only methods are supported in impl blocks"@),
        _ => None,
    }
}

/// The first error among the items of an impl block.
pub open spec fn impl_items_error<Ty>(s: Seq<ImplItem<Ty>>) -> Option<Seq<char>>
    decreases s.len(),
{
    if s.len() == 0 {
        None
    } else {
        match impl_items_error(s.drop_last()) {
            Some(e) => Some(e),
            None => impl_item_error(s.last()),
        }
    }
}

/// The exports of the items of an impl block: one per public method, in order.
pub open spec fn impl_items_exports<Ty>(
    class: Seq<char>,
    s: Seq<ImplItem<Ty>>,
    out: Seq<ExportMethod<Ty>>,
) -> bool
    decreases s.len(),
{
    if s.len() == 0 {
        out.len() == 0
    } else {
        match s.last() {
            ImplItem::Fn { is_public: true, attrs, method } => {
                &&& out.len() > 0
                &&& impl_items_exports(class, s.drop_last(), out.drop_last())
                &&& item_attrs_outcome(attrs@) is Ok
                &&& method_export(class, method, item_attrs_outcome(attrs@)->Ok_0, out.last())
            },
            _ => impl_items_exports(class, s.drop_last(), out),
        }
    }
}

/// Why an impl block cannot be exported, if it cannot.
pub open spec fn impl_block_error<Ty>(i: ImplBlock<Ty>) -> Option<Seq<char>> {
    if i.has_generics {
        Some("generic impl blocks are not supported"@)
    } else if i.is_trait_impl {
        Some("trait impls are not supported; only inherent impls"@)
    } else if i.is_unsafe {
        Some("unsafe impl blocks are not supported"@)
    } else if i.self_ident is None {
        Some("expected simple type name for impl block"@)
    } else {
        impl_items_error(i.items@)
    }
}

/// Once a prefix of the items fails, the whole list fails the same way.
proof fn lemma_impl_error_stays<Ty>(s: Seq<ImplItem<Ty>>, n: int)
    requires
        0 <= n <= s.len(),
        impl_items_error(s.take(n)) is Some,
    ensures
        impl_items_error(s) == impl_items_error(s.take(n)),
    decreases s.len() - n,
{
    if n < s.len() {
        assert(s.take(n + 1).drop_last() =~= s.take(n));
        lemma_impl_error_stays(s, n + 1);
    } else {
        assert(s.take(n) =~= s);
    }
}

/// Parse an impl block for export: its public methods, in order.
pub fn parse_impl_block<Ty>(i: ImplBlock<Ty>) -> (r: Result<Vec<ExportMethod<Ty>>, String>)
    ensures
        match r {
            Ok(v) => impl_block_error(i) is None && impl_items_exports(
                i.self_ident->0@,
                i.items@,
                v@,
            ),
            Err(e) => impl_block_error(i) == Some(e@),
        },
{
    let ghost iv = i;
    let ImplBlock { has_generics, is_trait_impl, is_unsafe, self_ident, items } = i;
    if has_generics {
        let mut msg = String::new();
        msg.append("generic impl blocks are not supported");
        return Err(msg);
    }
    if is_trait_impl {
        let mut msg = String::new();
        msg.append("trait impls are not supported; only inherent impls");
        return Err(msg);
    }
    if is_unsafe {
        let mut msg = String::new();
        msg.append("unsafe impl blocks are not supported");
        return Err(msg);
    }
    let class = match self_ident {
        Some(c) => c,
        None => {
            let mut msg = String::new();
            msg.append("expected simple type name for impl block");
            return Err(msg);
        },
    };
    let ghost all = items@;
    let n = items.len();
    let mut rest = items;
    let mut exports: Vec<ExportMethod<Ty>> = Vec::new();
    let mut k: usize = 0;
    while rest.len() > 0
        invariant
            k <= all.len() == n,
            iv == i,
            all == iv.items@,
            iv.self_ident == Some(class),
            !iv.has_generics && !iv.is_trait_impl && !iv.is_unsafe,
            rest@ == all.subrange(k as int, all.len() as int),
            impl_items_error(all.take(k as int)) is None,
            impl_items_exports(class@, all.take(k as int), exports@),
        decreases rest@.len(),
    {
        let item = rest.remove(0);
        assert(item == all[k as int]);
        assert(all.take(k as int + 1).drop_last() =~= all.take(k as int));
        assert(all.take(k as int + 1).last() == item);
        let ghost before = exports@;
        match item {
            ImplItem::Fn { is_public, attrs, method } => {
                if is_public {
                    let method_attrs = match extract_wasm_bindgen_attrs(attrs) {
                        Ok(a) => a,
                        Err(e) => {
                            proof {
                                lemma_impl_error_stays(all, k as int + 1);
                            }
                            return Err(e);
                        },
                    };
                    match parse_impl_method(class.as_str(), method, method_attrs) {
                        Ok(export) => {
                            exports.push(export);
                            assert(exports@.drop_last() =~= before);
                        },
                        Err(e) => {
                            proof {
                                lemma_impl_error_stays(all, k as int + 1);
                            }
                            return Err(e);
                        },
                    }
                }
            },
            ImplItem::Const => {},
            ImplItem::Type => {},
            ImplItem::Other => {
                let mut msg = String::new();
                msg.append("only methods are supported in impl blocks");
                proof {
                    lemma_impl_error_stays(all, k as int + 1);
                }
                return Err(msg);
            },
        }
        k = k + 1;
    }
    proof {
        assert(all.take(k as int) =~= all);
    }
    Ok(exports)
}

/// The discriminant of an enum variant.
pub enum Discriminant {
    /// No `= ...`
    Missing,
    /// `= "value"`: a string literal, with its value
    Str(String),
    /// `= ...` with anything but a string literal
    Other,
}

/// A variant of an enum, as the macro reads it.
pub struct EnumVariant {
    /// The variant's identifier
    pub ident: String,
    /// Whether it has no fields
    pub is_unit: bool,
    /// Its discriminant
    pub discriminant: Discriminant,
}

/// A string enum - an enum where each variant has a string discriminant
pub struct StringEnum {
    /// Rust enum name
    pub name: String,
    /// Variant identifiers
    pub variants: Vec<String>,
    /// String values for each variant (in same order as variants)
    pub variant_values: Vec<String>,
}

/// Why a variant cannot be part of a string enum, if it cannot.
pub open spec fn variant_error(v: EnumVariant) -> Option<Seq<char>> {
    if !v.is_unit {
        Some("wasm_bindgen string enums only support unit variants"@)
    } else {
        match v.discriminant {
            Discriminant::Missing => Some(
                "wasm_bindgen string enum variants must have string discriminants (e.g., Variant = \"value\")"@,
            ),
            Discriminant::Other => Some(
                "wasm_bindgen string enum discriminants must be string literals"@,
            ),
            Discriminant::Str(_) => None,
        }
    }
}

/// The first variant error, in order.
pub open spec fn variants_error(s: Seq<EnumVariant>) -> Option<Seq<char>>
    decreases s.len(),
{
    if s.len() == 0 {
        None
    } else {
        match variants_error(s.drop_last()) {
            Some(e) => Some(e),
            None => variant_error(s.last()),
        }
    }
}

/// The string value of a variant.
pub open spec fn variant_value(v: EnumVariant) -> String {
    match v.discriminant {
        Discriminant::Str(s) => s,
        _ => arbitrary(),
    }
}

/// Once a prefix of the variants fails, the whole list fails the same way.
proof fn lemma_variants_error_stays(s: Seq<EnumVariant>, n: int)
    requires
        0 <= n <= s.len(),
        variants_error(s.take(n)) is Some,
    ensures
        variants_error(s) == variants_error(s.take(n)),
    decreases s.len() - n,
{
    if n < s.len() {
        assert(s.take(n + 1).drop_last() =~= s.take(n));
        lemma_variants_error_stays(s, n + 1);
    } else {
        assert(s.take(n) =~= s);
    }
}

/// Parse a string enum - an enum where variants have string discriminants such as
/// `Red = "red"`.
pub fn parse_string_enum(name: String, variants: Vec<EnumVariant>) -> (r: Result<StringEnum, String>)
    ensures
        match r {
            Ok(e) => {
                &&& variants_error(variants@) is None
                &&& e.name == name
                &&& e.variants@ == variants@.map_values(|v: EnumVariant| v.ident)
                &&& e.variant_values@ == variants@.map_values(|v: EnumVariant| variant_value(v))
            },
            Err(e) => variants_error(variants@) == Some(e@),
        },
{
    let ghost all = variants@;
    let n = variants.len();
    let mut rest = variants;
    let mut idents: Vec<String> = Vec::new();
    let mut values: Vec<String> = Vec::new();
    let mut k: usize = 0;
    while rest.len() > 0
        invariant
            k <= all.len() == n,
            all == variants@,
            rest@ == all.subrange(k as int, all.len() as int),
            variants_error(all.take(k as int)) is None,
            idents@ == all.take(k as int).map_values(|v: EnumVariant| v.ident),
            values@ == all.take(k as int).map_values(|v: EnumVariant| variant_value(v)),
        decreases rest@.len(),
    {
        let v = rest.remove(0);
        assert(v == all[k as int]);
        assert(all.take(k as int + 1).drop_last() =~= all.take(k as int));
        assert(all.take(k as int + 1).last() == v);
        let EnumVariant { ident, is_unit, discriminant } = v;
        if !is_unit {
            let mut msg = String::new();
            msg.append("wasm_bindgen string enums only support unit variants");
            proof {
                lemma_variants_error_stays(all, k as int + 1);
            }
            return Err(msg);
        }
        match discriminant {
            Discriminant::Str(value) => {
                idents.push(ident);
                values.push(value);
            },
            Discriminant::Missing => {
                let mut msg = String::new();
                msg.append(
                    "wasm_bindgen string enum variants must have string discriminants (e.g., Variant = \"value\")",
                );
                proof {
                    lemma_variants_error_stays(all, k as int + 1);
                }
                return Err(msg);
            },
            Discriminant::Other => {
                let mut msg = String::new();
                msg.append("wasm_bindgen string enum discriminants must be string literals");
                proof {
                    lemma_variants_error_stays(all, k as int + 1);
                }
                return Err(msg);
            },
        }
        proof {
            assert(idents@ =~= all.take(k as int + 1).map_values(|v: EnumVariant| v.ident));
            assert(values@ =~= all.take(k as int + 1).map_values(
                |v: EnumVariant| variant_value(v),
            ));
        }
        k = k + 1;
    }
    proof {
        assert(all.take(k as int) =~= all);
    }
    Ok(StringEnum { name, variants: idents, variant_values: values })
}

/// An imported JavaScript type
pub struct ImportType {
    /// Rust type name
    pub rust_name: String,
    /// JavaScript name (may differ from rust_name)
    pub js_name: String,
    /// Parent types (from `extends` attributes), as path text
    pub extends: Vec<String>,
    /// TypeScript type override
    pub typescript_type: Option<String>,
    /// Vendor prefixes for fallback (e.g., webkit, moz)
    pub vendor_prefixes: Vec<String>,
    /// Custom is_type_of expression for type checking (its text)
    pub is_type_of: Option<String>,
}

/// The import of a foreign type with its attributes.
pub open spec fn import_type_of(rust_name: String, a: AttrsView, r: ImportType) -> bool {
    &&& r.js_name@ == name_or(a.js_name, rust_name@)
    &&& r.rust_name == rust_name
    &&& r.extends@ == a.extends
    &&& r.typescript_type == a.typescript_type
    &&& r.vendor_prefixes@ == a.vendor_prefixes
    &&& r.is_type_of == a.is_type_of
}

/// Parse a foreign type declaration
pub fn parse_foreign_type(rust_name: String, attrs: BindgenAttrs) -> (r: ImportType)
    ensures
        import_type_of(rust_name, attrs@, r),
{
    let BindgenAttrs { js_name, extends, typescript_type, vendor_prefixes, is_type_of, .. } =
        attrs;
    let js_name = js_name_or(js_name, &rust_name);
    ImportType { rust_name, js_name, extends, typescript_type, vendor_prefixes, is_type_of }
}

/// A static declared in an `extern "C"` block, as the macro reads it.
pub struct ForeignStatic<Ty> {
    /// Rust name for the static
    pub rust_name: String,
    /// Whether it is `static mut`
    pub mutable: bool,
    /// The type of the static value
    pub ty: Ty,
}

/// An imported JavaScript static value (global)
pub struct ImportStatic<Ty> {
    /// Rust name for the static
    pub rust_name: String,
    /// JavaScript name (may differ from rust_name)
    pub js_name: String,
    /// The type of the static value
    pub ty: Ty,
    /// JavaScript namespace (if any)
    pub js_namespace: Option<Vec<String>>,
    /// Whether this uses thread_local_v2 lazy initialization
    pub thread_local_v2: bool,
}

/// The import of a foreign static with its attributes.
pub open spec fn import_static_of<Ty>(s: ForeignStatic<Ty>, a: AttrsView, v: ImportStatic<Ty>) -> bool {
    &&& v.rust_name == s.rust_name
    &&& v.js_name@ == name_or(a.js_name, s.rust_name@)
    &&& v.ty == s.ty
    &&& v.js_namespace == a.js_namespace
    &&& v.thread_local_v2 == a.thread_local_v2
}

/// Parse a foreign static declaration: mutable statics are refused.
pub fn parse_foreign_static<Ty>(s: ForeignStatic<Ty>, attrs: BindgenAttrs) -> (r: Result<
    ImportStatic<Ty>,
    String,
>)
    ensures
        match r {
            Ok(v) => !s.mutable && import_static_of(s, attrs@, v),
            Err(e) => s.mutable && e@ == "cannot import mutable statics"@,
        },
{
    let ForeignStatic { rust_name, mutable, ty } = s;
    if mutable {
        let mut msg = String::new();
        msg.append("cannot import mutable statics");
        return Err(msg);
    }
    let BindgenAttrs { js_name, js_namespace, thread_local_v2, .. } = attrs;
    let js_name = js_name_or(js_name, &rust_name);
    Ok(ImportStatic { rust_name, js_name, ty, js_namespace, thread_local_v2 })
}

/// A named field of a struct, as the macro reads it.
pub struct NamedField<Ty> {
    /// The field's identifier (absent only in malformed input)
    pub ident: Option<String>,
    /// Its attributes
    pub attrs: Vec<ItemAttr>,
    /// Its type
    pub ty: Ty,
}

/// The fields of a struct.
pub enum StructFields<Ty> {
    /// `{ a: A, b: B }`
    Named(Vec<NamedField<Ty>>),
    /// `(A, B)`, which is refused
    Unnamed,
    /// No fields
    Unit,
}

/// A field in an exported struct
pub struct StructField<Ty> {
    /// Rust field name
    pub rust_name: String,
    /// JavaScript property name (may differ from rust_name)
    pub js_name: String,
    /// Field type
    pub ty: Ty,
    /// Whether this field is read-only (no setter)
    pub readonly: bool,
    /// Whether to clone the value in the getter (for non-Copy types)
    pub getter_with_clone: bool,
    /// Whether to skip this field entirely
    pub skip: bool,
}

/// An exported Rust struct
pub struct ExportStruct<Ty> {
    /// Rust struct name
    pub rust_name: String,
    /// JavaScript class name (may differ from rust_name)
    pub js_name: String,
    /// Struct fields that should be exposed
    pub fields: Vec<StructField<Ty>>,
    /// Whether to generate toJSON/toString methods
    pub is_inspectable: bool,
}

/// Why a named field cannot be exported, if it cannot.
pub open spec fn field_error<Ty>(f: NamedField<Ty>) -> Option<Seq<char>> {
    match item_attrs_outcome(f.attrs@) {
        Err(e) => Some(e),
        Ok(a) => if !a.skip && f.ident is None {
            Some("struct fields must be named"@)
        } else {
            None
        },
    }
}

/// The first field error, in order.
pub open spec fn fields_error<Ty>(s: Seq<NamedField<Ty>>) -> Option<Seq<char>>
    decreases s.len(),
{
    if s.len() == 0 {
        None
    } else {
        match fields_error(s.drop_last()) {
            Some(e) => Some(e),
            None => field_error(s.last()),
        }
    }
}

/// The exported fields of a list of named fields: those not skipped, in order.
pub open spec fn fields_exported<Ty>(s: Seq<NamedField<Ty>>, out: Seq<StructField<Ty>>) -> bool
    decreases s.len(),
{
    if s.len() == 0 {
        out.len() == 0
    } else {
        let f = s.last();
        let a = item_attrs_outcome(f.attrs@)->Ok_0;
        if a.skip {
            fields_exported(s.drop_last(), out)
        } else {
            &&& out.len() > 0
            &&& fields_exported(s.drop_last(), out.drop_last())
            &&& out.last().rust_name == f.ident->0
            &&& out.last().js_name@ == name_or(a.js_name, f.ident->0@)
            &&& out.last().ty == f.ty
            &&& out.last().readonly == a.readonly
            &&& out.last().getter_with_clone == a.getter_with_clone
            &&& !out.last().skip
        }
    }
}

/// Once a prefix of the fields fails, the whole list fails the same way.
proof fn lemma_fields_error_stays<Ty>(s: Seq<NamedField<Ty>>, n: int)
    requires
        0 <= n <= s.len(),
        fields_error(s.take(n)) is Some,
    ensures
        fields_error(s) == fields_error(s.take(n)),
    decreases s.len() - n,
{
    if n < s.len() {
        assert(s.take(n + 1).drop_last() =~= s.take(n));
        lemma_fields_error_stays(s, n + 1);
    } else {
        assert(s.take(n) =~= s);
    }
}

/// Parse the named fields of a struct for export.
fn parse_named_fields<Ty>(fields: Vec<NamedField<Ty>>) -> (r: Result<Vec<StructField<Ty>>, String>)
    ensures
        match r {
            Ok(v) => fields_error(fields@) is None && fields_exported(fields@, v@),
            Err(e) => fields_error(fields@) == Some(e@),
        },
{
    let ghost all = fields@;
    let n = fields.len();
    let mut rest = fields;
    let mut out: Vec<StructField<Ty>> = Vec::new();
    let mut k: usize = 0;
    while rest.len() > 0
        invariant
            k <= all.len() == n,
            all == fields@,
            rest@ == all.subrange(k as int, all.len() as int),
            fields_error(all.take(k as int)) is None,
            fields_exported(all.take(k as int), out@),
        decreases rest@.len(),
    {
        let field = rest.remove(0);
        assert(field == all[k as int]);
        assert(all.take(k as int + 1).drop_last() =~= all.take(k as int));
        assert(all.take(k as int + 1).last() == field);
        let ghost before = out@;
        let NamedField { ident, attrs, ty } = field;
        let field_attrs = match extract_wasm_bindgen_attrs(attrs) {
            Ok(a) => a,
            Err(e) => {
                proof {
                    lemma_fields_error_stays(all, k as int + 1);
                }
                return Err(e);
            },
        };
        if !field_attrs.skip {
            let rust_name = match ident {
                Some(i) => i,
                None => {
                    let mut msg = String::new();
                    msg.append("struct fields must be named");
                    proof {
                        lemma_fields_error_stays(all, k as int + 1);
                    }
                    return Err(msg);
                },
            };
            let readonly = field_attrs.readonly;
            let getter_with_clone = field_attrs.getter_with_clone;
            let js_name = js_name_or(field_attrs.js_name, &rust_name);
            out.push(StructField { rust_name, js_name, ty, readonly, getter_with_clone, skip: false });
            assert(out@.drop_last() =~= before);
        }
        k = k + 1;
    }
    proof {
        assert(all.take(k as int) =~= all);
    }
    Ok(out)
}

/// A struct, as the macro reads it.
pub struct ItemStruct<Ty> {
    /// Rust struct name
    pub rust_name: String,
    /// Its fields
    pub fields: StructFields<Ty>,
}

/// Why a struct cannot be exported, if it cannot.
pub open spec fn struct_error<Ty>(s: ItemStruct<Ty>) -> Option<Seq<char>> {
    match s.fields {
        StructFields::Named(fields) => fields_error(fields@),
        StructFields::Unnamed => Some("tuple structs are not supported; use named fields"@),
        StructFields::Unit => None,
    }
}

/// Parse a struct definition for export, under the attributes of the macro.
pub fn parse_struct<Ty>(s: ItemStruct<Ty>, attrs: &BindgenAttrs) -> (r: Result<ExportStruct<Ty>, String>)
    ensures
        match r {
            Ok(v) => {
                &&& struct_error(s) is None
                &&& v.rust_name == s.rust_name
                &&& v.js_name@ == name_or(attrs.js_name, s.rust_name@)
                &&& v.is_inspectable == attrs.inspectable
                &&& match s.fields {
                    StructFields::Named(fields) => fields_exported(fields@, v.fields@),
                    _ => v.fields@.len() == 0,
                }
            },
            Err(e) => struct_error(s) == Some(e@),
        },
{
    let ItemStruct { rust_name, fields } = s;
    let js_name = match &attrs.js_name {
        Some(n) => n.clone(),
        None => rust_name.clone(),
    };
    let fields = match fields {
        StructFields::Named(named) => match parse_named_fields(named) {
            Ok(v) => v,
            Err(e) => return Err(e),
        },
        StructFields::Unnamed => {
            let mut msg = String::new();
            msg.append("tuple structs are not supported; use named fields");
            return Err(msg);
        },
        StructFields::Unit => Vec::new(),
    };
    Ok(ExportStruct { rust_name, js_name, fields, is_inspectable: attrs.inspectable })
}

/// An item of an `extern "C"` block, as the macro reads it.
pub enum ForeignItem<Ty> {
    /// A function, with its attributes
    Fn { attrs: Vec<ItemAttr>, decl: ForeignFn<Ty> },
    /// A type, with its attributes and name
    Type { attrs: Vec<ItemAttr>, rust_name: String },
    /// A static, with its attributes
    Static { attrs: Vec<ItemAttr>, global: ForeignStatic<Ty> },
    /// Anything else (macros, ...)
    Other,
}

/// Why an item of an `extern "C"` block cannot be imported, if it cannot.
pub open spec fn foreign_item_error<Ty>(item: ForeignItem<Ty>) -> Option<Seq<char>> {
    match item {
        ForeignItem::Fn { attrs, decl } => match item_attrs_outcome(attrs@) {
            Err(e) => Some(e),
            Ok(a) => foreign_fn_error(decl, a),
        },
        ForeignItem::Type { attrs, .. } => match item_attrs_outcome(attrs@) {
            Err(e) => Some(e),
            Ok(_) => None,
        },
        ForeignItem::Static { attrs, global } => match item_attrs_outcome(attrs@) {
            Err(e) => Some(e),
            Ok(_) => if global.mutable {
                Some("cannot import mutable statics"@)
            } else {
                None
            },
        },
        ForeignItem::Other => Some(
            "only functions, types, and statics are supported in extern blocks"@,
        ),
    }
}

/// The position of the first item that cannot be imported, or the length when all can.
pub open spec fn foreign_fail_index<Ty>(s: Seq<ForeignItem<Ty>>) -> nat
    decreases s.len(),
{
    if s.len() == 0 {
        0
    } else if foreign_item_error(s[0]) is Some {
        0
    } else {
        1 + foreign_fail_index(s.drop_first())
    }
}

/// The functions that a list of items imports, in order.
pub open spec fn foreign_fns_added<Ty>(s: Seq<ForeignItem<Ty>>, out: Seq<ImportFunction<Ty>>) -> bool
    decreases s.len(),
{
    if s.len() == 0 {
        out.len() == 0
    } else {
        match s.last() {
            ForeignItem::Fn { attrs, decl } => {
                &&& out.len() > 0
                &&& foreign_fns_added(s.drop_last(), out.drop_last())
                &&& foreign_fn_import(decl, item_attrs_outcome(attrs@)->Ok_0, out.last())
            },
            _ => foreign_fns_added(s.drop_last(), out),
        }
    }
}

/// The types that a list of items imports, in order.
pub open spec fn foreign_types_added<Ty>(s: Seq<ForeignItem<Ty>>, out: Seq<ImportType>) -> bool
    decreases s.len(),
{
    if s.len() == 0 {
        out.len() == 0
    } else {
        match s.last() {
            ForeignItem::Type { attrs, rust_name } => {
                &&& out.len() > 0
                &&& foreign_types_added(s.drop_last(), out.drop_last())
                &&& import_type_of(rust_name, item_attrs_outcome(attrs@)->Ok_0, out.last())
            },
            _ => foreign_types_added(s.drop_last(), out),
        }
    }
}

/// The statics that a list of items imports, in order.
pub open spec fn foreign_statics_added<Ty>(s: Seq<ForeignItem<Ty>>, out: Seq<ImportStatic<Ty>>) -> bool
    decreases s.len(),
{
    if s.len() == 0 {
        out.len() == 0
    } else {
        match s.last() {
            ForeignItem::Static { attrs, global } => {
                &&& out.len() > 0
                &&& foreign_statics_added(s.drop_last(), out.drop_last())
                &&& import_static_of(global, item_attrs_outcome(attrs@)->Ok_0, out.last())
            },
            _ => foreign_statics_added(s.drop_last(), out),
        }
    }
}

/// The first failing item is at `k` when none fails before it and it fails (or the
/// list ends there).
proof fn lemma_foreign_fail_index<Ty>(s: Seq<ForeignItem<Ty>>, k: int)
    requires
        0 <= k <= s.len(),
        forall|j: int| 0 <= j < k ==> foreign_item_error(#[trigger] s[j]) is None,
        k == s.len() || foreign_item_error(s[k]) is Some,
    ensures
        foreign_fail_index(s) == k,
    decreases k,
{
    if k > 0 {
        let t = s.drop_first();
        assert forall|j: int| 0 <= j < k - 1 implies foreign_item_error(#[trigger] t[j]) is None by {
            assert(t[j] == s[j + 1]);
        }
        if k < s.len() {
            assert(t[k - 1] == s[k]);
        }
        lemma_foreign_fail_index(t, k - 1);
    }
}

/// Top-level program containing all parsed items
pub struct Program<Ty> {
    /// Attributes
    pub attrs: BindgenAttrs,
    /// Imported types
    pub types: Vec<ImportType>,
    /// Imported functions
    pub functions: Vec<ImportFunction<Ty>>,
    /// Imported statics (global values)
    pub statics: Vec<ImportStatic<Ty>>,
    /// String enums
    pub string_enums: Vec<StringEnum>,
    /// Exported structs
    pub structs: Vec<ExportStruct<Ty>>,
    /// Exported methods from impl blocks
    pub exports: Vec<ExportMethod<Ty>>,
}

impl<Ty> Program<Ty> {
    /// An empty program under the attributes of the macro.
    pub fn new(attrs: BindgenAttrs) -> (r: Self)
        ensures
            r.attrs == attrs,
            r.types@.len() == 0,
            r.functions@.len() == 0,
            r.statics@.len() == 0,
            r.string_enums@.len() == 0,
            r.structs@.len() == 0,
            r.exports@.len() == 0,
    {
        Program {
            attrs,
            types: Vec::new(),
            functions: Vec::new(),
            statics: Vec::new(),
            string_enums: Vec::new(),
            structs: Vec::new(),
            exports: Vec::new(),
        }
    }
}

/// What parsing the items of an `extern "C"` block does to a program: the items
/// before the first that fails are imported, in order, and the outcome is that
/// item's error, or success.
pub open spec fn foreign_mod_effect<Ty>(
    before: Program<Ty>,
    after: Program<Ty>,
    items: Seq<ForeignItem<Ty>>,
    r: Result<(), String>,
) -> bool {
    let i = foreign_fail_index(items) as int;
    let done = items.take(i);
    &&& after.attrs == before.attrs
    &&& after.string_enums == before.string_enums
    &&& after.structs == before.structs
    &&& after.exports == before.exports
    &&& after.functions@.len() >= before.functions@.len()
    &&& after.functions@.take(before.functions@.len() as int) == before.functions@
    &&& foreign_fns_added(done, after.functions@.skip(before.functions@.len() as int))
    &&& after.types@.len() >= before.types@.len()
    &&& after.types@.take(before.types@.len() as int) == before.types@
    &&& foreign_types_added(done, after.types@.skip(before.types@.len() as int))
    &&& after.statics@.len() >= before.statics@.len()
    &&& after.statics@.take(before.statics@.len() as int) == before.statics@
    &&& foreign_statics_added(done, after.statics@.skip(before.statics@.len() as int))
    &&& match r {
        Ok(_) => i == items.len(),
        Err(e) => i < items.len() && foreign_item_error(items[i]) == Some(e@),
    }
}

/// Parse an `extern "C"` block into a program.
#[verifier::spinoff_prover]
#[verifier::rlimit(50)]
pub fn parse_foreign_mod<Ty>(program: &mut Program<Ty>, items: Vec<ForeignItem<Ty>>) -> (r: Result<
    (),
    String,
>)
    ensures
        foreign_mod_effect(*old(program), *final(program), items@, r),
{
    let ghost all = items@;
    let ghost p0 = *program;
    let ghost nf = program.functions@.len() as int;
    let ghost nt = program.types@.len() as int;
    let ghost ns = program.statics@.len() as int;
    let n = items.len();
    let mut rest = items;
    let mut k: usize = 0;
    while rest.len() > 0
        invariant
            k <= all.len() == n,
            all == items@,
            p0 == *old(program),
            nf == p0.functions@.len(),
            nt == p0.types@.len(),
            ns == p0.statics@.len(),
            rest@ == all.subrange(k as int, all.len() as int),
            forall|j: int| 0 <= j < k ==> foreign_item_error(#[trigger] all[j]) is None,
            program.attrs == p0.attrs,
            program.string_enums == p0.string_enums,
            program.structs == p0.structs,
            program.exports == p0.exports,
            program.functions@.len() >= nf,
            program.functions@.take(nf) == p0.functions@,
            foreign_fns_added(all.take(k as int), program.functions@.skip(nf)),
            program.types@.len() >= nt,
            program.types@.take(nt) == p0.types@,
            foreign_types_added(all.take(k as int), program.types@.skip(nt)),
            program.statics@.len() >= ns,
            program.statics@.take(ns) == p0.statics@,
            foreign_statics_added(all.take(k as int), program.statics@.skip(ns)),
        decreases rest@.len(),
    {
        let item = rest.remove(0);
        assert(item == all[k as int]);
        let ghost t = all.take(k as int + 1);
        assert(t.drop_last() =~= all.take(k as int));
        assert(t.last() == item);
        let ghost fns = program.functions@;
        let ghost tys = program.types@;
        let ghost sts = program.statics@;
        match item {
            ForeignItem::Fn { attrs, decl } => {
                let fn_attrs = match extract_wasm_bindgen_attrs(attrs) {
                    Ok(a) => a,
                    Err(e) => {
                        proof {
                            lemma_foreign_fail_index(all, k as int);
                            assert(all.take(k as int) =~= all.take(foreign_fail_index(all) as int));
                        }
                        return Err(e);
                    },
                };
                match parse_foreign_fn(decl, fn_attrs) {
                    Ok(func) => {
                        program.functions.push(func);
                        proof {
                            assert(program.functions@.take(nf) =~= fns.take(nf));
                            assert(program.functions@.skip(nf).drop_last() =~= fns.skip(nf));
                            assert(program.types@.skip(nt) =~= tys.skip(nt));
                            assert(program.statics@.skip(ns) =~= sts.skip(ns));
                        }
                    },
                    Err(e) => {
                        proof {
                            lemma_foreign_fail_index(all, k as int);
                            assert(all.take(k as int) =~= all.take(foreign_fail_index(all) as int));
                        }
                        return Err(e);
                    },
                }
            },
            ForeignItem::Type { attrs, rust_name } => {
                let type_attrs = match extract_wasm_bindgen_attrs(attrs) {
                    Ok(a) => a,
                    Err(e) => {
                        proof {
                            lemma_foreign_fail_index(all, k as int);
                            assert(all.take(k as int) =~= all.take(foreign_fail_index(all) as int));
                        }
                        return Err(e);
                    },
                };
                let ty = parse_foreign_type(rust_name, type_attrs);
                program.types.push(ty);
                proof {
                    assert(program.types@.take(nt) =~= tys.take(nt));
                    assert(program.types@.skip(nt).drop_last() =~= tys.skip(nt));
                    assert(program.functions@.skip(nf) =~= fns.skip(nf));
                    assert(program.statics@.skip(ns) =~= sts.skip(ns));
                }
            },
            ForeignItem::Static { attrs, global } => {
                let static_attrs = match extract_wasm_bindgen_attrs(attrs) {
                    Ok(a) => a,
                    Err(e) => {
                        proof {
                            lemma_foreign_fail_index(all, k as int);
                            assert(all.take(k as int) =~= all.take(foreign_fail_index(all) as int));
                        }
                        return Err(e);
                    },
                };
                match parse_foreign_static(global, static_attrs) {
                    Ok(st) => {
                        program.statics.push(st);
                        proof {
                            assert(program.statics@.take(ns) =~= sts.take(ns));
                            assert(program.statics@.skip(ns).drop_last() =~= sts.skip(ns));
                            assert(program.functions@.skip(nf) =~= fns.skip(nf));
                            assert(program.types@.skip(nt) =~= tys.skip(nt));
                        }
                    },
                    Err(e) => {
                        proof {
                            lemma_foreign_fail_index(all, k as int);
                            assert(all.take(k as int) =~= all.take(foreign_fail_index(all) as int));
                        }
                        return Err(e);
                    },
                }
            },
            ForeignItem::Other => {
                let mut msg = String::new();
                msg.append("only functions, types, and statics are supported in extern blocks");
                proof {
                    lemma_foreign_fail_index(all, k as int);
                    assert(all.take(k as int) =~= all.take(foreign_fail_index(all) as int));
                }
                return Err(msg);
            },
        }
        k = k + 1;
    }
    proof {
        lemma_foreign_fail_index(all, k as int);
        assert(all.take(k as int) =~= all.take(foreign_fail_index(all) as int));
    }
    Ok(())
}

/// An item under `#[wasm_bindgen]`, as the macro reads it.
pub enum Item<Ty> {
    /// `extern "C" { ... }`, with its items
    ForeignMod(Vec<ForeignItem<Ty>>),
    /// An enum, with its name and variants
    Enum { name: String, variants: Vec<EnumVariant> },
    /// A struct
    Struct(ItemStruct<Ty>),
    /// An impl block
    Impl(ImplBlock<Ty>),
    /// Anything else, which is refused
    Other,
}

/// What parsing one item does to a program: the item's imports or exports are added,
/// or its error comes out and the program stays as it was (an `extern` block keeps
/// what it imported before its failing item).
pub open spec fn item_effect<Ty>(
    before: Program<Ty>,
    after: Program<Ty>,
    item: Item<Ty>,
    r: Result<(), String>,
) -> bool {
    match item {
        Item::ForeignMod(items) => foreign_mod_effect(before, after, items@, r),
        Item::Enum { name, variants } => match r {
            Ok(_) => {
                &&& variants_error(variants@) is None
                &&& after.string_enums@.len() == before.string_enums@.len() + 1
                &&& after.string_enums@.drop_last() == before.string_enums@
                &&& after.string_enums@.last().name == name
                &&& after.string_enums@.last().variants@ == variants@.map_values(
                    |v: EnumVariant| v.ident,
                )
                &&& after.string_enums@.last().variant_values@ == variants@.map_values(
                    |v: EnumVariant| variant_value(v),
                )
                &&& after == Program { string_enums: after.string_enums, ..before }
            },
            Err(e) => variants_error(variants@) == Some(e@) && after == before,
        },
        Item::Struct(st) => match r {
            Ok(_) => {
                let v = after.structs@.last();
                &&& struct_error(st) is None
                &&& after.structs@.len() == before.structs@.len() + 1
                &&& after.structs@.drop_last() == before.structs@
                &&& v.rust_name == st.rust_name
                &&& v.js_name@ == name_or(before.attrs.js_name, st.rust_name@)
                &&& v.is_inspectable == before.attrs.inspectable
                &&& match st.fields {
                    StructFields::Named(fields) => fields_exported(fields@, v.fields@),
                    _ => v.fields@.len() == 0,
                }
                &&& after == Program { structs: after.structs, ..before }
            },
            Err(e) => struct_error(st) == Some(e@) && after == before,
        },
        Item::Impl(block) => match r {
            Ok(_) => {
                &&& impl_block_error(block) is None
                &&& after.exports@.len() >= before.exports@.len()
                &&& after.exports@.take(before.exports@.len() as int) == before.exports@
                &&& impl_items_exports(
                    block.self_ident->0@,
                    block.items@,
                    after.exports@.skip(before.exports@.len() as int),
                )
                &&& after == Program { exports: after.exports, ..before }
            },
            Err(e) => impl_block_error(block) == Some(e@) && after == before,
        },
        Item::Other => {
            &&& r matches Err(e) && e@
                == "wasm_bindgen attribute must be on extern \"C\" block, enum, struct, or impl block"@
            &&& after == before
        },
    }
}

/// Parse an item into the program.
pub fn parse_item<Ty>(program: &mut Program<Ty>, item: Item<Ty>) -> (r: Result<(), String>)
    ensures
        item_effect(*old(program), *final(program), item, r),
{
    match item {
        Item::ForeignMod(items) => parse_foreign_mod(program, items),
        Item::Enum { name, variants } => {
            let e = parse_string_enum(name, variants)?;
            let ghost before = program.string_enums@;
            program.string_enums.push(e);
            assert(program.string_enums@.drop_last() =~= before);
            Ok(())
        },
        Item::Struct(st) => {
            let export_struct = parse_struct(st, &program.attrs)?;
            let ghost before = program.structs@;
            program.structs.push(export_struct);
            assert(program.structs@.drop_last() =~= before);
            Ok(())
        },
        Item::Impl(block) => {
            let mut exports = parse_impl_block(block)?;
            let ghost before = program.exports@;
            let ghost added = exports@;
            program.exports.append(&mut exports);
            assert(program.exports@.take(before.len() as int) =~= before);
            assert(program.exports@.skip(before.len() as int) =~= added);
            Ok(())
        },
        Item::Other => {
            let mut msg = String::new();
            msg.append(
                "wasm_bindgen attribute must be on extern \"C\" block, enum, struct, or impl block",
            );
            Err(msg)
        },
    }
}

/// The program of a `#[wasm_bindgen(...)]` item: its attributes parsed, then the
/// item parsed under them. This is what the code generation works from.
pub fn parse_program<Ty>(attrs: Vec<BindgenAttr>, item: Item<Ty>) -> (r: Result<Program<Ty>, String>)
    ensures
        r is Ok ==> exists|e: Program<Ty>|
            #![trigger item_effect(e, r->Ok_0, item, Ok::<(), String>(()))]
            fresh_program(attrs@, e) && item_effect(e, r->Ok_0, item, Ok::<(), String>(())),
        r is Err ==> match attrs_outcome(attrs@) {
            Err(m) => r->Err_0@ == m,
            Ok(_) => exists|e: Program<Ty>, p: Program<Ty>|
                #![trigger item_effect(e, p, item, Err::<(), String>(r->Err_0))]
                fresh_program(attrs@, e) && item_effect(e, p, item, Err::<(), String>(r->Err_0)),
        },
{
    let parsed = match parse_attrs(attrs) {
        Ok(p) => p,
        Err(e) => return Err(e),
    };
    let mut program = Program::new(parsed);
    let ghost empty = program;
    let res = parse_item(&mut program, item);
    assert(fresh_program(attrs@, empty));
    assert(item_effect(empty, program, item, res));
    match res {
        Ok(()) => {
            let r: Result<Program<Ty>, String> = Ok(program);
            assert(item_effect(empty, r->Ok_0, item, Ok::<(), String>(())));
            assert(fresh_program(attrs@, empty));
            r
        },
        Err(msg) => {
            let r: Result<Program<Ty>, String> = Err(msg);
            assert(item_effect(empty, program, item, Err::<(), String>(r->Err_0)));
            r
        },
    }
}

/// A program with the attributes that a list parses to, and nothing else yet.
pub open spec fn fresh_program<Ty>(attrs: Seq<BindgenAttr>, e: Program<Ty>) -> bool {
    &&& attrs_outcome(attrs) == Ok::<AttrsView, Seq<char>>(e.attrs@)
    &&& e.types@.len() == 0
    &&& e.functions@.len() == 0
    &&& e.statics@.len() == 0
    &&& e.string_enums@.len() == 0
    &&& e.structs@.len() == 0
    &&& e.exports@.len() == 0
}

/// Why an exported method cannot be called from JavaScript, if it cannot: a getter
/// needs a return type, a setter an argument.
pub open spec fn export_method_error<Ty>(m: ExportMethod<Ty>) -> Option<Seq<char>> {
    match m.kind {
        ExportMethodKind::Getter { .. } => if m.ret is None {
            Some("getter must have a return type"@)
        } else {
            None
        },
        ExportMethodKind::Setter { .. } => if m.arguments@.len() == 0 {
            Some("setter must have an argument"@)
        } else {
            None
        },
        _ => None,
    }
}

/// The name under which an exported method is registered, `class::js_name`, or why
/// it cannot be exported.
pub fn check_export_method<Ty>(m: &ExportMethod<Ty>) -> (r: Result<String, String>)
    ensures
        match r {
            Ok(name) => export_method_error(*m) is None && name@ == m.class@ + "::"@ + m.js_name@,
            Err(e) => export_method_error(*m) == Some(e@),
        },
{
    match &m.kind {
        ExportMethodKind::Getter { .. } => {
            if m.ret.is_none() {
                let mut msg = String::new();
                msg.append("getter must have a return type");
                return Err(msg);
            }
        },
        ExportMethodKind::Setter { .. } => {
            if m.arguments.len() == 0 {
                let mut msg = String::new();
                msg.append("setter must have an argument");
                return Err(msg);
            }
        },
        _ => {},
    }
    let mut name = String::new();
    name.append(m.class.as_str());
    name.append("::");
    name.append(m.js_name.as_str());
    Ok(name)
}

/// The type of the block that a plain imported function becomes a static method of:
/// the one element of its namespace, when that element names a type of the block.
pub open spec fn namespace_class(namespace: Option<Vec<String>>, type_names: Seq<Seq<char>>) -> Option<
    Seq<char>,
> {
    match namespace {
        Some(ns) => if ns@.len() == 1 && type_names.contains(ns@[0]@) {
            Some(ns@[0]@)
        } else {
            None
        },
        None => None,
    }
}

/// The type of the block that a plain imported function with this namespace is a
/// static method of, if any (which keeps it from colliding with other functions).
pub fn static_method_class<'a>(namespace: &'a Option<Vec<String>>, type_names: &Vec<String>) -> (r:
    Option<&'a str>)
    ensures
        match r {
            Some(c) => namespace_class(*namespace, string_views(type_names@)) == Some(c@),
            None => namespace_class(*namespace, string_views(type_names@)) is None,
        },
{
    match namespace {
        Some(ns) => {
            if ns.len() == 1 && contains_str(type_names, ns[0].as_str()) {
                Some(ns[0].as_str())
            } else {
                None
            }
        },
        None => None,
    }
}

/// An exported accessor reads or writes the property its attribute names: with
/// `getter = n` (and not a constructor) the method is a getter of `n`, and with a bare
/// `getter` a getter of its JavaScript name (its `js_name`, else its Rust name); with
/// `setter = n` (and no getter) a setter of `n`, and with a bare `setter` a setter of
/// its JavaScript name without a leading `set_`.
pub proof fn lemma_export_accessor_property<Ty>(
    class: Seq<char>,
    m: ImplMethod<Ty>,
    a: AttrsView,
    r: ExportMethod<Ty>,
)
    requires
        method_export(class, m, a, r),
        !a.constructor,
    ensures
        a.getter matches Some(Some(n)) ==> (r.kind matches ExportMethodKind::Getter { property }
            && property@ == n@),
        a.getter == Some(None::<String>) ==> (r.kind matches ExportMethodKind::Getter { property }
            && property@ == (if a.js_name is Some { a.js_name->0@ } else { m.rust_name@ })),
        a.getter is None ==> (a.setter matches Some(Some(n)) ==> (
        r.kind matches ExportMethodKind::Setter { property } && property@ == n@)),
        a.getter is None && a.setter == Some(None::<String>) ==> (
        r.kind matches ExportMethodKind::Setter { property } && property@ == without_set_prefix(
            if a.js_name is Some { a.js_name->0@ } else { m.rust_name@ },
        )),
{
}

/// An imported accessor reads or writes the property its attribute names: with
/// `getter = n` (and neither `constructor` nor `static_method_of`) the import is a
/// getter of `n` on its receiver, with a bare `getter` a getter of its JavaScript name;
/// with `setter = n` (and no getter) a setter of `n`.
pub proof fn lemma_import_accessor_property<Ty>(f: ForeignFn<Ty>, a: AttrsView, r: ImportFunction<Ty>)
    requires
        foreign_fn_import(f, a, r),
        !a.constructor,
        a.static_method_of is None,
    ensures
        a.getter matches Some(Some(n)) ==> (r.kind matches ImportFunctionKind::Getter {
            property,
            ..
        } && property@ == n@),
        a.getter == Some(None::<String>) ==> (r.kind matches ImportFunctionKind::Getter {
            property,
            ..
        } && property@ == (if a.js_name is Some { a.js_name->0@ } else { f.rust_name@ })),
        a.getter is None ==> (a.setter matches Some(Some(n)) ==> (
        r.kind matches ImportFunctionKind::Setter { property, .. } && property@ == n@)),
{
}

/// Which kind an import is follows its attributes, in this order of precedence:
/// `constructor` makes a constructor (of the type it returns when that is a simple
/// path, else of its `js_class`, else of its JavaScript name); `static_method_of = C`
/// a static method of `C`; `getter`, `setter` and the indexing attributes accessors on
/// its receiver; `method` or `structural` a method on its receiver; none of them a plain
/// function. The JavaScript name is the `js_name` attribute, else the Rust name.
pub proof fn lemma_import_kind_follows_attrs<Ty>(f: ForeignFn<Ty>, a: AttrsView, r: ImportFunction<Ty>)
    requires
        foreign_fn_import(f, a, r),
    ensures
        r.js_name@ == (if a.js_name is Some { a.js_name->0@ } else { f.rust_name@ }),
        a.constructor ==> (r.kind matches ImportFunctionKind::Constructor { class } && class@ == (
        if f.ret is Some && simple_type_name(f.ret_shape) is Some {
            simple_type_name(f.ret_shape)->0
        } else if a.js_class is Some {
            a.js_class->0@
        } else {
            r.js_name@
        })),
        !a.constructor ==> (a.static_method_of matches Some(c) ==> r.kind
            == ImportFunctionKind::<Ty>::StaticMethod { class: c }),
        !a.constructor && a.static_method_of is None && a.getter is None && a.setter is None
            && !a.indexing_getter && !a.indexing_setter && !a.indexing_deleter ==> (
        (a.method || a.structural) ==> r.kind is Method) && (!(a.method || a.structural)
            ==> r.kind is Normal),
{
}

/// Which kind an exported method is follows its attributes and receiver: `constructor`
/// makes a constructor; else a getter or setter attribute an accessor; else a method
/// taking `self` as its receiver does, and a method without a receiver a static method.
/// The JavaScript name is the `js_name` attribute, else the Rust name.
pub proof fn lemma_export_kind_follows_attrs<Ty>(
    class: Seq<char>,
    m: ImplMethod<Ty>,
    a: AttrsView,
    r: ExportMethod<Ty>,
)
    requires
        method_export(class, m, a, r),
    ensures
        r.class@ == class,
        r.js_name@ == (if a.js_name is Some { a.js_name->0@ } else { m.rust_name@ }),
        a.constructor ==> r.kind is Constructor,
        !a.constructor && a.getter is None && a.setter is None ==> (self_type_of(m.inputs@) matches Some(st)
            ==> r.kind == ExportMethodKind::Method { self_ty: st }),
        !a.constructor && a.getter is None && a.setter is None && self_type_of(m.inputs@) is None
            ==> r.kind is StaticMethod,
{
}

/// A string enum is accepted exactly when every variant is a unit variant with a string
/// literal discriminant, and the value of each variant is its discriminant's string.
pub proof fn lemma_string_enum_accepted(s: Seq<EnumVariant>)
    ensures
        variants_error(s) is None <==> forall|i: int|
            0 <= i < s.len() ==> (#[trigger] s[i]).is_unit && s[i].discriminant is Str,
        forall|i: int|
            0 <= i < s.len() ==> ((#[trigger] s[i]).discriminant matches Discriminant::Str(x)
                ==> variant_value(s[i]) == x),
    decreases s.len(),
{
    if s.len() > 0 {
        let p = s.drop_last();
        lemma_string_enum_accepted(p);
        assert forall|i: int| 0 <= i < p.len() implies #[trigger] p[i] == s[i] by {}
        if variants_error(s) is None {
            assert forall|i: int| 0 <= i < s.len() implies (#[trigger] s[i]).is_unit
                && s[i].discriminant is Str by {
                if i < s.len() - 1 {
                    assert(p[i] == s[i]);
                }
            }
        }
        if forall|i: int| 0 <= i < s.len() ==> (#[trigger] s[i]).is_unit && s[i].discriminant is Str {
            assert forall|i: int| 0 <= i < p.len() implies (#[trigger] p[i]).is_unit
                && p[i].discriminant is Str by {
                assert(s[i] == p[i]);
            }
            assert(s[s.len() - 1] == s.last());
        }
    }
}

} // verus!
