//! The attributes of `#[wasm_bindgen(...)]`, and how a list of them is folded into
//! one record.
//!
//! Reading the tokens of one attribute is the work of the Rust syntax parser; what
//! comes out of it is a [`BindgenAttr`], whose payloads hold plain text (a path or an
//! expression as its source text).

use vstd::prelude::*;

verus! {

/// A single attribute within `wasm_bindgen(...)`.
pub enum BindgenAttr {
    Method,
    StructuralTyping,
    JsName(String),
    JsClass(String),
    JsNamespace(Vec<String>),
    Getter(Option<String>),
    Setter(Option<String>),
    Constructor,
    Catch,
    Extends(String),
    StaticMethodOf(String),
    Variadic,
    TypescriptType(String),
    InlineJs(String),
    ThreadLocalV2,
    IsTypeOf(String),
    IndexingGetter,
    IndexingSetter,
    IndexingDeleter,
    Final,
    Readonly,
    Crate(String),
    VendorPrefix(String),
    Inspectable,
    Skip,
    GetterWithClone,
    Module(String),
}

/// Which attribute an attribute is, without its payload.
#[derive(Debug, Clone, Copy, PartialEq, Eq, Structural)]
pub enum AttrKind {
    Method,
    StructuralTyping,
    JsName,
    JsClass,
    JsNamespace,
    Getter,
    Setter,
    Constructor,
    Catch,
    Extends,
    StaticMethodOf,
    Variadic,
    TypescriptType,
    InlineJs,
    ThreadLocalV2,
    IsTypeOf,
    IndexingGetter,
    IndexingSetter,
    IndexingDeleter,
    Final,
    Readonly,
    Crate,
    VendorPrefix,
    Inspectable,
    Skip,
    GetterWithClone,
    Module,
}

/// The kind of an attribute.
pub open spec fn attr_kind(a: BindgenAttr) -> AttrKind {
    match a {
        BindgenAttr::Method => AttrKind::Method,
        BindgenAttr::StructuralTyping => AttrKind::StructuralTyping,
        BindgenAttr::JsName(_) => AttrKind::JsName,
        BindgenAttr::JsClass(_) => AttrKind::JsClass,
        BindgenAttr::JsNamespace(_) => AttrKind::JsNamespace,
        BindgenAttr::Getter(_) => AttrKind::Getter,
        BindgenAttr::Setter(_) => AttrKind::Setter,
        BindgenAttr::Constructor => AttrKind::Constructor,
        BindgenAttr::Catch => AttrKind::Catch,
        BindgenAttr::Extends(_) => AttrKind::Extends,
        BindgenAttr::StaticMethodOf(_) => AttrKind::StaticMethodOf,
        BindgenAttr::Variadic => AttrKind::Variadic,
        BindgenAttr::TypescriptType(_) => AttrKind::TypescriptType,
        BindgenAttr::InlineJs(_) => AttrKind::InlineJs,
        BindgenAttr::ThreadLocalV2 => AttrKind::ThreadLocalV2,
        BindgenAttr::IsTypeOf(_) => AttrKind::IsTypeOf,
        BindgenAttr::IndexingGetter => AttrKind::IndexingGetter,
        BindgenAttr::IndexingSetter => AttrKind::IndexingSetter,
        BindgenAttr::IndexingDeleter => AttrKind::IndexingDeleter,
        BindgenAttr::Final => AttrKind::Final,
        BindgenAttr::Readonly => AttrKind::Readonly,
        BindgenAttr::Crate(_) => AttrKind::Crate,
        BindgenAttr::VendorPrefix(_) => AttrKind::VendorPrefix,
        BindgenAttr::Inspectable => AttrKind::Inspectable,
        BindgenAttr::Skip => AttrKind::Skip,
        BindgenAttr::GetterWithClone => AttrKind::GetterWithClone,
        BindgenAttr::Module(_) => AttrKind::Module,
    }
}

/// The name under which an attribute is written.
pub open spec fn kind_name(k: AttrKind) -> Seq<char> {
    match k {
        AttrKind::Method => "method"@,
        AttrKind::StructuralTyping => "structural"@,
        AttrKind::JsName => "js_name"@,
        AttrKind::JsClass => "js_class"@,
        AttrKind::JsNamespace => "js_namespace"@,
        AttrKind::Getter => "getter"@,
        AttrKind::Setter => "setter"@,
        AttrKind::Constructor => "constructor"@,
        AttrKind::Catch => "catch"@,
        AttrKind::Extends => "extends"@,
        AttrKind::StaticMethodOf => "static_method_of"@,
        AttrKind::Variadic => "variadic"@,
        AttrKind::TypescriptType => "typescript_type"@,
        AttrKind::InlineJs => "inline_js"@,
        AttrKind::ThreadLocalV2 => "thread_local_v2"@,
        AttrKind::IsTypeOf => "is_type_of"@,
        AttrKind::IndexingGetter => "indexing_getter"@,
        AttrKind::IndexingSetter => "indexing_setter"@,
        AttrKind::IndexingDeleter => "indexing_deleter"@,
        AttrKind::Final => "final"@,
        AttrKind::Readonly => "readonly"@,
        AttrKind::Crate => "crate"@,
        AttrKind::VendorPrefix => "vendor_prefix"@,
        AttrKind::Inspectable => "inspectable"@,
        AttrKind::Skip => "skip"@,
        AttrKind::GetterWithClone => "getter_with_clone"@,
        AttrKind::Module => "module"@,
    }
}

/// Attributes that may be given more than once; each occurrence adds to a list.
pub open spec fn repeatable(k: AttrKind) -> bool {
    k == AttrKind::Extends || k == AttrKind::VendorPrefix
}

impl AttrKind {
    /// The name under which the attribute is written.
    pub fn name(&self) -> (r: &'static str)
        ensures
            r@ == kind_name(*self),
    {
        match self {
            AttrKind::Method => "method",
            AttrKind::StructuralTyping => "structural",
            AttrKind::JsName => "js_name",
            AttrKind::JsClass => "js_class",
            AttrKind::JsNamespace => "js_namespace",
            AttrKind::Getter => "getter",
            AttrKind::Setter => "setter",
            AttrKind::Constructor => "constructor",
            AttrKind::Catch => "catch",
            AttrKind::Extends => "extends",
            AttrKind::StaticMethodOf => "static_method_of",
            AttrKind::Variadic => "variadic",
            AttrKind::TypescriptType => "typescript_type",
            AttrKind::InlineJs => "inline_js",
            AttrKind::ThreadLocalV2 => "thread_local_v2",
            AttrKind::IsTypeOf => "is_type_of",
            AttrKind::IndexingGetter => "indexing_getter",
            AttrKind::IndexingSetter => "indexing_setter",
            AttrKind::IndexingDeleter => "indexing_deleter",
            AttrKind::Final => "final",
            AttrKind::Readonly => "readonly",
            AttrKind::Crate => "crate",
            AttrKind::VendorPrefix => "vendor_prefix",
            AttrKind::Inspectable => "inspectable",
            AttrKind::Skip => "skip",
            AttrKind::GetterWithClone => "getter_with_clone",
            AttrKind::Module => "module",
        }
    }

    /// Whether the attribute may be given more than once.
    pub fn is_repeatable(&self) -> (r: bool)
        ensures
            r == repeatable(*self),
    {
        match self {
            AttrKind::Extends | AttrKind::VendorPrefix => true,
            _ => false,
        }
    }
}

impl BindgenAttr {
    /// Which attribute this is.
    pub fn kind(&self) -> (r: AttrKind)
        ensures
            r == attr_kind(*self),
    {
        match self {
            BindgenAttr::Method => AttrKind::Method,
            BindgenAttr::StructuralTyping => AttrKind::StructuralTyping,
            BindgenAttr::JsName(_) => AttrKind::JsName,
            BindgenAttr::JsClass(_) => AttrKind::JsClass,
            BindgenAttr::JsNamespace(_) => AttrKind::JsNamespace,
            BindgenAttr::Getter(_) => AttrKind::Getter,
            BindgenAttr::Setter(_) => AttrKind::Setter,
            BindgenAttr::Constructor => AttrKind::Constructor,
            BindgenAttr::Catch => AttrKind::Catch,
            BindgenAttr::Extends(_) => AttrKind::Extends,
            BindgenAttr::StaticMethodOf(_) => AttrKind::StaticMethodOf,
            BindgenAttr::Variadic => AttrKind::Variadic,
            BindgenAttr::TypescriptType(_) => AttrKind::TypescriptType,
            BindgenAttr::InlineJs(_) => AttrKind::InlineJs,
            BindgenAttr::ThreadLocalV2 => AttrKind::ThreadLocalV2,
            BindgenAttr::IsTypeOf(_) => AttrKind::IsTypeOf,
            BindgenAttr::IndexingGetter => AttrKind::IndexingGetter,
            BindgenAttr::IndexingSetter => AttrKind::IndexingSetter,
            BindgenAttr::IndexingDeleter => AttrKind::IndexingDeleter,
            BindgenAttr::Final => AttrKind::Final,
            BindgenAttr::Readonly => AttrKind::Readonly,
            BindgenAttr::Crate(_) => AttrKind::Crate,
            BindgenAttr::VendorPrefix(_) => AttrKind::VendorPrefix,
            BindgenAttr::Inspectable => AttrKind::Inspectable,
            BindgenAttr::Skip => AttrKind::Skip,
            BindgenAttr::GetterWithClone => AttrKind::GetterWithClone,
            BindgenAttr::Module(_) => AttrKind::Module,
        }
    }
}


/// Parsed `wasm_bindgen` attributes. A flag is `true` when its attribute was given.
pub struct BindgenAttrs {
    /// The `method` attribute - marks a function as an instance method
    pub method: bool,
    /// The `structural` attribute - use structural/duck typing
    pub structural: bool,
    /// The `js_name` attribute - JavaScript name override
    pub js_name: Option<String>,
    /// The `js_class` attribute - JavaScript class name
    pub js_class: Option<String>,
    /// The `js_namespace` attribute - JavaScript namespace
    pub js_namespace: Option<Vec<String>>,
    /// The `getter` attribute - property getter, with the property's name if given
    pub getter: Option<Option<String>>,
    /// The `setter` attribute - property setter, with the property's name if given
    pub setter: Option<Option<String>>,
    /// The `constructor` attribute - class constructor
    pub constructor: bool,
    /// The `catch` attribute - wraps in try-catch
    pub catch: bool,
    /// The `extends` attributes - parent type paths, in order
    pub extends: Vec<String>,
    /// The `static_method_of` attribute - the class of a static method
    pub static_method_of: Option<String>,
    /// The `variadic` attribute - variable arguments
    pub variadic: bool,
    /// The `typescript_type` attribute - TypeScript type override
    pub typescript_type: Option<String>,
    /// The `inline_js` attribute - inline JavaScript code (the expression's text)
    pub inline_js: Option<String>,
    /// The `thread_local_v2` attribute - marks a static as lazily initialized
    pub thread_local_v2: bool,
    /// The `is_type_of` attribute - custom type checking expression (its text)
    pub is_type_of: Option<String>,
    /// The `indexing_getter` attribute - array-like indexing getter
    pub indexing_getter: bool,
    /// The `indexing_setter` attribute - array-like indexing setter
    pub indexing_setter: bool,
    /// The `indexing_deleter` attribute - array-like indexing deleter
    pub indexing_deleter: bool,
    /// The `final` attribute - mark type as final
    pub final_: bool,
    /// The `readonly` attribute - mark property as read-only
    pub readonly: bool,
    /// The `crate` attribute - custom crate path for imports (its text)
    pub crate_path: Option<String>,
    /// The `vendor_prefix` attributes - vendor prefixes for types, in order
    pub vendor_prefixes: Vec<String>,
    /// The `inspectable` attribute - generate toJSON/toString for structs
    pub inspectable: bool,
    /// The `skip` attribute - skip field from export
    pub skip: bool,
    /// The `getter_with_clone` attribute - clone value in getter (for non-Copy types)
    pub getter_with_clone: bool,
    /// The `module` attribute - path to external JS module file
    pub module: Option<String>,
}

/// The value of a [`BindgenAttrs`], with its lists as sequences.
pub struct AttrsView {
    pub method: bool,
    pub structural: bool,
    pub js_name: Option<String>,
    pub js_class: Option<String>,
    pub js_namespace: Option<Vec<String>>,
    pub getter: Option<Option<String>>,
    pub setter: Option<Option<String>>,
    pub constructor: bool,
    pub catch: bool,
    pub extends: Seq<String>,
    pub static_method_of: Option<String>,
    pub variadic: bool,
    pub typescript_type: Option<String>,
    pub inline_js: Option<String>,
    pub thread_local_v2: bool,
    pub is_type_of: Option<String>,
    pub indexing_getter: bool,
    pub indexing_setter: bool,
    pub indexing_deleter: bool,
    pub final_: bool,
    pub readonly: bool,
    pub crate_path: Option<String>,
    pub vendor_prefixes: Seq<String>,
    pub inspectable: bool,
    pub skip: bool,
    pub getter_with_clone: bool,
    pub module: Option<String>,
}

impl View for BindgenAttrs {
    type V = AttrsView;

    open spec fn view(&self) -> AttrsView {
        AttrsView {
            method: self.method,
            structural: self.structural,
            js_name: self.js_name,
            js_class: self.js_class,
            js_namespace: self.js_namespace,
            getter: self.getter,
            setter: self.setter,
            constructor: self.constructor,
            catch: self.catch,
            extends: self.extends@,
            static_method_of: self.static_method_of,
            variadic: self.variadic,
            typescript_type: self.typescript_type,
            inline_js: self.inline_js,
            thread_local_v2: self.thread_local_v2,
            is_type_of: self.is_type_of,
            indexing_getter: self.indexing_getter,
            indexing_setter: self.indexing_setter,
            indexing_deleter: self.indexing_deleter,
            final_: self.final_,
            readonly: self.readonly,
            crate_path: self.crate_path,
            vendor_prefixes: self.vendor_prefixes@,
            inspectable: self.inspectable,
            skip: self.skip,
            getter_with_clone: self.getter_with_clone,
            module: self.module,
        }
    }
}

impl AttrsView {
    /// No attribute given.
    pub open spec fn empty() -> AttrsView {
        AttrsView {
            method: false,
            structural: false,
            js_name: None,
            js_class: None,
            js_namespace: None,
            getter: None,
            setter: None,
            constructor: false,
            catch: false,
            extends: Seq::empty(),
            static_method_of: None,
            variadic: false,
            typescript_type: None,
            inline_js: None,
            thread_local_v2: false,
            is_type_of: None,
            indexing_getter: false,
            indexing_setter: false,
            indexing_deleter: false,
            final_: false,
            readonly: false,
            crate_path: None,
            vendor_prefixes: Seq::empty(),
            inspectable: false,
            skip: false,
            getter_with_clone: false,
            module: None,
        }
    }

    /// The record after one more attribute: its field is set, or, for a repeatable
    /// attribute, its value is appended to the list.
    pub open spec fn with_attr(self, a: BindgenAttr) -> AttrsView {
        match a {
            BindgenAttr::Method => AttrsView { method: true, ..self },
            BindgenAttr::StructuralTyping => AttrsView { structural: true, ..self },
            BindgenAttr::JsName(n) => AttrsView { js_name: Some(n), ..self },
            BindgenAttr::JsClass(n) => AttrsView { js_class: Some(n), ..self },
            BindgenAttr::JsNamespace(ns) => AttrsView { js_namespace: Some(ns), ..self },
            BindgenAttr::Getter(n) => AttrsView { getter: Some(n), ..self },
            BindgenAttr::Setter(n) => AttrsView { setter: Some(n), ..self },
            BindgenAttr::Constructor => AttrsView { constructor: true, ..self },
            BindgenAttr::Catch => AttrsView { catch: true, ..self },
            BindgenAttr::Extends(p) => AttrsView { extends: self.extends.push(p), ..self },
            BindgenAttr::StaticMethodOf(c) => AttrsView { static_method_of: Some(c), ..self },
            BindgenAttr::Variadic => AttrsView { variadic: true, ..self },
            BindgenAttr::TypescriptType(t) => AttrsView { typescript_type: Some(t), ..self },
            BindgenAttr::InlineJs(e) => AttrsView { inline_js: Some(e), ..self },
            BindgenAttr::ThreadLocalV2 => AttrsView { thread_local_v2: true, ..self },
            BindgenAttr::IsTypeOf(e) => AttrsView { is_type_of: Some(e), ..self },
            BindgenAttr::IndexingGetter => AttrsView { indexing_getter: true, ..self },
            BindgenAttr::IndexingSetter => AttrsView { indexing_setter: true, ..self },
            BindgenAttr::IndexingDeleter => AttrsView { indexing_deleter: true, ..self },
            BindgenAttr::Final => AttrsView { final_: true, ..self },
            BindgenAttr::Readonly => AttrsView { readonly: true, ..self },
            BindgenAttr::Crate(p) => AttrsView { crate_path: Some(p), ..self },
            BindgenAttr::VendorPrefix(p) => AttrsView {
                vendor_prefixes: self.vendor_prefixes.push(p),
                ..self
            },
            BindgenAttr::Inspectable => AttrsView { inspectable: true, ..self },
            BindgenAttr::Skip => AttrsView { skip: true, ..self },
            BindgenAttr::GetterWithClone => AttrsView { getter_with_clone: true, ..self },
            BindgenAttr::Module(m) => AttrsView { module: Some(m), ..self },
        }
    }
}

/// The record of all attributes of a list, in order.
pub open spec fn record_all(s: Seq<BindgenAttr>) -> AttrsView
    decreases s.len(),
{
    if s.len() == 0 {
        AttrsView::empty()
    } else {
        record_all(s.drop_last()).with_attr(s.last())
    }
}

/// The attribute at `i` repeats one given before it that may be given once only.
pub open spec fn duplicates_earlier(s: Seq<BindgenAttr>, i: int) -> bool {
    &&& !repeatable(attr_kind(s[i]))
    &&& exists|j: int| 0 <= j < i && attr_kind(#[trigger] s[j]) == attr_kind(s[i])
}

/// The attribute at `i` is `inline_js` after a `module`, or `module` after an
/// `inline_js`.
pub open spec fn conflicts_earlier(s: Seq<BindgenAttr>, i: int) -> bool {
    exists|j: int|
        0 <= j < i && ((s[i] is InlineJs && #[trigger] s[j] is Module) || (s[i] is Module
            && s[j] is InlineJs))
}

/// The attribute at `i` is refused.
pub open spec fn rejected_at(s: Seq<BindgenAttr>, i: int) -> bool {
    duplicates_earlier(s, i) || conflicts_earlier(s, i)
}

/// Why the attribute at `i` is refused.
pub open spec fn rejection_message(s: Seq<BindgenAttr>, i: int) -> Seq<char> {
    if duplicates_earlier(s, i) {
        "duplicate `"@ + kind_name(attr_kind(s[i])) + "` attribute"@
    } else if s[i] is InlineJs {
        "cannot specify both `inline_js` and `module`"@
    } else {
        "cannot specify both `module` and `inline_js`"@
    }
}

/// What a list of attributes parses to: the message for its first refused
/// attribute, or the record of them all.
pub open spec fn attrs_outcome(s: Seq<BindgenAttr>) -> Result<AttrsView, Seq<char>> {
    if exists|i: int| 0 <= i < s.len() && rejected_at(s, i) {
        let i = choose|i: int|
            0 <= i < s.len() && rejected_at(s, i) && forall|j: int|
                0 <= j < i ==> !rejected_at(s, j);
        Err(rejection_message(s, i))
    } else {
        Ok(record_all(s))
    }
}


impl Default for BindgenAttrs {
    /// No attribute given.
    fn default() -> (r: Self)
        ensures
            r@ == AttrsView::empty(),
    {
        BindgenAttrs {
            method: false,
            structural: false,
            js_name: None,
            js_class: None,
            js_namespace: None,
            getter: None,
            setter: None,
            constructor: false,
            catch: false,
            extends: Vec::new(),
            static_method_of: None,
            variadic: false,
            typescript_type: None,
            inline_js: None,
            thread_local_v2: false,
            is_type_of: None,
            indexing_getter: false,
            indexing_setter: false,
            indexing_deleter: false,
            final_: false,
            readonly: false,
            crate_path: None,
            vendor_prefixes: Vec::new(),
            inspectable: false,
            skip: false,
            getter_with_clone: false,
            module: None,
        }
    }
}

impl BindgenAttrs {
    /// Record one attribute: set its field, or append to its list.
    #[verifier::spinoff_prover]
    #[verifier::rlimit(100)]
    pub fn record(&mut self, a: BindgenAttr)
        ensures
            final(self)@ == old(self)@.with_attr(a),
    {
        match a {
            BindgenAttr::Method => {
                self.method = true;
                return;
            }
            BindgenAttr::StructuralTyping => {
                self.structural = true;
                return;
            }
            BindgenAttr::JsName(n) => {
                self.js_name = Some(n);
                return;
            }
            BindgenAttr::JsClass(n) => {
                self.js_class = Some(n);
                return;
            }
            BindgenAttr::JsNamespace(ns) => {
                self.js_namespace = Some(ns);
                return;
            }
            BindgenAttr::Getter(n) => {
                self.getter = Some(n);
                return;
            }
            BindgenAttr::Setter(n) => {
                self.setter = Some(n);
                return;
            }
            BindgenAttr::Constructor => {
                self.constructor = true;
                return;
            }
            BindgenAttr::Catch => {
                self.catch = true;
                return;
            }
            BindgenAttr::Extends(p) => {
                self.extends.push(p);
                return;
            }
            BindgenAttr::StaticMethodOf(c) => {
                self.static_method_of = Some(c);
                return;
            }
            BindgenAttr::Variadic => {
                self.variadic = true;
                return;
            }
            BindgenAttr::TypescriptType(t) => {
                self.typescript_type = Some(t);
                return;
            }
            BindgenAttr::InlineJs(e) => {
                self.inline_js = Some(e);
                return;
            }
            BindgenAttr::ThreadLocalV2 => {
                self.thread_local_v2 = true;
                return;
            }
            BindgenAttr::IsTypeOf(e) => {
                self.is_type_of = Some(e);
                return;
            }
            BindgenAttr::IndexingGetter => {
                self.indexing_getter = true;
                return;
            }
            BindgenAttr::IndexingSetter => {
                self.indexing_setter = true;
                return;
            }
            BindgenAttr::IndexingDeleter => {
                self.indexing_deleter = true;
                return;
            }
            BindgenAttr::Final => {
                self.final_ = true;
                return;
            }
            BindgenAttr::Readonly => {
                self.readonly = true;
                return;
            }
            BindgenAttr::Crate(p) => {
                self.crate_path = Some(p);
                return;
            }
            BindgenAttr::VendorPrefix(p) => {
                self.vendor_prefixes.push(p);
                return;
            }
            BindgenAttr::Inspectable => {
                self.inspectable = true;
                return;
            }
            BindgenAttr::Skip => {
                self.skip = true;
                return;
            }
            BindgenAttr::GetterWithClone => {
                self.getter_with_clone = true;
                return;
            }
            BindgenAttr::Module(m) => {
                self.module = Some(m);
                return;
            }
        }
    }
}

/// Whether a kind occurs in a list of kinds.
fn contains_kind(kinds: &Vec<AttrKind>, k: AttrKind) -> (r: bool)
    ensures
        r == kinds@.contains(k),
{
    let mut i: usize = 0;
    while i < kinds.len()
        invariant
            i <= kinds@.len(),
            forall|j: int| 0 <= j < i ==> kinds@[j] != k,
        decreases kinds@.len() - i,
    {
        if kinds[i] == k {
            return true;
        }
        i = i + 1;
    }
    false
}

/// Parse a list of attributes into a record. An attribute that may be given once is
/// refused when given again, and `inline_js` and `module` exclude each other; the
/// first refused attribute decides the error.
pub fn parse_attrs(attrs: Vec<BindgenAttr>) -> (r: Result<BindgenAttrs, String>)
    ensures
        match r {
            Ok(v) => attrs_outcome(attrs@) == Ok::<AttrsView, Seq<char>>(v@),
            Err(e) => attrs_outcome(attrs@) == Err::<AttrsView, Seq<char>>(e@),
        },
{
    let ghost all = attrs@;
    let n = attrs.len();
    let mut rest = attrs;
    let mut result = BindgenAttrs::default();
    let mut seen: Vec<AttrKind> = Vec::new();
    let mut k: usize = 0;
    while rest.len() > 0
        invariant
            k <= all.len() == n,
            all == attrs@,
            rest@ == all.subrange(k as int, all.len() as int),
            result@ == record_all(all.take(k as int)),
            seen@.len() == k,
            forall|j: int| 0 <= j < k ==> seen@[j] == attr_kind(#[trigger] all[j]),
            forall|i: int| 0 <= i < k ==> !rejected_at(all, i),
        decreases rest@.len(),
    {
        let a = rest.remove(0);
        assert(a == all[k as int]);
        let kind = a.kind();
        let duplicate = !kind.is_repeatable() && contains_kind(&seen, kind);
        let conflict = (kind == AttrKind::InlineJs && contains_kind(&seen, AttrKind::Module))
            || (kind == AttrKind::Module && contains_kind(&seen, AttrKind::InlineJs));
        proof {
            if duplicates_earlier(all, k as int) {
                let j = choose|j: int|
                    0 <= j < k && attr_kind(#[trigger] all[j]) == attr_kind(all[k as int]);
                assert(seen@[j] == kind);
            }
            if conflicts_earlier(all, k as int) {
                let j = choose|j: int|
                    0 <= j < k && ((all[k as int] is InlineJs && #[trigger] all[j] is Module) || (
                    all[k as int] is Module && all[j] is InlineJs));
                assert(seen@[j] == attr_kind(all[j]));
            }
            if duplicate {
                let j = choose|j: int| 0 <= j < seen@.len() && seen@[j] == kind;
                assert(attr_kind(all[j]) == kind);
            }
            if conflict {
                if kind == AttrKind::InlineJs {
                    let j = choose|j: int| 0 <= j < seen@.len() && seen@[j] == AttrKind::Module;
                    assert(attr_kind(all[j]) == AttrKind::Module);
                } else {
                    let j = choose|j: int| 0 <= j < seen@.len() && seen@[j] == AttrKind::InlineJs;
                    assert(attr_kind(all[j]) == AttrKind::InlineJs);
                }
            }
        }
        if duplicate || conflict {
            let mut msg = String::new();
            if duplicate {
                msg.append("duplicate `");
                msg.append(kind.name());
                msg.append("` attribute");
            } else if kind == AttrKind::InlineJs {
                msg.append("cannot specify both `inline_js` and `module`");
            } else {
                msg.append("cannot specify both `module` and `inline_js`");
            }
            proof {
                assert(rejected_at(all, k as int));
                assert(msg@ == rejection_message(all, k as int));
                let i = choose|i: int|
                    0 <= i < all.len() && rejected_at(all, i) && forall|j: int|
                        0 <= j < i ==> !rejected_at(all, j);
                assert(i == k);
            }
            return Err(msg);
        }
        result.record(a);
        seen.push(kind);
        proof {
            assert(all.take(k as int + 1).drop_last() =~= all.take(k as int));
        }
        k = k + 1;
    }
    proof {
        assert(all.take(k as int) =~= all);
    }
    Ok(result)
}

impl BindgenAttrs {
    /// Check if this is a method (has `method` or `structural` attribute)
    pub fn is_method(&self) -> (r: bool)
        ensures
            r == (self.method || self.structural),
    {
        self.method || self.structural
    }

    /// Check if this is a getter
    pub fn is_getter(&self) -> (r: bool)
        ensures
            r == self.getter is Some,
    {
        self.getter.is_some()
    }

    /// Check if this is a setter
    pub fn is_setter(&self) -> (r: bool)
        ensures
            r == self.setter is Some,
    {
        self.setter.is_some()
    }

    /// Check if this is a constructor
    pub fn is_constructor(&self) -> (r: bool)
        ensures
            r == self.constructor,
    {
        self.constructor
    }

    /// Get the effective JS name (js_name override or None)
    pub fn js_name(&self) -> (r: Option<&str>)
        ensures
            match r {
                Some(s) => self.js_name is Some && s@ == self.js_name->0@,
                None => self.js_name is None,
            },
    {
        match &self.js_name {
            Some(s) => Some(s.as_str()),
            None => None,
        }
    }

    /// Get the JS class name
    pub fn js_class(&self) -> (r: Option<&str>)
        ensures
            match r {
                Some(s) => self.js_class is Some && s@ == self.js_class->0@,
                None => self.js_class is None,
            },
    {
        match &self.js_class {
            Some(s) => Some(s.as_str()),
            None => None,
        }
    }

    /// Check if structural typing is enabled
    pub fn is_structural(&self) -> (r: bool)
        ensures
            r == self.structural,
    {
        self.structural
    }

    /// Check if this is a thread-local static
    pub fn is_thread_local_v2(&self) -> (r: bool)
        ensures
            r == self.thread_local_v2,
    {
        self.thread_local_v2
    }

    /// Check if this is an indexing getter
    pub fn is_indexing_getter(&self) -> (r: bool)
        ensures
            r == self.indexing_getter,
    {
        self.indexing_getter
    }

    /// Check if this is an indexing setter
    pub fn is_indexing_setter(&self) -> (r: bool)
        ensures
            r == self.indexing_setter,
    {
        self.indexing_setter
    }

    /// Check if this is an indexing deleter
    pub fn is_indexing_deleter(&self) -> (r: bool)
        ensures
            r == self.indexing_deleter,
    {
        self.indexing_deleter
    }

    /// The crate path (its text), defaulting to `wasm_bindgen`
    pub fn crate_path_tokens(&self) -> (r: String)
        ensures
            r@ == match self.crate_path {
                Some(p) => p@,
                None => "wasm_bindgen"@,
            },
    {
        match &self.crate_path {
            Some(p) => p.clone(),
            None => {
                let mut s = String::new();
                s.append("wasm_bindgen");
                s
            },
        }
    }

    /// Merge the attributes of a later `#[wasm_bindgen(...)]` into these: what the
    /// later one gives replaces what was given, its lists are appended. A field's
    /// `skip`, `readonly` and `getter_with_clone` hold if either gives them; the
    /// attributes that only an item's own first attribute sets (`final`, `crate`,
    /// `inspectable`, `module`, `inline_js`) are not merged.
    pub fn merge(&mut self, parsed: BindgenAttrs)
        ensures
            final(self)@ == merged(old(self)@, parsed@),
    {
        let mut earlier = BindgenAttrs::default();
        core::mem::swap(self, &mut earlier);
        let BindgenAttrs {
            method,
            structural,
            js_name,
            js_class,
            js_namespace,
            getter,
            setter,
            constructor,
            catch,
            mut extends,
            static_method_of,
            variadic,
            typescript_type,
            inline_js,
            thread_local_v2,
            is_type_of,
            indexing_getter,
            indexing_setter,
            indexing_deleter,
            final_,
            readonly,
            crate_path,
            mut vendor_prefixes,
            inspectable,
            skip,
            getter_with_clone,
            module,
        } = earlier;
        let mut later_extends = parsed.extends;
        let mut later_prefixes = parsed.vendor_prefixes;
        extends.append(&mut later_extends);
        vendor_prefixes.append(&mut later_prefixes);
        *self = BindgenAttrs {
            method: method || parsed.method,
            structural: structural || parsed.structural,
            js_name: or_earlier(parsed.js_name, js_name),
            js_class: or_earlier(parsed.js_class, js_class),
            js_namespace: or_earlier(parsed.js_namespace, js_namespace),
            getter: or_earlier(parsed.getter, getter),
            setter: or_earlier(parsed.setter, setter),
            constructor: constructor || parsed.constructor,
            catch: catch || parsed.catch,
            extends,
            static_method_of: or_earlier(parsed.static_method_of, static_method_of),
            variadic: variadic || parsed.variadic,
            typescript_type: or_earlier(parsed.typescript_type, typescript_type),
            inline_js,
            thread_local_v2: thread_local_v2 || parsed.thread_local_v2,
            is_type_of: or_earlier(parsed.is_type_of, is_type_of),
            indexing_getter: indexing_getter || parsed.indexing_getter,
            indexing_setter: indexing_setter || parsed.indexing_setter,
            indexing_deleter: indexing_deleter || parsed.indexing_deleter,
            final_,
            readonly: readonly || parsed.readonly,
            crate_path,
            vendor_prefixes,
            inspectable,
            skip: skip || parsed.skip,
            getter_with_clone: getter_with_clone || parsed.getter_with_clone,
            module,
        };
    }
}

/// The later value when there is one, else the earlier.
fn or_earlier<T>(later: Option<T>, earlier: Option<T>) -> (r: Option<T>)
    ensures
        r == (if later is Some { later } else { earlier }),
{
    match later {
        Some(v) => Some(v),
        None => earlier,
    }
}

/// `later` merged into `earlier`.
pub open spec fn merged(earlier: AttrsView, later: AttrsView) -> AttrsView {
    AttrsView {
        method: earlier.method || later.method,
        structural: earlier.structural || later.structural,
        js_name: if later.js_name is Some { later.js_name } else { earlier.js_name },
        js_class: if later.js_class is Some { later.js_class } else { earlier.js_class },
        js_namespace: if later.js_namespace is Some {
            later.js_namespace
        } else {
            earlier.js_namespace
        },
        getter: if later.getter is Some { later.getter } else { earlier.getter },
        setter: if later.setter is Some { later.setter } else { earlier.setter },
        constructor: earlier.constructor || later.constructor,
        catch: earlier.catch || later.catch,
        extends: earlier.extends + later.extends,
        static_method_of: if later.static_method_of is Some {
            later.static_method_of
        } else {
            earlier.static_method_of
        },
        variadic: earlier.variadic || later.variadic,
        typescript_type: if later.typescript_type is Some {
            later.typescript_type
        } else {
            earlier.typescript_type
        },
        thread_local_v2: earlier.thread_local_v2 || later.thread_local_v2,
        is_type_of: if later.is_type_of is Some { later.is_type_of } else { earlier.is_type_of },
        indexing_getter: earlier.indexing_getter || later.indexing_getter,
        indexing_setter: earlier.indexing_setter || later.indexing_setter,
        indexing_deleter: earlier.indexing_deleter || later.indexing_deleter,
        vendor_prefixes: earlier.vendor_prefixes + later.vendor_prefixes,
        readonly: earlier.readonly || later.readonly,
        skip: earlier.skip || later.skip,
        getter_with_clone: earlier.getter_with_clone || later.getter_with_clone,
        ..earlier
    }
}

/// An attribute on an item, as the bindings macro sees it.
pub enum ItemAttr {
    /// An attribute that is not `wasm_bindgen` (kept on the generated item).
    Other,
    /// `#[wasm_bindgen]`, without arguments.
    Bare,
    /// `#[wasm_bindgen(...)]`: its arguments as read by the syntax parser, or the
    /// parser's error message.
    List(Result<Vec<BindgenAttr>, String>),
    /// `#[wasm_bindgen = ...]`, which is refused.
    NameValue,
}

/// What the `wasm_bindgen` attributes of an item combine to: the first error, or
/// the merge of each of them, in order.
pub open spec fn item_attrs_outcome(s: Seq<ItemAttr>) -> Result<AttrsView, Seq<char>>
    decreases s.len(),
{
    if s.len() == 0 {
        Ok(AttrsView::empty())
    } else {
        match item_attrs_outcome(s.drop_last()) {
            Err(e) => Err(e),
            Ok(c) => match s.last() {
                ItemAttr::Other => Ok(c),
                ItemAttr::Bare => Ok(merged(c, AttrsView::empty())),
                ItemAttr::List(Err(e)) => Err(e@),
                ItemAttr::List(Ok(v)) => match attrs_outcome(v@) {
                    Err(e) => Err(e),
                    Ok(p) => Ok(merged(c, p)),
                },
                ItemAttr::NameValue => Err(
                    "wasm_bindgen does not support = syntax at top level"@,
                ),
            },
        }
    }
}

/// Extract and combine the `wasm_bindgen` attributes of an item.
pub fn extract_wasm_bindgen_attrs(attrs: Vec<ItemAttr>) -> (r: Result<BindgenAttrs, String>)
    ensures
        match r {
            Ok(v) => item_attrs_outcome(attrs@) == Ok::<AttrsView, Seq<char>>(v@),
            Err(e) => item_attrs_outcome(attrs@) == Err::<AttrsView, Seq<char>>(e@),
        },
{
    let ghost all = attrs@;
    let n = attrs.len();
    let mut rest = attrs;
    let mut combined = BindgenAttrs::default();
    let mut k: usize = 0;
    while rest.len() > 0
        invariant
            k <= all.len() == n,
            all == attrs@,
            rest@ == all.subrange(k as int, all.len() as int),
            item_attrs_outcome(all.take(k as int)) == Ok::<AttrsView, Seq<char>>(combined@),
        decreases rest@.len(),
    {
        let ghost before = combined@;
        let attr = rest.remove(0);
        assert(attr == all[k as int]);
        assert(all.take(k as int + 1).drop_last() =~= all.take(k as int));
        match attr {
            ItemAttr::Other => {},
            ItemAttr::Bare => {
                combined.merge(BindgenAttrs::default());
            },
            ItemAttr::List(Err(e)) => {
                proof {
                    lemma_error_stays(all, k as int + 1);
                }
                return Err(e);
            },
            ItemAttr::List(Ok(list)) => {
                match parse_attrs(list) {
                    Ok(parsed) => combined.merge(parsed),
                    Err(e) => {
                        proof {
                            lemma_error_stays(all, k as int + 1);
                        }
                        return Err(e);
                    },
                }
            },
            ItemAttr::NameValue => {
                let mut msg = String::new();
                msg.append("wasm_bindgen does not support = syntax at top level");
                proof {
                    lemma_error_stays(all, k as int + 1);
                }
                return Err(msg);
            },
        }
        k = k + 1;
    }
    proof {
        assert(all.take(k as int) =~= all);
    }
    Ok(combined)
}

/// Once a prefix of the attributes fails, the whole list fails the same way.
proof fn lemma_error_stays(s: Seq<ItemAttr>, n: int)
    requires
        0 <= n <= s.len(),
        item_attrs_outcome(s.take(n)) is Err,
    ensures
        item_attrs_outcome(s) == item_attrs_outcome(s.take(n)),
    decreases s.len() - n,
{
    if n < s.len() {
        assert(s.take(n + 1).drop_last() =~= s.take(n));
        lemma_error_stays(s, n + 1);
    } else {
        assert(s.take(n) =~= s);
    }
}

/// Every attribute kind, in the order of the enum.
fn all_kinds() -> (r: Vec<AttrKind>)
    ensures
        forall|k: AttrKind| r@.contains(k),
{
    let v = vec![
        AttrKind::Method,
        AttrKind::StructuralTyping,
        AttrKind::JsName,
        AttrKind::JsClass,
        AttrKind::JsNamespace,
        AttrKind::Getter,
        AttrKind::Setter,
        AttrKind::Constructor,
        AttrKind::Catch,
        AttrKind::Extends,
        AttrKind::StaticMethodOf,
        AttrKind::Variadic,
        AttrKind::TypescriptType,
        AttrKind::InlineJs,
        AttrKind::ThreadLocalV2,
        AttrKind::IsTypeOf,
        AttrKind::IndexingGetter,
        AttrKind::IndexingSetter,
        AttrKind::IndexingDeleter,
        AttrKind::Final,
        AttrKind::Readonly,
        AttrKind::Crate,
        AttrKind::VendorPrefix,
        AttrKind::Inspectable,
        AttrKind::Skip,
        AttrKind::GetterWithClone,
        AttrKind::Module,
    ];
    assert forall|k: AttrKind| v@.contains(k) by {
        match k {
            AttrKind::Method => assert(v@[0] == k),
            AttrKind::StructuralTyping => assert(v@[1] == k),
            AttrKind::JsName => assert(v@[2] == k),
            AttrKind::JsClass => assert(v@[3] == k),
            AttrKind::JsNamespace => assert(v@[4] == k),
            AttrKind::Getter => assert(v@[5] == k),
            AttrKind::Setter => assert(v@[6] == k),
            AttrKind::Constructor => assert(v@[7] == k),
            AttrKind::Catch => assert(v@[8] == k),
            AttrKind::Extends => assert(v@[9] == k),
            AttrKind::StaticMethodOf => assert(v@[10] == k),
            AttrKind::Variadic => assert(v@[11] == k),
            AttrKind::TypescriptType => assert(v@[12] == k),
            AttrKind::InlineJs => assert(v@[13] == k),
            AttrKind::ThreadLocalV2 => assert(v@[14] == k),
            AttrKind::IsTypeOf => assert(v@[15] == k),
            AttrKind::IndexingGetter => assert(v@[16] == k),
            AttrKind::IndexingSetter => assert(v@[17] == k),
            AttrKind::IndexingDeleter => assert(v@[18] == k),
            AttrKind::Final => assert(v@[19] == k),
            AttrKind::Readonly => assert(v@[20] == k),
            AttrKind::Crate => assert(v@[21] == k),
            AttrKind::VendorPrefix => assert(v@[22] == k),
            AttrKind::Inspectable => assert(v@[23] == k),
            AttrKind::Skip => assert(v@[24] == k),
            AttrKind::GetterWithClone => assert(v@[25] == k),
            AttrKind::Module => assert(v@[26] == k),
        }
    }
    v
}

/// The attribute written under a name, if there is one (keywords such as `crate` and
/// `final` included).
pub fn attr_kind_of_name(name: &str) -> (r: Option<AttrKind>)
    ensures
        match r {
            Some(k) => kind_name(k) == name@,
            None => forall|k: AttrKind| kind_name(k) != name@,
        },
{
    let kinds = all_kinds();
    let mut i: usize = 0;
    while i < kinds.len()
        invariant
            i <= kinds@.len(),
            forall|k: AttrKind| kinds@.contains(k),
            forall|j: int| 0 <= j < i ==> kind_name(#[trigger] kinds@[j]) != name@,
        decreases kinds@.len() - i,
    {
        let k = kinds[i];
        if crate::text::str_eq(k.name(), name) {
            return Some(k);
        }
        i = i + 1;
    }
    assert forall|k: AttrKind| kind_name(k) != name@ by {
        assert(kinds@.contains(k));
        let j = choose|j: int| 0 <= j < kinds@.len() && kinds@[j] == k;
        assert(kind_name(kinds@[j]) != name@);
    }
    None
}

/// The error for a name that is no attribute.
pub fn unknown_attr_message(name: &str) -> (r: String)
    ensures
        r@ == "unknown wasm_bindgen attribute: `"@ + name@ + "`"@,
{
    let mut s = String::new();
    s.append("unknown wasm_bindgen attribute: `");
    s.append(name);
    s.append("`");
    s
}

/// A field's `skip`, `readonly` and `getter_with_clone` take effect from any of its
/// `#[wasm_bindgen(...)]` attributes: when the attributes combine without error, the
/// combination has each flag that one of them gives.
pub proof fn lemma_field_flags_kept(s: Seq<ItemAttr>, i: int, v: Vec<BindgenAttr>)
    requires
        item_attrs_outcome(s) is Ok,
        0 <= i < s.len(),
        s[i] == ItemAttr::List(Ok(v)),
        attrs_outcome(v@) is Ok,
    ensures
        attrs_outcome(v@)->Ok_0.skip ==> item_attrs_outcome(s)->Ok_0.skip,
        attrs_outcome(v@)->Ok_0.readonly ==> item_attrs_outcome(s)->Ok_0.readonly,
        attrs_outcome(v@)->Ok_0.getter_with_clone ==> item_attrs_outcome(s)->Ok_0.getter_with_clone,
    decreases s.len(),
{
    let prev = s.drop_last();
    assert(item_attrs_outcome(prev) is Ok);
    if i < s.len() - 1 {
        assert(prev[i] == s[i]);
        lemma_field_flags_kept(prev, i, v);
    }
}

/// Whether a record shows an attribute in the field that attribute sets: a flag is on,
/// a value is there, a repeated attribute is among its list.
pub open spec fn shows_attr(a: AttrsView, x: BindgenAttr) -> bool {
    match x {
        BindgenAttr::Method => a.method,
        BindgenAttr::StructuralTyping => a.structural,
        BindgenAttr::JsName(n) => a.js_name == Some(n),
        BindgenAttr::JsClass(n) => a.js_class == Some(n),
        BindgenAttr::JsNamespace(ns) => a.js_namespace == Some(ns),
        BindgenAttr::Getter(n) => a.getter == Some(n),
        BindgenAttr::Setter(n) => a.setter == Some(n),
        BindgenAttr::Constructor => a.constructor,
        BindgenAttr::Catch => a.catch,
        BindgenAttr::Extends(p) => a.extends.contains(p),
        BindgenAttr::StaticMethodOf(c) => a.static_method_of == Some(c),
        BindgenAttr::Variadic => a.variadic,
        BindgenAttr::TypescriptType(t) => a.typescript_type == Some(t),
        BindgenAttr::InlineJs(e) => a.inline_js == Some(e),
        BindgenAttr::ThreadLocalV2 => a.thread_local_v2,
        BindgenAttr::IsTypeOf(e) => a.is_type_of == Some(e),
        BindgenAttr::IndexingGetter => a.indexing_getter,
        BindgenAttr::IndexingSetter => a.indexing_setter,
        BindgenAttr::IndexingDeleter => a.indexing_deleter,
        BindgenAttr::Final => a.final_,
        BindgenAttr::Readonly => a.readonly,
        BindgenAttr::Crate(p) => a.crate_path == Some(p),
        BindgenAttr::VendorPrefix(p) => a.vendor_prefixes.contains(p),
        BindgenAttr::Inspectable => a.inspectable,
        BindgenAttr::Skip => a.skip,
        BindgenAttr::GetterWithClone => a.getter_with_clone,
        BindgenAttr::Module(m) => a.module == Some(m),
    }
}

/// Recording an attribute shows it.
proof fn lemma_recorded_shows(r: AttrsView, x: BindgenAttr)
    ensures
        shows_attr(r.with_attr(x), x),
{
    match x {
        BindgenAttr::Extends(p) => {
            assert(r.with_attr(x).extends.last() == p);
        },
        BindgenAttr::VendorPrefix(p) => {
            assert(r.with_attr(x).vendor_prefixes.last() == p);
        },
        _ => {},
    }
}

/// What recording an attribute changes: its own field, and nothing else.
#[verifier::spinoff_prover]
proof fn lemma_with_attr_fields(r: AttrsView, x: BindgenAttr)
    ensures
        r.with_attr(x).method == (r.method || x is Method),
        r.with_attr(x).structural == (r.structural || x is StructuralTyping),
        x !is JsName ==> r.with_attr(x).js_name == r.js_name,
        x !is JsClass ==> r.with_attr(x).js_class == r.js_class,
        x !is JsNamespace ==> r.with_attr(x).js_namespace == r.js_namespace,
        x !is Getter ==> r.with_attr(x).getter == r.getter,
        x !is Setter ==> r.with_attr(x).setter == r.setter,
        r.with_attr(x).constructor == (r.constructor || x is Constructor),
        r.with_attr(x).catch == (r.catch || x is Catch),
        x !is Extends ==> r.with_attr(x).extends == r.extends,
        x is Extends ==> r.with_attr(x).extends == r.extends.push(x->Extends_0),
        x !is StaticMethodOf ==> r.with_attr(x).static_method_of == r.static_method_of,
        r.with_attr(x).variadic == (r.variadic || x is Variadic),
        x !is TypescriptType ==> r.with_attr(x).typescript_type == r.typescript_type,
        x !is InlineJs ==> r.with_attr(x).inline_js == r.inline_js,
        r.with_attr(x).thread_local_v2 == (r.thread_local_v2 || x is ThreadLocalV2),
        x !is IsTypeOf ==> r.with_attr(x).is_type_of == r.is_type_of,
        r.with_attr(x).indexing_getter == (r.indexing_getter || x is IndexingGetter),
        r.with_attr(x).indexing_setter == (r.indexing_setter || x is IndexingSetter),
        r.with_attr(x).indexing_deleter == (r.indexing_deleter || x is IndexingDeleter),
        r.with_attr(x).final_ == (r.final_ || x is Final),
        r.with_attr(x).readonly == (r.readonly || x is Readonly),
        x !is Crate ==> r.with_attr(x).crate_path == r.crate_path,
        x !is VendorPrefix ==> r.with_attr(x).vendor_prefixes == r.vendor_prefixes,
        x is VendorPrefix ==> r.with_attr(x).vendor_prefixes == r.vendor_prefixes.push(x->VendorPrefix_0),
        r.with_attr(x).inspectable == (r.inspectable || x is Inspectable),
        r.with_attr(x).skip == (r.skip || x is Skip),
        r.with_attr(x).getter_with_clone == (r.getter_with_clone || x is GetterWithClone),
        x !is Module ==> r.with_attr(x).module == r.module,
{
}

/// Recording an attribute of another kind, or another of a kind that may repeat,
/// keeps what a record shows.
#[verifier::spinoff_prover]
proof fn lemma_record_keeps_shown(r: AttrsView, x: BindgenAttr, y: BindgenAttr)
    requires
        shows_attr(r, y),
        attr_kind(x) != attr_kind(y) || repeatable(attr_kind(y)),
    ensures
        shows_attr(r.with_attr(x), y),
{
    lemma_with_attr_fields(r, x);
    match y {
        BindgenAttr::Method => assert(r.with_attr(x).method == (r.method || x is Method)),
        BindgenAttr::StructuralTyping => assert(r.with_attr(x).structural == (r.structural || x is StructuralTyping)),
        BindgenAttr::JsName(_) => assert(x !is JsName ==> r.with_attr(x).js_name == r.js_name),
        BindgenAttr::JsClass(_) => assert(x !is JsClass ==> r.with_attr(x).js_class == r.js_class),
        BindgenAttr::JsNamespace(_) => assert(x !is JsNamespace ==> r.with_attr(x).js_namespace == r.js_namespace),
        BindgenAttr::Getter(_) => assert(x !is Getter ==> r.with_attr(x).getter == r.getter),
        BindgenAttr::Setter(_) => assert(x !is Setter ==> r.with_attr(x).setter == r.setter),
        BindgenAttr::Constructor => assert(r.with_attr(x).constructor == (r.constructor || x is Constructor)),
        BindgenAttr::Catch => assert(r.with_attr(x).catch == (r.catch || x is Catch)),
        BindgenAttr::Extends(p) => {
            let i = choose|i: int| 0 <= i < r.extends.len() && r.extends[i] == p;
            assert(r.with_attr(x).extends[i] == p);
        },
        BindgenAttr::StaticMethodOf(_) => assert(x !is StaticMethodOf ==> r.with_attr(x).static_method_of == r.static_method_of),
        BindgenAttr::Variadic => assert(r.with_attr(x).variadic == (r.variadic || x is Variadic)),
        BindgenAttr::TypescriptType(_) => assert(x !is TypescriptType ==> r.with_attr(x).typescript_type == r.typescript_type),
        BindgenAttr::InlineJs(_) => assert(x !is InlineJs ==> r.with_attr(x).inline_js == r.inline_js),
        BindgenAttr::ThreadLocalV2 => assert(r.with_attr(x).thread_local_v2 == (r.thread_local_v2 || x is ThreadLocalV2)),
        BindgenAttr::IsTypeOf(_) => assert(x !is IsTypeOf ==> r.with_attr(x).is_type_of == r.is_type_of),
        BindgenAttr::IndexingGetter => assert(r.with_attr(x).indexing_getter == (r.indexing_getter || x is IndexingGetter)),
        BindgenAttr::IndexingSetter => assert(r.with_attr(x).indexing_setter == (r.indexing_setter || x is IndexingSetter)),
        BindgenAttr::IndexingDeleter => assert(r.with_attr(x).indexing_deleter == (r.indexing_deleter || x is IndexingDeleter)),
        BindgenAttr::Final => assert(r.with_attr(x).final_ == (r.final_ || x is Final)),
        BindgenAttr::Readonly => assert(r.with_attr(x).readonly == (r.readonly || x is Readonly)),
        BindgenAttr::Crate(_) => assert(x !is Crate ==> r.with_attr(x).crate_path == r.crate_path),
        BindgenAttr::VendorPrefix(p) => {
            let i = choose|i: int| 0 <= i < r.vendor_prefixes.len() && r.vendor_prefixes[i] == p;
            assert(r.with_attr(x).vendor_prefixes[i] == p);
        },
        BindgenAttr::Inspectable => assert(r.with_attr(x).inspectable == (r.inspectable || x is Inspectable)),
        BindgenAttr::Skip => assert(r.with_attr(x).skip == (r.skip || x is Skip)),
        BindgenAttr::GetterWithClone => assert(r.with_attr(x).getter_with_clone == (r.getter_with_clone || x is GetterWithClone)),
        BindgenAttr::Module(_) => assert(x !is Module ==> r.with_attr(x).module == r.module),
    }
}

/// A prefix of an accepted list is accepted.
proof fn lemma_prefix_accepted(s: Seq<BindgenAttr>)
    requires
        s.len() > 0,
        forall|i: int| 0 <= i < s.len() ==> !rejected_at(s, i),
    ensures
        forall|i: int| 0 <= i < s.len() - 1 ==> !rejected_at(s.drop_last(), i),
{
    let p = s.drop_last();
    assert forall|i: int| 0 <= i < s.len() - 1 implies !rejected_at(p, i) by {
        assert(!rejected_at(s, i));
        if duplicates_earlier(p, i) {
            let j = choose|j: int| 0 <= j < i && attr_kind(#[trigger] p[j]) == attr_kind(p[i]);
            assert(s[j] == p[j]);
            assert(duplicates_earlier(s, i));
        }
        if conflicts_earlier(p, i) {
            let j = choose|j: int|
                0 <= j < i && ((p[i] is InlineJs && #[trigger] p[j] is Module) || (p[i] is Module
                    && p[j] is InlineJs));
            assert(s[j] == p[j]);
            assert(conflicts_earlier(s, i));
        }
    }
}

/// Every attribute of an accepted list shows in the record it parses to: a flag
/// attribute turns its flag on, a valued one (`js_name`, `static_method_of`, `getter`,
/// ...) puts its value in its field, a repeated one is in its list.
pub proof fn lemma_accepted_attrs_shown(s: Seq<BindgenAttr>, i: int)
    requires
        attrs_outcome(s) is Ok,
        0 <= i < s.len(),
    ensures
        shows_attr(attrs_outcome(s)->Ok_0, s[i]),
    decreases s.len(),
{
    assert(forall|j: int| 0 <= j < s.len() ==> !rejected_at(s, j));
    lemma_shown_in_record(s, i);
}

proof fn lemma_shown_in_record(s: Seq<BindgenAttr>, i: int)
    requires
        forall|j: int| 0 <= j < s.len() ==> !rejected_at(s, j),
        0 <= i < s.len(),
    ensures
        shows_attr(record_all(s), s[i]),
    decreases s.len(),
{
    let p = s.drop_last();
    let last = s.last();
    if i == s.len() - 1 {
        lemma_recorded_shows(record_all(p), last);
    } else {
        lemma_prefix_accepted(s);
        assert(p[i] == s[i]);
        lemma_shown_in_record(p, i);
        if attr_kind(last) == attr_kind(s[i]) && !repeatable(attr_kind(s[i])) {
            assert(attr_kind(s[i]) == attr_kind(s[s.len() - 1]));
            assert(duplicates_earlier(s, s.len() - 1));
            assert(!rejected_at(s, s.len() - 1));
        }
        lemma_record_keeps_shown(record_all(p), last, s[i]);
    }
}

/// Whether a record has the field of an attribute kind set: its flag on, a value in
/// it, or something in its list.
pub open spec fn field_set(a: AttrsView, k: AttrKind) -> bool {
    match k {
        AttrKind::Method => a.method,
        AttrKind::StructuralTyping => a.structural,
        AttrKind::JsName => a.js_name is Some,
        AttrKind::JsClass => a.js_class is Some,
        AttrKind::JsNamespace => a.js_namespace is Some,
        AttrKind::Getter => a.getter is Some,
        AttrKind::Setter => a.setter is Some,
        AttrKind::Constructor => a.constructor,
        AttrKind::Catch => a.catch,
        AttrKind::Extends => a.extends.len() > 0,
        AttrKind::StaticMethodOf => a.static_method_of is Some,
        AttrKind::Variadic => a.variadic,
        AttrKind::TypescriptType => a.typescript_type is Some,
        AttrKind::InlineJs => a.inline_js is Some,
        AttrKind::ThreadLocalV2 => a.thread_local_v2,
        AttrKind::IsTypeOf => a.is_type_of is Some,
        AttrKind::IndexingGetter => a.indexing_getter,
        AttrKind::IndexingSetter => a.indexing_setter,
        AttrKind::IndexingDeleter => a.indexing_deleter,
        AttrKind::Final => a.final_,
        AttrKind::Readonly => a.readonly,
        AttrKind::Crate => a.crate_path is Some,
        AttrKind::VendorPrefix => a.vendor_prefixes.len() > 0,
        AttrKind::Inspectable => a.inspectable,
        AttrKind::Skip => a.skip,
        AttrKind::GetterWithClone => a.getter_with_clone,
        AttrKind::Module => a.module is Some,
    }
}

/// Recording an attribute sets no field but its own.
#[verifier::spinoff_prover]
proof fn lemma_field_set_step(r: AttrsView, x: BindgenAttr, k: AttrKind)
    ensures
        field_set(r.with_attr(x), k) ==> field_set(r, k) || attr_kind(x) == k,
{
    lemma_with_attr_fields(r, x);
    match k {
        AttrKind::Method => if x is Method {
            assert(attr_kind(x) == AttrKind::Method);
        },
        AttrKind::StructuralTyping => if x is StructuralTyping {
            assert(attr_kind(x) == AttrKind::StructuralTyping);
        },
        AttrKind::JsName => if x is JsName {
            assert(attr_kind(x) == AttrKind::JsName);
        },
        AttrKind::JsClass => if x is JsClass {
            assert(attr_kind(x) == AttrKind::JsClass);
        },
        AttrKind::JsNamespace => if x is JsNamespace {
            assert(attr_kind(x) == AttrKind::JsNamespace);
        },
        AttrKind::Getter => if x is Getter {
            assert(attr_kind(x) == AttrKind::Getter);
        },
        AttrKind::Setter => if x is Setter {
            assert(attr_kind(x) == AttrKind::Setter);
        },
        AttrKind::Constructor => if x is Constructor {
            assert(attr_kind(x) == AttrKind::Constructor);
        },
        AttrKind::Catch => if x is Catch {
            assert(attr_kind(x) == AttrKind::Catch);
        },
        AttrKind::Extends => if x is Extends {
            assert(attr_kind(x) == AttrKind::Extends);
        },
        AttrKind::StaticMethodOf => if x is StaticMethodOf {
            assert(attr_kind(x) == AttrKind::StaticMethodOf);
        },
        AttrKind::Variadic => if x is Variadic {
            assert(attr_kind(x) == AttrKind::Variadic);
        },
        AttrKind::TypescriptType => if x is TypescriptType {
            assert(attr_kind(x) == AttrKind::TypescriptType);
        },
        AttrKind::InlineJs => if x is InlineJs {
            assert(attr_kind(x) == AttrKind::InlineJs);
        },
        AttrKind::ThreadLocalV2 => if x is ThreadLocalV2 {
            assert(attr_kind(x) == AttrKind::ThreadLocalV2);
        },
        AttrKind::IsTypeOf => if x is IsTypeOf {
            assert(attr_kind(x) == AttrKind::IsTypeOf);
        },
        AttrKind::IndexingGetter => if x is IndexingGetter {
            assert(attr_kind(x) == AttrKind::IndexingGetter);
        },
        AttrKind::IndexingSetter => if x is IndexingSetter {
            assert(attr_kind(x) == AttrKind::IndexingSetter);
        },
        AttrKind::IndexingDeleter => if x is IndexingDeleter {
            assert(attr_kind(x) == AttrKind::IndexingDeleter);
        },
        AttrKind::Final => if x is Final {
            assert(attr_kind(x) == AttrKind::Final);
        },
        AttrKind::Readonly => if x is Readonly {
            assert(attr_kind(x) == AttrKind::Readonly);
        },
        AttrKind::Crate => if x is Crate {
            assert(attr_kind(x) == AttrKind::Crate);
        },
        AttrKind::VendorPrefix => if x is VendorPrefix {
            assert(attr_kind(x) == AttrKind::VendorPrefix);
        },
        AttrKind::Inspectable => if x is Inspectable {
            assert(attr_kind(x) == AttrKind::Inspectable);
        },
        AttrKind::Skip => if x is Skip {
            assert(attr_kind(x) == AttrKind::Skip);
        },
        AttrKind::GetterWithClone => if x is GetterWithClone {
            assert(attr_kind(x) == AttrKind::GetterWithClone);
        },
        AttrKind::Module => if x is Module {
            assert(attr_kind(x) == AttrKind::Module);
        },
    }
}

/// Whether a list gives an attribute of the kind.
pub open spec fn kind_given(s: Seq<BindgenAttr>, k: AttrKind) -> bool {
    exists|i: int| 0 <= i < s.len() && attr_kind(#[trigger] s[i]) == k
}

/// Nothing is set without being given: a field of the record of a list is set only if
/// the list gives an attribute of that kind; the empty list sets nothing.
pub proof fn lemma_record_sets_only_given(s: Seq<BindgenAttr>, k: AttrKind)
    ensures
        field_set(record_all(s), k) ==> kind_given(s, k),
    decreases s.len(),
{
    if s.len() > 0 {
        let p = s.drop_last();
        lemma_record_sets_only_given(p, k);
        lemma_field_set_step(record_all(p), s.last(), k);
        if field_set(record_all(s), k) {
            if attr_kind(s.last()) == k {
                assert(attr_kind(s[s.len() - 1]) == k);
            } else {
                assert(field_set(record_all(p), k));
                let i = choose|i: int| 0 <= i < p.len() && attr_kind(#[trigger] p[i]) == k;
                assert(s[i] == p[i]);
            }
        }
    }
}

/// A later `#[wasm_bindgen(...)]` on an item overrides what the earlier ones gave for
/// each valued attribute it gives, and keeps what they gave for the others; flags hold
/// if either gives them; repeated attributes are appended after the earlier ones.
pub proof fn lemma_later_attrs_override(s: Seq<ItemAttr>, v: Vec<BindgenAttr>)
    requires
        item_attrs_outcome(s) is Ok,
        s.len() > 0,
        s.last() == ItemAttr::List(Ok(v)),
    ensures
        item_attrs_outcome(s.drop_last()) matches Ok(c) ==> (attrs_outcome(v@) matches Ok(p) ==> (p.js_name is Some ==> item_attrs_outcome(s)->Ok_0.js_name == p.js_name) && (p.js_name is None ==> item_attrs_outcome(s)->Ok_0.js_name == c.js_name)),
        item_attrs_outcome(s.drop_last()) matches Ok(c) ==> (attrs_outcome(v@) matches Ok(p) ==> (p.js_class is Some ==> item_attrs_outcome(s)->Ok_0.js_class == p.js_class) && (p.js_class is None ==> item_attrs_outcome(s)->Ok_0.js_class == c.js_class)),
        item_attrs_outcome(s.drop_last()) matches Ok(c) ==> (attrs_outcome(v@) matches Ok(p) ==> (p.js_namespace is Some ==> item_attrs_outcome(s)->Ok_0.js_namespace == p.js_namespace) && (p.js_namespace is None ==> item_attrs_outcome(s)->Ok_0.js_namespace == c.js_namespace)),
        item_attrs_outcome(s.drop_last()) matches Ok(c) ==> (attrs_outcome(v@) matches Ok(p) ==> (p.getter is Some ==> item_attrs_outcome(s)->Ok_0.getter == p.getter) && (p.getter is None ==> item_attrs_outcome(s)->Ok_0.getter == c.getter)),
        item_attrs_outcome(s.drop_last()) matches Ok(c) ==> (attrs_outcome(v@) matches Ok(p) ==> (p.setter is Some ==> item_attrs_outcome(s)->Ok_0.setter == p.setter) && (p.setter is None ==> item_attrs_outcome(s)->Ok_0.setter == c.setter)),
        item_attrs_outcome(s.drop_last()) matches Ok(c) ==> (attrs_outcome(v@) matches Ok(p) ==> (p.static_method_of is Some ==> item_attrs_outcome(s)->Ok_0.static_method_of == p.static_method_of) && (p.static_method_of is None ==> item_attrs_outcome(s)->Ok_0.static_method_of == c.static_method_of)),
        item_attrs_outcome(s.drop_last()) matches Ok(c) ==> (attrs_outcome(v@) matches Ok(p) ==> (p.typescript_type is Some ==> item_attrs_outcome(s)->Ok_0.typescript_type == p.typescript_type) && (p.typescript_type is None ==> item_attrs_outcome(s)->Ok_0.typescript_type == c.typescript_type)),
        item_attrs_outcome(s.drop_last()) matches Ok(c) ==> (attrs_outcome(v@) matches Ok(p) ==> (p.is_type_of is Some ==> item_attrs_outcome(s)->Ok_0.is_type_of == p.is_type_of) && (p.is_type_of is None ==> item_attrs_outcome(s)->Ok_0.is_type_of == c.is_type_of)),
        item_attrs_outcome(s.drop_last()) matches Ok(c) ==> (attrs_outcome(v@) matches Ok(p) ==> item_attrs_outcome(s)->Ok_0.method == (c.method || p.method)),
        item_attrs_outcome(s.drop_last()) matches Ok(c) ==> (attrs_outcome(v@) matches Ok(p) ==> item_attrs_outcome(s)->Ok_0.structural == (c.structural || p.structural)),
        item_attrs_outcome(s.drop_last()) matches Ok(c) ==> (attrs_outcome(v@) matches Ok(p) ==> item_attrs_outcome(s)->Ok_0.constructor == (c.constructor || p.constructor)),
        item_attrs_outcome(s.drop_last()) matches Ok(c) ==> (attrs_outcome(v@) matches Ok(p) ==> item_attrs_outcome(s)->Ok_0.catch == (c.catch || p.catch)),
        item_attrs_outcome(s.drop_last()) matches Ok(c) ==> (attrs_outcome(v@) matches Ok(p) ==> item_attrs_outcome(s)->Ok_0.variadic == (c.variadic || p.variadic)),
        item_attrs_outcome(s.drop_last()) matches Ok(c) ==> (attrs_outcome(v@) matches Ok(p) ==> item_attrs_outcome(s)->Ok_0.thread_local_v2 == (c.thread_local_v2 || p.thread_local_v2)),
        item_attrs_outcome(s.drop_last()) matches Ok(c) ==> (attrs_outcome(v@) matches Ok(p) ==> item_attrs_outcome(s)->Ok_0.indexing_getter == (c.indexing_getter || p.indexing_getter)),
        item_attrs_outcome(s.drop_last()) matches Ok(c) ==> (attrs_outcome(v@) matches Ok(p) ==> item_attrs_outcome(s)->Ok_0.indexing_setter == (c.indexing_setter || p.indexing_setter)),
        item_attrs_outcome(s.drop_last()) matches Ok(c) ==> (attrs_outcome(v@) matches Ok(p) ==> item_attrs_outcome(s)->Ok_0.indexing_deleter == (c.indexing_deleter || p.indexing_deleter)),
        item_attrs_outcome(s.drop_last()) matches Ok(c) ==> (attrs_outcome(v@) matches Ok(p) ==> item_attrs_outcome(s)->Ok_0.readonly == (c.readonly || p.readonly)),
        item_attrs_outcome(s.drop_last()) matches Ok(c) ==> (attrs_outcome(v@) matches Ok(p) ==> item_attrs_outcome(s)->Ok_0.skip == (c.skip || p.skip)),
        item_attrs_outcome(s.drop_last()) matches Ok(c) ==> (attrs_outcome(v@) matches Ok(p) ==> item_attrs_outcome(s)->Ok_0.getter_with_clone == (c.getter_with_clone || p.getter_with_clone)),
        item_attrs_outcome(s.drop_last()) matches Ok(c) ==> (attrs_outcome(v@) matches Ok(p) ==> item_attrs_outcome(s)->Ok_0.extends == c.extends + p.extends),
        item_attrs_outcome(s.drop_last()) matches Ok(c) ==> (attrs_outcome(v@) matches Ok(p) ==> item_attrs_outcome(s)->Ok_0.vendor_prefixes == c.vendor_prefixes + p.vendor_prefixes),
{
}

} // verus!
