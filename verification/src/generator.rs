//! The naming and type-resolution rules of the generated Rust module.
use vstd::prelude::*;
use vstd::string::{StrSliceExecFns, StringExecFns};
use crate::config::{Config, ConfigModel};
use crate::descriptor::google_::protobuf_::FileDescriptorProto;
use crate::ident::{
    ident_text, path_elem, resolve_path_elem, sanitized, sanitized_ident, RustIdent,
};
use crate::text::{dotted, lemma_split_dotted, lemma_split_on_nonempty, lemma_split_on_whole, push_char, split_dots, split_on, str_eq, texts, to_string};


verus! {

/// The Protobuf syntax of a `.proto` file.
#[derive(Debug, Clone, Copy, PartialEq, Eq, Structural)]
pub enum Syntax {
    Proto2,
    Proto3,
}

impl Default for Syntax {
    fn default() -> (r: Self)
        ensures
            r == Syntax::Proto2,
    {
        Syntax::Proto2
    }
}

/// Generation parameters that hold for a whole descriptor set.
#[derive(Debug)]
pub struct Params {
    /// Protobuf type names, fully qualified, with the Rust type paths that stand for them.
    pub extern_paths: Vec<(String, String)>,
    pub calculate_max_size: bool,
    pub retain_enum_prefix: bool,
    pub suffixed_package_names: bool,
    pub single_oneof_msg_as_enum: bool,
}

/// What the generator knows of the file that it is working on.
#[derive(Debug)]
pub struct Context {
    pub params: Params,
    pub syntax: Syntax,
    /// The package of the file, split at its dots.
    pub pkg_path: Vec<String>,
    /// The package of the file.
    pub pkg: String,
    /// The messages, outermost first, inside which the current type is nested.
    pub type_path: Vec<String>,
}

/// A Rust type as the generated code names it.
#[derive(Debug)]
pub enum ResolvedType {
    /// A Rust path that the user gave for the Protobuf type.
    Extern(String),
    /// A path relative to the module being generated: each element is followed by `::`.
    Local { path: Vec<RustIdent>, ident: RustIdent },
}

/// An identifier as its name and whether it is raw.
pub open spec fn ident_model(i: RustIdent) -> (Seq<char>, bool) {
    (i.name@, i.raw)
}

/// The Rust path that the user gave for `name`, the last one when there are several.
pub open spec fn extern_path(paths: Seq<(String, String)>, name: Seq<char>) -> Option<Seq<char>>
    decreases paths.len(),
{
    if paths.len() == 0 {
        None
    } else if paths.last().0@ == name {
        Some(paths.last().1@)
    } else {
        extern_path(paths.drop_last(), name)
    }
}

/// The extern paths act as a map from names to paths: none is given before any entry,
/// an entry for `name` gives its path whatever came before it, and an entry for another
/// name leaves the path given for `name` as it was.
pub proof fn lemma_extern_path_map(paths: Seq<(String, String)>, entry: (String, String), name: Seq<char>)
    ensures
        extern_path(Seq::empty(), name) is None,
        entry.0@ == name ==> extern_path(paths.push(entry), name) == Some(entry.1@),
        entry.0@ != name ==> extern_path(paths.push(entry), name) == extern_path(paths, name),
{
    assert(paths.push(entry).drop_last() =~= paths);
}

/// How many leading elements `a` and `b` have in common.
pub open spec fn common_prefix_len(a: Seq<Seq<char>>, b: Seq<Seq<char>>) -> nat
    decreases a.len(),
{
    if a.len() == 0 || b.len() == 0 || a[0] != b[0] {
        0
    } else {
        1 + common_prefix_len(a.drop_first(), b.drop_first())
    }
}

/// The module path from the module `local` to the type whose fully qualified name is
/// `fq`, and the identifier of the type: one `super` for each element of `local` past
/// the part that it shares with the type's path, then the rest of the type's path.
pub open spec fn relative_type_path(local: Seq<Seq<char>>, fq: Seq<char>, suffixed: bool) -> (
    Seq<(Seq<char>, bool)>,
    (Seq<char>, bool),
) {
    let elems = split_on(fq.drop_first(), '.');
    let dirs = elems.drop_last();
    let k = common_prefix_len(local, dirs);
    let supers = Seq::new((local.len() - k) as nat, |i: int| ("super"@, false));
    let rest = dirs.skip(k as int).map_values(|e: Seq<char>| path_elem(e, suffixed));
    (supers + rest, sanitized(elems.last()))
}

proof fn lemma_common_prefix_self(a: Seq<Seq<char>>)
    ensures
        common_prefix_len(a, a) == a.len(),
    decreases a.len(),
{
    if a.len() > 0 {
        lemma_common_prefix_self(a.drop_first());
    }
}

proof fn lemma_common_prefix_bounds(a: Seq<Seq<char>>, b: Seq<Seq<char>>)
    ensures
        common_prefix_len(a, b) <= a.len(),
        common_prefix_len(a, b) <= b.len(),
        forall|i: int| 0 <= i < common_prefix_len(a, b) ==> a[i] == b[i],
    decreases a.len(),
{
    if !(a.len() == 0 || b.len() == 0 || a[0] != b[0]) {
        lemma_common_prefix_bounds(a.drop_first(), b.drop_first());
        assert forall|i: int| 0 <= i < common_prefix_len(a, b) implies a[i] == b[i] by {
            if i > 0 {
                assert(a.drop_first()[i - 1] == b.drop_first()[i - 1]);
            }
        }
    }
}

/// The path to a type, from any module: one `super` for each element of the current
/// module's path past the part that it shares with the type's path, then each remaining
/// element of the type's path named as a module (`path_elem`, suffixed or raw as asked),
/// whatever the length of the shared part, and last the type's own identifier.
pub proof fn lemma_resolved_path_elements(local: Seq<Seq<char>>, fq: Seq<char>, suffixed: bool)
    ensures
        ({
            let elems = split_on(fq.drop_first(), '.');
            let dirs = elems.drop_last();
            let k = common_prefix_len(local, dirs);
            let path = relative_type_path(local, fq, suffixed).0;
            &&& k <= local.len()
            &&& k <= dirs.len()
            &&& forall|i: int| 0 <= i < k ==> local[i] == dirs[i]
            &&& path.len() == (local.len() - k) + (dirs.len() - k)
            &&& forall|i: int| 0 <= i < local.len() - k ==> #[trigger] path[i] == ("super"@, false)
            &&& forall|i: int|
                local.len() - k <= i < path.len() ==> #[trigger] path[i] == path_elem(
                    dirs[k + (i - (local.len() - k))],
                    suffixed,
                )
            &&& relative_type_path(local, fq, suffixed).1 == sanitized(elems.last())
        }),
{
    let elems = split_on(fq.drop_first(), '.');
    let dirs = elems.drop_last();
    lemma_common_prefix_bounds(local, dirs);
}

/// Resolving from a module that shares `k` leading elements with the type's path climbs
/// out of the rest of that module, then follows the path that resolving from the root
/// gives, without its first `k` elements, to the same identifier.
pub proof fn lemma_resolve_from_root(local: Seq<Seq<char>>, fq: Seq<char>, suffixed: bool)
    ensures
        ({
            let dirs = split_on(fq.drop_first(), '.').drop_last();
            let k = common_prefix_len(local, dirs);
            let (path, ident) = relative_type_path(local, fq, suffixed);
            let (root_path, root_ident) = relative_type_path(Seq::empty(), fq, suffixed);
            &&& path == Seq::new((local.len() - k) as nat, |i: int| ("super"@, false)) + root_path.skip(k as int)
            &&& ident == root_ident
        }),
{
    let dirs = split_on(fq.drop_first(), '.').drop_last();
    let k = common_prefix_len(local, dirs);
    lemma_common_prefix_bounds(local, dirs);
    assert(common_prefix_len(Seq::empty(), dirs) == 0);
    let root_path = relative_type_path(Seq::empty(), fq, suffixed).0;
    let mapped = dirs.map_values(|e: Seq<char>| path_elem(e, suffixed));
    assert(root_path =~= Seq::new(0, |i: int| ("super"@, false)) + dirs.skip(0).map_values(
        |e: Seq<char>| path_elem(e, suffixed),
    ));
    assert(root_path.skip(k as int) =~= dirs.skip(k as int).map_values(|e: Seq<char>| path_elem(e, suffixed)));
}

/// A type declared in the scope being generated resolves to its own identifier with no
/// path before it: the fully qualified name that `fq_proto_name` gives for `name`, read
/// back by `resolve_type_name` from that scope, is `name` sanitized.
pub proof fn lemma_resolve_own_scope(local: Seq<Seq<char>>, name: Seq<char>, suffixed: bool)
    requires
        forall|i: int| 0 <= i < local.len() ==> !(#[trigger] local[i]).contains('.'),
        !name.contains('.'),
    ensures
        relative_type_path(local, dotted(local) + seq!['.'] + name, suffixed) == (
            Seq::<(Seq<char>, bool)>::empty(),
            sanitized(name),
        ),
{
    let fq = dotted(local) + seq!['.'] + name;
    lemma_split_dotted(local, name);
    lemma_split_on_whole(name, '.');
    let elems = split_on(fq.drop_first(), '.');
    assert(elems =~= local.push(name));
    assert(elems.drop_last() =~= local);
    lemma_common_prefix_self(local);
    let (path, ident) = relative_type_path(local, fq, suffixed);
    assert(path =~= Seq::<(Seq<char>, bool)>::empty());
}

/// The text of a resolved path: each element followed by ` :: `, then the identifier.
pub open spec fn path_text(path: Seq<(Seq<char>, bool)>, ident: (Seq<char>, bool)) -> Seq<char>
    decreases path.len(),
{
    if path.len() == 0 {
        ident_text(ident.0, ident.1)
    } else {
        ident_text(path[0].0, path[0].1) + " :: "@ + path_text(path.drop_first(), ident)
    }
}

impl ResolvedType {
    /// The path as Rust tokens print it.
    pub fn text(&self) -> (r: String)
        ensures
            r@ == match self {
                ResolvedType::Extern(p) => p@,
                ResolvedType::Local { path, ident } => path_text(
                    path@.map_values(|i: RustIdent| ident_model(i)),
                    ident_model(*ident),
                ),
            },
    {
        match self {
            ResolvedType::Extern(p) => p.clone(),
            ResolvedType::Local { path, ident } => {
                let ghost elems = path@.map_values(|i: RustIdent| ident_model(i));
                let mut out = ident.text();
                let mut i = path.len();
                while i > 0
                    invariant
                        i <= path.len(),
                        elems == path@.map_values(|i: RustIdent| ident_model(i)),
                        out@ == path_text(elems.skip(i as int), ident_model(*ident)),
                    decreases i,
                {
                    i = i - 1;
                    let mut t = path[i].text();
                    t.append(" :: ");
                    t.append(out.as_str());
                    assert(elems.skip(i as int).drop_first() =~= elems.skip(i + 1));
                    out = t;
                }
                assert(elems.skip(0) =~= elems);
                out
            },
        }
    }
}

/// What the file's syntax specifier selects, or why it is refused.
pub open spec fn syntax_of(s: Seq<char>) -> Result<Syntax, Seq<char>> {
    if s == "proto3"@ {
        Ok(Syntax::Proto3)
    } else if s == "proto2"@ || s.len() == 0 {
        Ok(Syntax::Proto2)
    } else if s == "editions"@ {
        Err("Protobuf Editions not supported"@)
    } else {
        Err("Unexpected Protobuf syntax specifier "@ + s)
    }
}

/// Whether `p` is a prefix of `s`.
pub open spec fn has_prefix(s: Seq<char>, p: Seq<char>) -> bool {
    p.len() <= s.len() && s.subrange(0, p.len() as int) == p
}

/// `s` without the prefix `p`, or `s` itself when it does not start with `p`.
pub open spec fn strip_prefix(s: Seq<char>, p: Seq<char>) -> Seq<char> {
    if has_prefix(s, p) {
        s.subrange(p.len() as int, s.len() as int)
    } else {
        s
    }
}

/// Stripping undoes a prefix: a text that starts with `p` is `p` followed by what stripping
/// `p` leaves, and a text that does not start with `p` is left whole.
pub proof fn lemma_strip_prefix(s: Seq<char>, p: Seq<char>)
    ensures
        has_prefix(s, p) ==> p + strip_prefix(s, p) == s,
        !has_prefix(s, p) ==> strip_prefix(s, p) == s,
        has_prefix(p + s, p) && strip_prefix(p + s, p) == s,
{
    if has_prefix(s, p) {
        assert(p + strip_prefix(s, p) =~= s);
    }
    assert((p + s).subrange(0, p.len() as int) =~= p);
    assert((p + s).subrange(p.len() as int, (p + s).len() as int) =~= s);
}

/// `s` turned into PascalCase by `convert_case`.
pub uninterp spec fn pascal_case(s: Seq<char>) -> Seq<char>;

/// Calls `convert_case`'s `to_case` with `Case::Pascal`: it splits `s` into words at the
/// default boundaries and joins them capitalized. The result depends on `s` alone.
#[verifier::external_body]
fn to_pascal_case(s: &str) -> (r: String)
    ensures
        r@ == pascal_case(s@),
{
    convert_case::Casing::to_case(&s, convert_case::Case::Pascal)
}

/// `s` without the prefix `p`, when `s` starts with it.
pub fn strip_prefix_str(s: &str, p: &str) -> (r: String)
    ensures
        r@ == strip_prefix(s@, p@),
{
    let n = s.unicode_len();
    let m = p.unicode_len();
    if m > n {
        return to_string(s);
    }
    let mut i: usize = 0;
    while i < m
        invariant
            n == s@.len(),
            m == p@.len(),
            m <= n,
            i <= m,
            forall|j: int| 0 <= j < i ==> s@[j] == p@[j],
        decreases m - i,
    {
        if s.get_char(i) != p.get_char(i) {
            assert(s@.subrange(0, m as int)[i as int] != p@[i as int]);
            return to_string(s);
        }
        i = i + 1;
    }
    assert(s@.subrange(0, m as int) =~= p@);
    to_string(s.substring_char(m, n))
}

/// The variant identifier for an enum value whose name, in PascalCase, is `cased`: the
/// enum's name `enum_name` is stripped from its front unless `retain_prefix` is set, and
/// the rest is sanitized.
pub fn variant_ident(cased: &str, enum_name: &str, retain_prefix: bool) -> (r: RustIdent)
    ensures
        (r.name@, r.raw) == sanitized(
            if retain_prefix {
                cased@
            } else {
                strip_prefix(cased@, enum_name@)
            },
        ),
{
    if retain_prefix {
        sanitized_ident(cased)
    } else {
        let stripped = strip_prefix_str(cased, enum_name);
        sanitized_ident(stripped.as_str())
    }
}

/// The derives of a generated message struct, in order; `Copy` only along with `Clone`.
pub open spec fn msg_derives(debug: bool, default: bool, partial_eq: bool, clone: bool, copy: bool) -> Seq<Seq<char>> {
    (if debug { seq!["Debug"@] } else { Seq::empty() }) + (if default { seq!["Default"@] } else { Seq::empty() })
        + (if partial_eq { seq!["PartialEq"@] } else { Seq::empty() }) + (if clone { seq!["Clone"@] } else { Seq::empty() })
        + (if clone && copy { seq!["Copy"@] } else { Seq::empty() })
}

/// Each flag of a message struct controls its own derive: `Debug`, `Default`, `PartialEq`
/// and `Clone` are derived exactly when their flags are set, whatever the other flags are,
/// `Copy` exactly when both `clone` and `copy` are set, and no other trait is derived.
pub proof fn lemma_msg_derives_flags(debug: bool, default: bool, partial_eq: bool, clone: bool, copy: bool)
    ensures
        msg_derives(debug, default, partial_eq, clone, copy).contains("Debug"@) <==> debug,
        msg_derives(debug, default, partial_eq, clone, copy).contains("Default"@) <==> default,
        msg_derives(debug, default, partial_eq, clone, copy).contains("PartialEq"@) <==> partial_eq,
        msg_derives(debug, default, partial_eq, clone, copy).contains("Clone"@) <==> clone,
        msg_derives(debug, default, partial_eq, clone, copy).contains("Copy"@) <==> clone && copy,
        forall|t: Seq<char>|
            #[trigger] msg_derives(debug, default, partial_eq, clone, copy).contains(t) ==> t == "Debug"@
                || t == "Default"@ || t == "PartialEq"@ || t == "Clone"@ || t == "Copy"@,
{
    broadcast use vstd::seq_lib::group_seq_properties;
    reveal_strlit("Debug");
    reveal_strlit("Default");
    reveal_strlit("PartialEq");
    reveal_strlit("Clone");
    reveal_strlit("Copy");
    assert("Debug"@ != "Default"@ && "Debug"@ != "PartialEq"@ && "Debug"@ != "Clone"@ && "Debug"@ != "Copy"@) by {
        assert("Debug"@[2] != "Default"@[2]);
        assert("Debug"@.len() != "PartialEq"@.len());
        assert("Debug"@[0] != "Clone"@[0]);
        assert("Debug"@.len() != "Copy"@.len());
    }
    assert("Default"@ != "PartialEq"@ && "Default"@ != "Clone"@ && "Default"@ != "Copy"@) by {
        assert("Default"@.len() != "PartialEq"@.len());
        assert("Default"@.len() != "Clone"@.len());
        assert("Default"@.len() != "Copy"@.len());
    }
    assert("PartialEq"@ != "Clone"@ && "PartialEq"@ != "Copy"@) by {
        assert("PartialEq"@.len() != "Clone"@.len());
        assert("PartialEq"@.len() != "Copy"@.len());
    }
    assert("Clone"@ != "Copy"@) by {
        assert("Clone"@.len() != "Copy"@.len());
    }
}

/// The traits that a generated message struct derives.
pub fn derive_msg_attr(debug: bool, default: bool, partial_eq: bool, clone: bool, copy: bool) -> (r: Vec<String>)
    ensures
        texts(r@) == msg_derives(debug, default, partial_eq, clone, copy),
{
    let mut v: Vec<String> = Vec::new();
    if debug {
        v.push(to_string("Debug"));
    }
    let ghost a = texts(v@);
    if default {
        v.push(to_string("Default"));
    }
    let ghost b = texts(v@);
    if partial_eq {
        v.push(to_string("PartialEq"));
    }
    let ghost c = texts(v@);
    if clone && copy {
        v.push(to_string("Clone"));
        v.push(to_string("Copy"));
    } else if clone {
        v.push(to_string("Clone"));
    }
    assert(texts(v@) =~= msg_derives(debug, default, partial_eq, clone, copy));
    v
}

/// The traits that a generated enum derives.
pub open spec fn enum_derives() -> Seq<Seq<char>> {
    seq!["Debug"@, "Clone"@, "Copy"@, "PartialEq"@, "Eq"@, "Hash"@]
}

/// The traits that a generated enum derives.
pub fn derive_enum_attr() -> (r: Vec<String>)
    ensures
        texts(r@) == enum_derives(),
{
    let mut v: Vec<String> = Vec::new();
    v.push(to_string("Debug"));
    v.push(to_string("Clone"));
    v.push(to_string("Copy"));
    v.push(to_string("PartialEq"));
    v.push(to_string("Eq"));
    v.push(to_string("Hash"));
    assert(texts(v@) =~= enum_derives());
    v
}

/// A flag of the configuration that is off when unset.
pub open spec fn flag_on(f: Option<bool>) -> bool {
    match f {
        Some(b) => b,
        None => false,
    }
}

/// The configuration that applies to the type or field being generated.
#[derive(Debug)]
pub struct CurrentConfig {
    pub config: Config,
}

impl CurrentConfig {
    /// Whether message types derive `Debug`.
    pub fn derive_dbg(&self) -> (r: bool)
        ensures
            r == !flag_on(self.config.no_debug_impl),
    {
        !self.config.no_debug_impl.unwrap_or(false)
    }

    /// Whether message types implement `Default`.
    pub fn impl_default(&self) -> (r: bool)
        ensures
            r == !flag_on(self.config.no_default_impl),
    {
        !self.config.no_default_impl.unwrap_or(false)
    }

    /// Whether message types derive `PartialEq`.
    pub fn derive_partial_eq(&self) -> (r: bool)
        ensures
            r == !flag_on(self.config.no_partial_eq_impl),
    {
        !self.config.no_partial_eq_impl.unwrap_or(false)
    }

    /// Whether message types derive `Clone`.
    pub fn derive_clone(&self) -> (r: bool)
        ensures
            r == !flag_on(self.config.no_clone_impl),
    {
        !self.config.no_clone_impl.unwrap_or(false)
    }
}

/// The text of an error about a Protobuf field: `(.pkg.Msg.field) text`, without the
/// leading dot when the package is empty.
pub open spec fn field_error_spec(pkg: Seq<char>, msg: Seq<char>, field: Seq<char>, text: Seq<char>) -> Seq<char> {
    "("@ + (if pkg.len() == 0 { Seq::empty() } else { "."@ }) + pkg + "."@ + msg + "."@ + field + ") "@ + text
}

/// The text of an error about a Protobuf message: `(.pkg.Msg) text`, without the leading
/// dot when the package is empty.
pub open spec fn msg_error_spec(pkg: Seq<char>, msg: Seq<char>, text: Seq<char>) -> Seq<char> {
    "("@ + (if pkg.len() == 0 { Seq::empty() } else { "."@ }) + pkg + "."@ + msg + ") "@ + text
}

/// An error about a field reads as an error about the message that the field's name,
/// after a dot, extends.
pub proof fn lemma_field_error_is_msg_error(pkg: Seq<char>, msg: Seq<char>, field: Seq<char>, text: Seq<char>)
    ensures
        field_error_spec(pkg, msg, field, text) == msg_error_spec(pkg, msg + "."@ + field, text),
{
    assert(field_error_spec(pkg, msg, field, text) =~= msg_error_spec(pkg, msg + "."@ + field, text));
}

/// The text of an error about the field `field_name` of the message `msg_name`.
pub fn field_error(pkg: &str, msg_name: &str, field_name: &str, err_text: &str) -> (r: String)
    ensures
        r@ == field_error_spec(pkg@, msg_name@, field_name@, err_text@),
{
    let mut t = to_string("(");
    if pkg.unicode_len() != 0 {
        t.append(".");
    }
    t.append(pkg);
    t.append(".");
    t.append(msg_name);
    t.append(".");
    t.append(field_name);
    t.append(") ");
    t.append(err_text);
    assert(t@ =~= field_error_spec(pkg@, msg_name@, field_name@, err_text@));
    t
}

/// The text of an error about the message `msg_name`.
pub fn msg_error(pkg: &str, msg_name: &str, err_text: &str) -> (r: String)
    ensures
        r@ == msg_error_spec(pkg@, msg_name@, err_text@),
{
    let mut t = to_string("(");
    if pkg.unicode_len() != 0 {
        t.append(".");
    }
    t.append(pkg);
    t.append(".");
    t.append(msg_name);
    t.append(") ");
    t.append(err_text);
    assert(t@ =~= msg_error_spec(pkg@, msg_name@, err_text@));
    t
}

/// The type `typ`, in a `Box` when `boxed`, then in an `Option` when `optional`.
pub open spec fn wrapped_type_spec(typ: Seq<char>, boxed: bool, optional: bool) -> Seq<char> {
    let b = if boxed { "::alloc::boxed::Box<"@ + typ + ">"@ } else { typ };
    if optional { "::core::option::Option<"@ + b + ">"@ } else { b }
}

/// The value `val`, boxed when `boxed`, then in `Some` when `optional`.
pub open spec fn wrapped_value_spec(val: Seq<char>, boxed: bool, optional: bool) -> Seq<char> {
    let b = if boxed { "::alloc::boxed::Box::new("@ + val + ")"@ } else { val };
    if optional { "::core::option::Option::Some("@ + b + ")"@ } else { b }
}

/// Wrapping nests: a value or type is left bare when neither boxed nor optional, boxing
/// wraps the bare form in `Box`, and an optional one wraps the unoptional form, boxed or
/// not, in `Option`.
pub proof fn lemma_wrapping_nests(t: Seq<char>, boxed: bool)
    ensures
        wrapped_type_spec(t, false, false) == t,
        wrapped_type_spec(t, true, false) == "::alloc::boxed::Box<"@ + t + ">"@,
        wrapped_type_spec(t, boxed, true) == "::core::option::Option<"@ + wrapped_type_spec(t, boxed, false) + ">"@,
        wrapped_value_spec(t, false, false) == t,
        wrapped_value_spec(t, true, false) == "::alloc::boxed::Box::new("@ + t + ")"@,
        wrapped_value_spec(t, boxed, true) == "::core::option::Option::Some("@ + wrapped_value_spec(t, boxed, false) + ")"@,
{
}

impl Context {
    /// A context for the root module, with nothing of a file set yet.
    pub fn new(params: Params) -> (r: Self)
        ensures
            r.params == params,
            r.syntax == Syntax::Proto2,
            r.pkg_path@.len() == 0,
            r.pkg@.len() == 0,
            r.type_path@.len() == 0,
    {
        Context { params, syntax: Syntax::Proto2, pkg_path: Vec::new(), pkg: String::new(), type_path: Vec::new() }
    }

    /// The path of the module being generated: the package, then the enclosing messages.
    pub open spec fn local_path(&self) -> Seq<Seq<char>> {
        texts(self.pkg_path@) + texts(self.type_path@)
    }

    /// Sets up the context for the file `fdproto`: its syntax, its package, and the root
    /// of its type nesting. Editions and unknown syntax specifiers are refused, and the
    /// context is then left as it was.
    pub fn setup_file_context(&mut self, fdproto: &FileDescriptorProto) -> (r: Result<(), String>)
        ensures
            match syntax_of(fdproto.syntax@) {
                Ok(syntax) => {
                    &&& r is Ok
                    &&& final(self).syntax == syntax
                    &&& texts(final(self).pkg_path@) == (if fdproto._has@[1] {
                        split_on(fdproto.package@, '.')
                    } else {
                        Seq::empty()
                    })
                    &&& final(self).pkg@ == (if fdproto._has@[1] {
                        fdproto.package@
                    } else {
                        Seq::empty()
                    })
                    &&& final(self).type_path@.len() == 0
                    &&& final(self).params == old(self).params
                },
                Err(t) => r matches Err(e) && e@ == t && *final(self) == *old(self),
            },
    {
        let s = fdproto.syntax.as_str();
        let syntax = if str_eq(s, "proto3") {
            Syntax::Proto3
        } else if str_eq(s, "proto2") || s.unicode_len() == 0 {
            Syntax::Proto2
        } else if str_eq(s, "editions") {
            return Err(to_string("Protobuf Editions not supported"));
        } else {
            let mut t = to_string("Unexpected Protobuf syntax specifier ");
            t.append(s);
            return Err(t);
        };
        self.syntax = syntax;
        match fdproto.package() {
            Some(p) => {
                self.pkg_path = split_dots(p.as_str());
                self.pkg = p.clone();
            },
            None => {
                self.pkg_path = Vec::new();
                self.pkg = String::new();
                assert(texts(self.pkg_path@) =~= Seq::empty());
            },
        }
        self.type_path = Vec::new();
        Ok(())
    }

    /// The fully qualified Protobuf name of the type `proto_name` in the current scope.
    pub fn fq_proto_name(&self, proto_name: &str) -> (r: String)
        ensures
            r@ == dotted(self.local_path()) + seq!['.'] + proto_name@,
    {
        let mut out = String::new();
        let ghost elems = self.local_path();
        let mut i: usize = 0;
        while i < self.pkg_path.len()
            invariant
                elems == self.local_path(),
                i <= self.pkg_path.len(),
                out@ == dotted(elems.subrange(0, i as int)),
            decreases self.pkg_path.len() - i,
        {
            push_char(&mut out, '.');
            out.append(self.pkg_path[i].as_str());
            assert(elems.subrange(0, (i + 1) as int).drop_last() =~= elems.subrange(0, i as int));
            i = i + 1;
        }
        let mut j: usize = 0;
        while j < self.type_path.len()
            invariant
                elems == self.local_path(),
                elems.len() == self.pkg_path.len() + self.type_path.len(),
                j <= self.type_path.len(),
                out@ == dotted(elems.subrange(0, self.pkg_path.len() + j)),
            decreases self.type_path.len() - j,
        {
            push_char(&mut out, '.');
            out.append(self.type_path[j].as_str());
            assert(elems.subrange(0, self.pkg_path.len() + j + 1).drop_last() =~= elems.subrange(
                0,
                self.pkg_path.len() + j,
            ));
            j = j + 1;
        }
        assert(elems.subrange(0, elems.len() as int) =~= elems);
        push_char(&mut out, '.');
        out.append(proto_name);
        out
    }

    /// The Rust path, from the module being generated, of the type whose fully qualified
    /// Protobuf name is `pb_fq_type_name`: the extern path given for it, if any, else a
    /// relative path.
    pub fn resolve_type_name(&self, pb_fq_type_name: &str) -> (r: ResolvedType)
        requires
            pb_fq_type_name@.len() > 0,
            pb_fq_type_name@[0] == '.',
            self.pkg_path@.len() + self.type_path@.len() <= usize::MAX,
        ensures
            match extern_path(self.params.extern_paths@, pb_fq_type_name@) {
                Some(p) => r matches ResolvedType::Extern(q) && q@ == p,
                None => r matches ResolvedType::Local { path, ident } && (
                path@.map_values(|i: RustIdent| ident_model(i)),
                ident_model(ident),
            ) == relative_type_path(
                self.local_path(),
                pb_fq_type_name@,
                self.params.suffixed_package_names,
            ),
            },
    {
        if let Some(p) = self.extern_path_of(pb_fq_type_name) {
            return ResolvedType::Extern(p);
        }
        let ghost fq = pb_fq_type_name@;
        let n = pb_fq_type_name.unicode_len();
        let body = pb_fq_type_name.substring_char(1, n);
        assert(body@ =~= fq.drop_first());
        let mut elems = split_dots(body);
        proof {
            lemma_split_on_nonempty(body@, '.');
        }
        let ghost all = texts(elems@);
        let last = elems.pop().unwrap();
        let ghost dirs = texts(elems@);
        assert(dirs =~= all.drop_last());
        let ident = sanitized_ident(last.as_str());
        let ghost local = self.local_path();
        // Skip the leading path elements that the current module shares with the type.
        let np = self.pkg_path.len();
        let nl = np + self.type_path.len();
        let mut k: usize = 0;
        assert(local.skip(0) =~= local);
        assert(dirs.skip(0) =~= dirs);
        while k < nl && k < elems.len() && self.local_elem_is(k, elems[k].as_str())
            invariant
                local == self.local_path(),
                nl == local.len(),
                np == self.pkg_path.len(),
                dirs == texts(elems@),
                k <= nl,
                k <= elems.len(),
                common_prefix_len(local, dirs) == k + common_prefix_len(local.skip(k as int), dirs.skip(k as int)),
            decreases nl - k,
        {
            proof {
                assert(local.skip(k as int)[0] == local[k as int]);
                assert(dirs.skip(k as int)[0] == dirs[k as int]);
                assert(local.skip(k as int).drop_first() =~= local.skip(k + 1));
                assert(dirs.skip(k as int).drop_first() =~= dirs.skip(k + 1));
            }
            k = k + 1;
        }
        proof {
            if k < nl && k < elems.len() {
                assert(local.skip(k as int)[0] == local[k as int]);
                assert(dirs.skip(k as int)[0] == dirs[k as int]);
            }
        }
        let mut path: Vec<RustIdent> = Vec::new();
        let mut s: usize = k;
        while s < nl
            invariant
                k <= s <= nl,
                path@.map_values(|i: RustIdent| ident_model(i)) =~= Seq::new(
                    (s - k) as nat,
                    |i: int| ("super"@, false),
                ),
            decreases nl - s,
        {
            let ghost before = path@;
            path.push(RustIdent { name: to_string("super"), raw: false });
            assert(path@.map_values(|i: RustIdent| ident_model(i)) =~= before.map_values(
                |i: RustIdent| ident_model(i),
            ).push(("super"@, false)));
            s = s + 1;
        }
        let ghost supers = path@.map_values(|i: RustIdent| ident_model(i));
        let mut t: usize = k;
        while t < elems.len()
            invariant
                k <= t <= elems.len(),
                dirs == texts(elems@),
                path@.map_values(|i: RustIdent| ident_model(i)) =~= supers + dirs.subrange(k as int, t as int).map_values(
                    |e: Seq<char>| path_elem(e, self.params.suffixed_package_names),
                ),
            decreases elems.len() - t,
        {
            let ghost before = path@;
            let e = resolve_path_elem(elems[t].as_str(), self.params.suffixed_package_names);
            let ghost em = ident_model(e);
            path.push(e);
            assert(path@.map_values(|i: RustIdent| ident_model(i)) =~= before.map_values(
                |i: RustIdent| ident_model(i),
            ).push(em));
            assert(dirs.subrange(k as int, t + 1) =~= dirs.subrange(k as int, t as int).push(dirs[t as int]));
            t = t + 1;
        }
        assert(dirs.subrange(k as int, elems.len() as int) =~= dirs.skip(k as int));
        ResolvedType::Local { path, ident }
    }

    /// Whether element `k` of the current module's path is `e`.
    fn local_elem_is(&self, k: usize, e: &str) -> (r: bool)
        requires
            k < self.pkg_path.len() + self.type_path.len(),
        ensures
            r == (self.local_path()[k as int] == e@),
    {
        if k < self.pkg_path.len() {
            str_eq(self.pkg_path[k].as_str(), e)
        } else {
            str_eq(self.type_path[k - self.pkg_path.len()].as_str(), e)
        }
    }

    /// The Rust path given for the Protobuf type `name`, if any.
    fn extern_path_of(&self, name: &str) -> (r: Option<String>)
        ensures
            match extern_path(self.params.extern_paths@, name@) {
                Some(p) => r matches Some(q) && q@ == p,
                None => r is None,
            },
    {
        let paths = &self.params.extern_paths;
        let mut i = paths.len();
        assert(paths@.subrange(0, i as int) =~= paths@);
        while i > 0
            invariant
                i <= paths.len(),
                paths@ == self.params.extern_paths@,
                extern_path(paths@, name@) == extern_path(paths@.subrange(0, i as int), name@),
            decreases i,
        {
            assert(paths@.subrange(0, i as int).drop_last() =~= paths@.subrange(0, i - 1));
            assert(paths@.subrange(0, i as int).last() == paths@[i - 1]);
            if str_eq(paths[i - 1].0.as_str(), name) {
                let found = paths[i - 1].1.clone();

                assert(paths@[i - 1].0@ == name@);
                assert(extern_path(paths@.subrange(0, i as int), name@) == Some(paths@[i - 1].1@));
                return Some(found);
            }
            i = i - 1;
        }
        None
    }

    /// The identifier of the enum variant for the Protobuf value `variant_name` of the
    /// enum `enum_name`: the name in PascalCase, without the enum's name in front unless
    /// the enum prefix is retained, sanitized.
    pub fn enum_variant_name(&self, variant_name: &str, enum_name: &RustIdent) -> (r: RustIdent)
        ensures
            (r.name@, r.raw) == sanitized(
                if self.params.retain_enum_prefix {
                    pascal_case(variant_name@)
                } else {
                    strip_prefix(pascal_case(variant_name@), ident_text(enum_name.name@, enum_name.raw))
                },
            ),
    {
        let cased = to_pascal_case(variant_name);
        let prefix = enum_name.text();
        variant_ident(cased.as_str(), prefix.as_str(), self.params.retain_enum_prefix)
    }

    /// The type `typ` in a `Box` when `boxed`, then in an `Option` when `optional`.
    pub fn wrapped_type(&self, typ: &str, boxed: bool, optional: bool) -> (r: String)
        ensures
            r@ == wrapped_type_spec(typ@, boxed, optional),
    {
        let b = if boxed {
            let mut t = to_string("::alloc::boxed::Box<");
            t.append(typ);
            t.append(">");
            t
        } else {
            to_string(typ)
        };
        if optional {
            let mut t = to_string("::core::option::Option<");
            t.append(b.as_str());
            t.append(">");
            t
        } else {
            b
        }
    }

    /// The value `val` boxed when `boxed`, then in `Some` when `optional`.
    pub fn wrapped_value(&self, val: &str, boxed: bool, optional: bool) -> (r: String)
        ensures
            r@ == wrapped_value_spec(val@, boxed, optional),
    {
        let b = if boxed {
            let mut t = to_string("::alloc::boxed::Box::new(");
            t.append(val);
            t.append(")");
            t
        } else {
            to_string(val)
        };
        if optional {
            let mut t = to_string("::core::option::Option::Some(");
            t.append(b.as_str());
            t.append(")");
            t
        } else {
            b
        }
    }
}

} // verus!
