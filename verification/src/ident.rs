//! Rust identifiers as the generated code spells them.
use vstd::prelude::*;
use vstd::string::{StrSliceExecFns, StringExecFns};
use crate::text::{push_char, str_eq, to_string};

verus! {

/// A Rust identifier: its name, and whether it is written raw (`r#name`).
#[derive(Debug)]
pub struct RustIdent {
    pub name: String,
    pub raw: bool,
}

/// How an identifier is written in Rust source.
pub open spec fn ident_text(name: Seq<char>, raw: bool) -> Seq<char> {
    if raw {
        seq!['r', '#'] + name
    } else {
        name
    }
}

impl RustIdent {
    /// How the identifier is written in Rust source.
    pub fn text(&self) -> (r: String)
        ensures
            r@ == ident_text(self.name@, self.raw),
    {
        if self.raw {
            let mut t = String::new();
            push_char(&mut t, 'r');
            push_char(&mut t, '#');
            t.append(self.name.as_str());
            assert(t@ =~= ident_text(self.name@, self.raw));
            t
        } else {
            self.name.clone()
        }
    }
}

/// Whether `s` is one of the path keywords that cannot be raw identifiers.
pub open spec fn path_keyword(s: Seq<char>) -> bool {
    s == "super"@ || s == "crate"@ || s == "self"@ || s == "Self"@ || s == "extern"@
}

/// Whether `s` is a path keyword that cannot be a raw identifier.
pub fn is_path_keyword(s: &str) -> (r: bool)
    ensures
        r == path_keyword(s@),
{
    str_eq(s, "super") || str_eq(s, "crate") || str_eq(s, "self") || str_eq(s, "Self")
        || str_eq(s, "extern")
}

/// Whether `char::is_numeric` holds of `c`.
pub uninterp spec fn char_numeric(c: char) -> bool;

/// Whether `char::is_lowercase` holds of `c`.
pub uninterp spec fn char_lowercase(c: char) -> bool;

/// Calls `char::is_numeric`, which tells whether `c` has one of the Unicode numeric general
/// categories; its result depends on `c` alone.
#[verifier::external_body]
fn is_numeric(c: char) -> (r: bool)
    ensures
        r == char_numeric(c),
{
    c.is_numeric()
}

/// Calls `char::is_lowercase`, which tells whether `c` has the Unicode `Lowercase`
/// property; its result depends on `c` alone.
#[verifier::external_body]
fn is_lowercase(c: char) -> (r: bool)
    ensures
        r == char_lowercase(c),
{
    c.is_lowercase()
}

/// The identifier for a Protobuf name whose first character is, or is not, numeric and
/// lowercase as the flags say: keywords that cannot be raw, and names that start with a
/// digit, get an underscore in front; other names starting with a lowercase letter are
/// written raw, since they may be keywords; the rest stand as they are.
pub open spec fn sanitized_as(name: Seq<char>, first_numeric: bool, first_lowercase: bool) -> (Seq<char>, bool) {
    if name == "_"@ || path_keyword(name) {
        (seq!['_'] + name, false)
    } else if name.len() > 0 && first_numeric {
        (seq!['_'] + name, false)
    } else if name.len() > 0 && first_lowercase {
        (name, true)
    } else {
        (name, false)
    }
}

/// The identifier for a Protobuf name, as `sanitized_as` gives it from what `char` says of
/// the name's first character.
pub open spec fn sanitized(name: Seq<char>) -> (Seq<char>, bool) {
    sanitized_as(
        name,
        name.len() > 0 && char_numeric(name[0]),
        name.len() > 0 && char_lowercase(name[0]),
    )
}

/// The identifier of a module for a path element: suffixed with `_` when all package
/// names are suffixed or when the element is a path keyword, else written raw.
pub open spec fn path_elem(elem: Seq<char>, suffixed: bool) -> (Seq<char>, bool) {
    if suffixed || path_keyword(elem) {
        (elem + seq!['_'], false)
    } else {
        (elem, true)
    }
}

/// The identifier of a module for the path element `elem`.
pub fn resolve_path_elem(elem: &str, suffixed: bool) -> (r: RustIdent)
    ensures
        (r.name@, r.raw) == path_elem(elem@, suffixed),
{
    if suffixed || is_path_keyword(elem) {
        let mut name = to_string(elem);
        push_char(&mut name, '_');
        RustIdent { name, raw: false }
    } else {
        RustIdent { name: to_string(elem), raw: true }
    }
}

/// The identifier for the Protobuf name `name`.
pub fn sanitized_ident(name: &str) -> (r: RustIdent)
    ensures
        (r.name@, r.raw) == sanitized(name@),
{
    let (numeric, lowercase) = if name.unicode_len() > 0 {
        let c = name.get_char(0);
        (is_numeric(c), is_lowercase(c))
    } else {
        (false, false)
    };
    sanitized_ident_as(name, numeric, lowercase)
}

/// The identifier for the Protobuf name `name`, whose first character is numeric when
/// `first_numeric` is set and lowercase when `first_lowercase` is set.
pub fn sanitized_ident_as(name: &str, first_numeric: bool, first_lowercase: bool) -> (r: RustIdent)
    ensures
        (r.name@, r.raw) == sanitized_as(name@, first_numeric, first_lowercase),
{
    let nonempty = name.unicode_len() > 0;
    if str_eq(name, "_") || is_path_keyword(name) || (nonempty && first_numeric) {
        let mut t = String::new();
        push_char(&mut t, '_');
        t.append(name);
        assert(t@ =~= seq!['_'] + name@);
        RustIdent { name: t, raw: false }
    } else if nonempty && first_lowercase {
        RustIdent { name: to_string(name), raw: true }
    } else {
        RustIdent { name: to_string(name), raw: false }
    }
}

} // verus!
