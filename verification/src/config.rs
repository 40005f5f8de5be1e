//! Configuration options for Protobuf types and fields.
use vstd::prelude::*;
use vstd::string::StringExecFns;
use crate::ident::RustIdent;
use crate::text::{push_char, to_string};

verus! {

/// Sizes of integer types
#[derive(Debug, Clone, Copy, PartialEq, Eq, Structural)]
pub enum IntSize {
    /// 8-bit int
    S8,
    /// 16-bit int
    S16,
    /// 32-bit int
    S32,
    /// 64-bit int
    S64,
}

/// The name of the Rust integer type of size `size`, signed or not.
pub open spec fn int_type_name(size: IntSize, signed: bool) -> Seq<char> {
    match size {
        IntSize::S8 => if signed { seq!['i', '8'] } else { seq!['u', '8'] },
        IntSize::S16 => if signed { seq!['i', '1', '6'] } else { seq!['u', '1', '6'] },
        IntSize::S32 => if signed { seq!['i', '3', '2'] } else { seq!['u', '3', '2'] },
        IntSize::S64 => if signed { seq!['i', '6', '4'] } else { seq!['u', '6', '4'] },
    }
}

impl IntSize {
    /// The name of the Rust integer type of this size, signed or not.
    pub fn type_name_(self, signed: bool) -> (r: &'static str)
        ensures
            r@ == int_type_name(self, signed),
    {
        match self {
            IntSize::S8 => if signed {
                proof {
                    reveal_strlit("i8");
                }
                "i8"
            } else {
                proof {
                    reveal_strlit("u8");
                }
                "u8"
            },
            IntSize::S16 => if signed {
                proof {
                    reveal_strlit("i16");
                }
                "i16"
            } else {
                proof {
                    reveal_strlit("u16");
                }
                "u16"
            },
            IntSize::S32 => if signed {
                proof {
                    reveal_strlit("i32");
                }
                "i32"
            } else {
                proof {
                    reveal_strlit("u32");
                }
                "u32"
            },
            IntSize::S64 => if signed {
                proof {
                    reveal_strlit("i64");
                }
                "i64"
            } else {
                proof {
                    reveal_strlit("u64");
                }
                "u64"
            },
        }
    }
}

/// Customize encoding and decoding behaviour for a generated field
#[derive(Debug)]
pub enum CustomField {
    /// Fully-qualified type name that replaces the generated type of the field.
    ///
    /// This type must implement `FieldEncode` and `FieldDecode`.
    Type(String),
    /// Name of the other field that this field will delegate to.
    ///
    /// The delegated field must have [`CustomField::Type`] configured. It will handle the decoding
    /// and encoding of this field's wire value.
    Delegate(String),
}

/// The value of a [`CustomField`] as the contracts see it.
pub ghost enum CustomFieldModel {
    Type(Seq<char>),
    Delegate(Seq<char>),
}

impl View for CustomField {
    type V = CustomFieldModel;

    open spec fn view(&self) -> CustomFieldModel {
        match self {
            CustomField::Type(s) => CustomFieldModel::Type(s@),
            CustomField::Delegate(s) => CustomFieldModel::Delegate(s@),
        }
    }
}

impl Clone for CustomField {
    fn clone(&self) -> (r: Self)
        ensures
            r@ == self@,
    {
        match self {
            CustomField::Type(s) => CustomField::Type(s.clone()),
            CustomField::Delegate(s) => CustomField::Delegate(s.clone()),
        }
    }
}

/// Representation of optional fields in the generated code
#[derive(Debug, Clone, Copy, PartialEq, Eq, Structural)]
pub enum OptionalRepr {
    /// Presence of optional field is tracked in a separate bitfield called a hazzer.
    ///
    /// Default for non-boxed fields.
    Hazzer,
    /// Optional field is wrapped in `Option`
    ///
    /// Default for boxed fields.
    Option,
}

/// Configuration that changes how the code generator handles Protobuf types and fields.
///
/// Configuration fields are set by chaining builder methods:
/// `Config::new().boxed(true).max_len(12).vec_type("MyVec")`.
#[non_exhaustive]
#[derive(Debug)]
pub struct Config {
    /// Max number of elements for fixed-capacity repeated and `map` fields.
    pub max_len: Option<u32>,
    /// Max number of bytes for fixed-capacity `string` and `bytes` fields.
    pub max_bytes: Option<u32>,
    /// Override the integer type of integer fields such as `int32` or `fixed64`.
    pub int_size: Option<IntSize>,
    /// Set attributes for message fields.
    pub field_attributes: Option<String>,
    /// Wrap the field in a `Box`.
    pub boxed: Option<bool>,
    /// Container type that's generated for `bytes` and repeated fields.
    pub vec_type: Option<String>,
    /// Container type that's generated for `string` fields.
    pub string_type: Option<String>,
    /// Container type that's generated for `map` fields.
    pub map_type: Option<String>,
    /// Determine how optional fields are represented.
    pub optional_repr: Option<OptionalRepr>,
    /// Replace generated field with an user-provided type.
    pub custom_field: Option<CustomField>,
    /// Rename a field in the generated Rust struct. Not inherited by children paths.
    pub rename_field: Option<String>,
    /// Override the integer size of Protobuf enums.
    pub enum_int_size: Option<IntSize>,
    /// Set attributes for generated types, such as messages and enums.
    pub type_attributes: Option<String>,
    /// Disable generating `Debug` trait derives for message types.
    pub no_debug_impl: Option<bool>,
    /// Disable generating `Default` trait impl for message types.
    pub no_default_impl: Option<bool>,
    /// Disable generating `PartialEq` trait derives for message types.
    pub no_partial_eq_impl: Option<bool>,
    /// Disable generating `Clone` trait derives for message types.
    pub no_clone_impl: Option<bool>,
    /// Add a custom handler on a message struct for handling unknown fields.
    pub unknown_handler: Option<String>,
    /// Skip generating a type or field
    pub skip: Option<bool>,
}

/// The value of a [`Config`] as the contracts see it.
pub ghost struct ConfigModel {
    pub max_len: Option<u32>,
    pub max_bytes: Option<u32>,
    pub int_size: Option<IntSize>,
    pub field_attributes: Option<Seq<char>>,
    pub boxed: Option<bool>,
    pub vec_type: Option<Seq<char>>,
    pub string_type: Option<Seq<char>>,
    pub map_type: Option<Seq<char>>,
    pub optional_repr: Option<OptionalRepr>,
    pub custom_field: Option<CustomFieldModel>,
    pub rename_field: Option<Seq<char>>,
    pub enum_int_size: Option<IntSize>,
    pub type_attributes: Option<Seq<char>>,
    pub no_debug_impl: Option<bool>,
    pub no_default_impl: Option<bool>,
    pub no_partial_eq_impl: Option<bool>,
    pub no_clone_impl: Option<bool>,
    pub unknown_handler: Option<Seq<char>>,
    pub skip: Option<bool>,
}

/// The text of an optional string.
pub open spec fn opt_text(s: Option<String>) -> Option<Seq<char>> {
    match s {
        Some(t) => Some(t@),
        None => None,
    }
}

/// `b` where it is set, else `a`.
pub open spec fn or_else<T>(b: Option<T>, a: Option<T>) -> Option<T> {
    match b {
        Some(v) => Some(v),
        None => a,
    }
}

impl View for Config {
    type V = ConfigModel;

    open spec fn view(&self) -> ConfigModel {
        ConfigModel {
            max_len: self.max_len,
            max_bytes: self.max_bytes,
            int_size: self.int_size,
            field_attributes: opt_text(self.field_attributes),
            boxed: self.boxed,
            vec_type: opt_text(self.vec_type),
            string_type: opt_text(self.string_type),
            map_type: opt_text(self.map_type),
            optional_repr: self.optional_repr,
            custom_field: match self.custom_field {
                Some(c) => Some(c@),
                None => None,
            },
            rename_field: opt_text(self.rename_field),
            enum_int_size: self.enum_int_size,
            type_attributes: opt_text(self.type_attributes),
            no_debug_impl: self.no_debug_impl,
            no_default_impl: self.no_default_impl,
            no_partial_eq_impl: self.no_partial_eq_impl,
            no_clone_impl: self.no_clone_impl,
            unknown_handler: opt_text(self.unknown_handler),
            skip: self.skip,
        }
    }
}

impl ConfigModel {
    /// The configuration with no option set.
    pub open spec fn empty() -> ConfigModel {
        ConfigModel {
            max_len: None,
            max_bytes: None,
            int_size: None,
            field_attributes: None,
            boxed: None,
            vec_type: None,
            string_type: None,
            map_type: None,
            optional_repr: None,
            custom_field: None,
            rename_field: None,
            enum_int_size: None,
            type_attributes: None,
            no_debug_impl: None,
            no_default_impl: None,
            no_partial_eq_impl: None,
            no_clone_impl: None,
            unknown_handler: None,
            skip: None,
        }
    }

    /// `self` with `other` laid over it: every option that `other` sets replaces the one in
    /// `self`, the others stay, and `rename_field` is always taken from `other`, since it
    /// applies to one path only.
    pub open spec fn merged(self, other: ConfigModel) -> ConfigModel {
        ConfigModel {
            max_len: or_else(other.max_len, self.max_len),
            max_bytes: or_else(other.max_bytes, self.max_bytes),
            int_size: or_else(other.int_size, self.int_size),
            field_attributes: or_else(other.field_attributes, self.field_attributes),
            boxed: or_else(other.boxed, self.boxed),
            vec_type: or_else(other.vec_type, self.vec_type),
            string_type: or_else(other.string_type, self.string_type),
            map_type: or_else(other.map_type, self.map_type),
            optional_repr: or_else(other.optional_repr, self.optional_repr),
            custom_field: or_else(other.custom_field, self.custom_field),
            rename_field: other.rename_field,
            enum_int_size: or_else(other.enum_int_size, self.enum_int_size),
            type_attributes: or_else(other.type_attributes, self.type_attributes),
            no_debug_impl: or_else(other.no_debug_impl, self.no_debug_impl),
            no_default_impl: or_else(other.no_default_impl, self.no_default_impl),
            no_partial_eq_impl: or_else(other.no_partial_eq_impl, self.no_partial_eq_impl),
            no_clone_impl: or_else(other.no_clone_impl, self.no_clone_impl),
            unknown_handler: or_else(other.unknown_handler, self.unknown_handler),
            skip: or_else(other.skip, self.skip),
        }
    }
}

/// What an option value is checked to be.
enum OptionKind {
    Path,
    Type,
}

/// Checks an optional option value: nothing when unset, the value when it parses as
/// `kind`, else the failure message.
fn check_option(value: &Option<String>, option: &str, what: &str, kind: OptionKind) -> (r: Result<Option<String>, String>)
    ensures
        opt_result_text(r) == checked_option(
            opt_text(*value),
            |t: Seq<char>| match kind {
                OptionKind::Path => path_parse(t),
                OptionKind::Type => type_parse(t),
            },
            option@,
            what@,
        ),
{
    match value {
        None => Ok(None),
        Some(t) => {
            let res = match kind {
                OptionKind::Path => check_path(t.as_str()),
                OptionKind::Type => check_type(t.as_str()),
            };
            match checked_value(option, t.as_str(), what, res) {
                Ok(v) => Ok(Some(v)),
                Err(m) => Err(m),
            }
        },
    }
}

/// A copy of an optional string.
fn clone_opt_string(s: &Option<String>) -> (r: Option<String>)
    ensures
        opt_text(r) == opt_text(*s),
{
    match s {
        Some(t) => Some(t.clone()),
        None => None,
    }
}

impl Default for Config {
    fn default() -> (r: Self)
        ensures
            r@ == ConfigModel::empty(),
    {
        Config {
            max_len: None,
            max_bytes: None,
            int_size: None,
            field_attributes: None,
            boxed: None,
            vec_type: None,
            string_type: None,
            map_type: None,
            optional_repr: None,
            custom_field: None,
            rename_field: None,
            enum_int_size: None,
            type_attributes: None,
            no_debug_impl: None,
            no_default_impl: None,
            no_partial_eq_impl: None,
            no_clone_impl: None,
            unknown_handler: None,
            skip: None,
        }
    }
}

impl Clone for Config {
    fn clone(&self) -> (r: Self)
        ensures
            r@ == self@,
    {
        Config {
            max_len: self.max_len,
            max_bytes: self.max_bytes,
            int_size: self.int_size,
            field_attributes: clone_opt_string(&self.field_attributes),
            boxed: self.boxed,
            vec_type: clone_opt_string(&self.vec_type),
            string_type: clone_opt_string(&self.string_type),
            map_type: clone_opt_string(&self.map_type),
            optional_repr: self.optional_repr,
            custom_field: match &self.custom_field {
                Some(c) => Some(c.clone()),
                None => None,
            },
            rename_field: clone_opt_string(&self.rename_field),
            enum_int_size: self.enum_int_size,
            type_attributes: clone_opt_string(&self.type_attributes),
            no_debug_impl: self.no_debug_impl,
            no_default_impl: self.no_default_impl,
            no_partial_eq_impl: self.no_partial_eq_impl,
            no_clone_impl: self.no_clone_impl,
            unknown_handler: clone_opt_string(&self.unknown_handler),
            skip: self.skip,
        }
    }
}

impl Config {
    /// Create new config
    pub fn new() -> (r: Self)
        ensures
            r@ == ConfigModel::empty(),
    {
        Self::default()
    }

    /// Max number of elements for fixed-capacity repeated and `map` fields.
    pub fn max_len(self, val: u32) -> (r: Self)
        ensures
            r@ == (ConfigModel { max_len: Some(val), ..self@ }),
    {
        let mut c = self;
        c.max_len = Some(val);
        c
    }

    /// Max number of bytes for fixed-capacity `string` and `bytes` fields.
    pub fn max_bytes(self, val: u32) -> (r: Self)
        ensures
            r@ == (ConfigModel { max_bytes: Some(val), ..self@ }),
    {
        let mut c = self;
        c.max_bytes = Some(val);
        c
    }

    /// Override the integer type of integer fields such as `int32` or `fixed64`.
    pub fn int_size(self, val: IntSize) -> (r: Self)
        ensures
            r@ == (ConfigModel { int_size: Some(val), ..self@ }),
    {
        let mut c = self;
        c.int_size = Some(val);
        c
    }

    /// Set attributes for message fields.
    pub fn field_attributes(self, s: &str) -> (r: Self)
        ensures
            r@ == (ConfigModel { field_attributes: Some(s@), ..self@ }),
    {
        let mut c = self;
        c.field_attributes = Some(s.to_owned());
        c
    }

    /// Wrap the field in a `Box`.
    pub fn boxed(self, val: bool) -> (r: Self)
        ensures
            r@ == (ConfigModel { boxed: Some(val), ..self@ }),
    {
        let mut c = self;
        c.boxed = Some(val);
        c
    }

    /// Container type that's generated for `bytes` and repeated fields.
    pub fn vec_type(self, s: &str) -> (r: Self)
        ensures
            r@ == (ConfigModel { vec_type: Some(s@), ..self@ }),
    {
        let mut c = self;
        c.vec_type = Some(s.to_owned());
        c
    }

    /// Container type that's generated for `string` fields.
    pub fn string_type(self, s: &str) -> (r: Self)
        ensures
            r@ == (ConfigModel { string_type: Some(s@), ..self@ }),
    {
        let mut c = self;
        c.string_type = Some(s.to_owned());
        c
    }

    /// Container type that's generated for `map` fields.
    pub fn map_type(self, s: &str) -> (r: Self)
        ensures
            r@ == (ConfigModel { map_type: Some(s@), ..self@ }),
    {
        let mut c = self;
        c.map_type = Some(s.to_owned());
        c
    }

    /// Determine how optional fields are represented.
    pub fn optional_repr(self, val: OptionalRepr) -> (r: Self)
        ensures
            r@ == (ConfigModel { optional_repr: Some(val), ..self@ }),
    {
        let mut c = self;
        c.optional_repr = Some(val);
        c
    }

    /// Replace generated field with an user-provided type.
    pub fn custom_field(self, val: CustomField) -> (r: Self)
        ensures
            r@ == (ConfigModel { custom_field: Some(val@), ..self@ }),
    {
        let mut c = self;
        c.custom_field = Some(val);
        c
    }

    /// Rename a field in the generated Rust struct.
    pub fn rename_field(self, s: &str) -> (r: Self)
        ensures
            r@ == (ConfigModel { rename_field: Some(s@), ..self@ }),
    {
        let mut c = self;
        c.rename_field = Some(s.to_owned());
        c
    }

    /// Override the integer size of Protobuf enums.
    pub fn enum_int_size(self, val: IntSize) -> (r: Self)
        ensures
            r@ == (ConfigModel { enum_int_size: Some(val), ..self@ }),
    {
        let mut c = self;
        c.enum_int_size = Some(val);
        c
    }

    /// Set attributes for generated types, such as messages and enums.
    pub fn type_attributes(self, s: &str) -> (r: Self)
        ensures
            r@ == (ConfigModel { type_attributes: Some(s@), ..self@ }),
    {
        let mut c = self;
        c.type_attributes = Some(s.to_owned());
        c
    }

    /// Disable generating `Debug` trait derives for message types.
    pub fn no_debug_impl(self, val: bool) -> (r: Self)
        ensures
            r@ == (ConfigModel { no_debug_impl: Some(val), ..self@ }),
    {
        let mut c = self;
        c.no_debug_impl = Some(val);
        c
    }

    /// Disable generating `Default` trait impl for message types.
    pub fn no_default_impl(self, val: bool) -> (r: Self)
        ensures
            r@ == (ConfigModel { no_default_impl: Some(val), ..self@ }),
    {
        let mut c = self;
        c.no_default_impl = Some(val);
        c
    }

    /// Disable generating `PartialEq` trait derives for message types.
    pub fn no_partial_eq_impl(self, val: bool) -> (r: Self)
        ensures
            r@ == (ConfigModel { no_partial_eq_impl: Some(val), ..self@ }),
    {
        let mut c = self;
        c.no_partial_eq_impl = Some(val);
        c
    }

    /// Disable generating `Clone` trait derives for message types.
    pub fn no_clone_impl(self, val: bool) -> (r: Self)
        ensures
            r@ == (ConfigModel { no_clone_impl: Some(val), ..self@ }),
    {
        let mut c = self;
        c.no_clone_impl = Some(val);
        c
    }

    /// Add a custom handler on a message struct for handling unknown fields.
    pub fn unknown_handler(self, s: &str) -> (r: Self)
        ensures
            r@ == (ConfigModel { unknown_handler: Some(s@), ..self@ }),
    {
        let mut c = self;
        c.unknown_handler = Some(s.to_owned());
        c
    }

    /// Skip generating a type or field
    pub fn skip(self, val: bool) -> (r: Self)
        ensures
            r@ == (ConfigModel { skip: Some(val), ..self@ }),
    {
        let mut c = self;
        c.skip = Some(val);
        c
    }

    /// The field attributes, checked to parse as Rust attributes; unset reads as none.
    pub fn field_attr_parsed(&self) -> (r: Result<String, String>)
        ensures
            match attributes_parse(text_or_empty(self@.field_attributes)) {
                Ok(()) => r matches Ok(t) && t@ == text_or_empty(self@.field_attributes),
                Err(e) => r matches Err(m) && m@ == parse_failure(
                    "field_attributes"@,
                    text_or_empty(self@.field_attributes),
                    "Rust attributes"@,
                    e,
                ),
            },
    {
        let s = match &self.field_attributes {
            Some(t) => t.clone(),
            None => String::new(),
        };
        let check = check_attributes(s.as_str());
        checked_value("field_attributes", s.as_str(), "Rust attributes", check)
    }

    /// The type attributes, checked to parse as Rust attributes; unset reads as none.
    pub fn type_attr_parsed(&self) -> (r: Result<String, String>)
        ensures
            match attributes_parse(text_or_empty(self@.type_attributes)) {
                Ok(()) => r matches Ok(t) && t@ == text_or_empty(self@.type_attributes),
                Err(e) => r matches Err(m) && m@ == parse_failure(
                    "type_attributes"@,
                    text_or_empty(self@.type_attributes),
                    "Rust attributes"@,
                    e,
                ),
            },
    {
        let s = match &self.type_attributes {
            Some(t) => t.clone(),
            None => String::new(),
        };
        let check = check_attributes(s.as_str());
        checked_value("type_attributes", s.as_str(), "Rust attributes", check)
    }

    /// The name of the generated field for the Protobuf field `name`, and its identifier:
    /// the `rename_field` option, as a raw identifier that must parse, when it is set;
    /// else `name` as a raw identifier.
    pub fn rust_field_name(&self, name: &str) -> (r: Result<(String, RustIdent), String>)
        ensures
            match self@.rename_field {
                Some(s) => match ident_parse(seq!['r', '#'] + s) {
                    Ok(()) => r matches Ok((n, id)) && n@ == s && id.name@ == s && id.raw,
                    Err(e) => r matches Err(m) && m@ == parse_failure("rename_field"@, s, "identifier"@, e),
                },
                None => r matches Ok((n, id)) && n@ == name@ && id.name@ == name@ && id.raw,
            },
    {
        match &self.rename_field {
            Some(s) => {
                let mut raw = String::new();
                push_char(&mut raw, 'r');
                push_char(&mut raw, '#');
                raw.append(s.as_str());
                assert(raw@ =~= seq!['r', '#'] + s@);
                match checked_value("rename_field", s.as_str(), "identifier", check_ident(raw.as_str())) {
                    Ok(n) => Ok((n, RustIdent { name: s.clone(), raw: true })),
                    Err(m) => Err(m),
                }
            },
            None => Ok((to_string(name), RustIdent { name: to_string(name), raw: true })),
        }
    }

    /// The `vec_type` option, checked to parse as a type path.
    pub fn vec_type_parsed(&self) -> (r: Result<Option<String>, String>)
        ensures
            opt_result_text(r) == checked_option(
                self@.vec_type,
                |t: Seq<char>| path_parse(t),
                "vec_type"@,
                "type path"@,
            ),
    {
        check_option(&self.vec_type, "vec_type", "type path", OptionKind::Path)
    }

    /// The `string_type` option, checked to parse as a type path.
    pub fn string_type_parsed(&self) -> (r: Result<Option<String>, String>)
        ensures
            opt_result_text(r) == checked_option(
                self@.string_type,
                |t: Seq<char>| path_parse(t),
                "string_type"@,
                "type path"@,
            ),
    {
        check_option(&self.string_type, "string_type", "type path", OptionKind::Path)
    }

    /// The `map_type` option, checked to parse as a type path.
    pub fn map_type_parsed(&self) -> (r: Result<Option<String>, String>)
        ensures
            opt_result_text(r) == checked_option(
                self@.map_type,
                |t: Seq<char>| path_parse(t),
                "map_type"@,
                "type path"@,
            ),
    {
        check_option(&self.map_type, "map_type", "type path", OptionKind::Path)
    }

    /// The `unknown_handler` option, checked to parse as a Rust type.
    pub fn unknown_handler_parsed(&self) -> (r: Result<Option<String>, String>)
        ensures
            opt_result_text(r) == checked_option(
                self@.unknown_handler,
                |t: Seq<char>| type_parse(t),
                "unknown_handler"@,
                "Rust type"@,
            ),
    {
        check_option(&self.unknown_handler, "unknown_handler", "Rust type", OptionKind::Type)
    }

    /// The `custom_field` option, checked: a custom type must parse as a Rust type, a
    /// delegate as an identifier.
    pub fn custom_field_parsed(&self) -> (r: Result<Option<CustomField>, String>)
        ensures
            match self@.custom_field {
                None => r matches Ok(None),
                Some(CustomFieldModel::Type(s)) => match type_parse(s) {
                    Ok(()) => r matches Ok(Some(c)) && c@ == CustomFieldModel::Type(s),
                    Err(e) => r matches Err(m) && m@ == parse_failure("custom field"@, s, "Rust type"@, e),
                },
                Some(CustomFieldModel::Delegate(s)) => match ident_parse(s) {
                    Ok(()) => r matches Ok(Some(c)) && c@ == CustomFieldModel::Delegate(s),
                    Err(e) => r matches Err(m) && m@ == parse_failure("custom delegate"@, s, "identifier"@, e),
                },
            },
    {
        match &self.custom_field {
            Some(CustomField::Type(s)) => match checked_value("custom field", s.as_str(), "Rust type", check_type(s.as_str())) {
                Ok(v) => Ok(Some(CustomField::Type(v))),
                Err(m) => Err(m),
            },
            Some(CustomField::Delegate(s)) => match checked_value("custom delegate", s.as_str(), "identifier", check_ident(s.as_str())) {
                Ok(v) => Ok(Some(CustomField::Delegate(v))),
                Err(m) => Err(m),
            },
            None => Ok(None),
        }
    }

    /// Lays `other` over this configuration: each option that `other` sets replaces the one
    /// here, and `rename_field` is taken from `other` whether it is set or not.
    pub fn merge(&mut self, other: &Self)
        ensures
            final(self)@ == old(self)@.merged(other@),
    {
        self.max_len = overlay(other.max_len, self.max_len);
        self.max_bytes = overlay(other.max_bytes, self.max_bytes);
        self.int_size = overlay(other.int_size, self.int_size);
        self.field_attributes = overlay_string(&other.field_attributes, self.field_attributes.take());
        self.boxed = overlay(other.boxed, self.boxed);
        self.vec_type = overlay_string(&other.vec_type, self.vec_type.take());
        self.string_type = overlay_string(&other.string_type, self.string_type.take());
        self.map_type = overlay_string(&other.map_type, self.map_type.take());
        self.optional_repr = overlay(other.optional_repr, self.optional_repr);
        self.custom_field = match &other.custom_field {
            Some(v) => Some(v.clone()),
            None => self.custom_field.take(),
        };
        self.rename_field = clone_opt_string(&other.rename_field);
        self.enum_int_size = overlay(other.enum_int_size, self.enum_int_size);
        self.type_attributes = overlay_string(&other.type_attributes, self.type_attributes.take());
        self.no_debug_impl = overlay(other.no_debug_impl, self.no_debug_impl);
        self.no_default_impl = overlay(other.no_default_impl, self.no_default_impl);
        self.no_partial_eq_impl = overlay(other.no_partial_eq_impl, self.no_partial_eq_impl);
        self.no_clone_impl = overlay(other.no_clone_impl, self.no_clone_impl);
        self.unknown_handler = overlay_string(&other.unknown_handler, self.unknown_handler.take());
        self.skip = overlay(other.skip, self.skip);
    }
}

/// `b` where it is set, else `a`.
fn overlay<T: Copy>(b: Option<T>, a: Option<T>) -> (r: Option<T>)
    ensures
        r == or_else(b, a),
{
    match b {
        Some(v) => Some(v),
        None => a,
    }
}

/// A copy of `b` where it is set, else `a`.
fn overlay_string(b: &Option<String>, a: Option<String>) -> (r: Option<String>)
    ensures
        opt_text(r) == or_else(opt_text(*b), opt_text(a)),
{
    match b {
        Some(v) => Some(v.clone()),
        None => a,
    }
}


/// How `syn` parses `s` as zero or more outer attributes: success, or the text of its error.
pub uninterp spec fn attributes_parse(s: Seq<char>) -> Result<(), Seq<char>>;

/// How `syn` parses `s` as a path: success, or the text of its error.
pub uninterp spec fn path_parse(s: Seq<char>) -> Result<(), Seq<char>>;

/// How `syn` parses `s` as a type: success, or the text of its error.
pub uninterp spec fn type_parse(s: Seq<char>) -> Result<(), Seq<char>>;

/// How `syn` parses `s` as an identifier: success, or the text of its error.
pub uninterp spec fn ident_parse(s: Seq<char>) -> Result<(), Seq<char>>;

/// Parses `s` with `syn::Attribute::parse_outer`, through `syn::parse::Parser::parse_str`,
/// which reads the whole string as outer attributes. The parsed attributes are dropped;
/// the error becomes its text.
#[verifier::external_body]
fn check_attributes(s: &str) -> (r: Result<(), String>)
    ensures
        match attributes_parse(s@) {
            Ok(()) => r is Ok,
            Err(t) => r matches Err(e) && e@ == t,
        },
{
    match syn::parse::Parser::parse_str(syn::Attribute::parse_outer, s) {
        Ok(_) => Ok(()),
        Err(e) => Err(e.to_string()),
    }
}

/// Parses `s` with `syn::parse_str::<syn::Path>`. The parsed path is dropped; the error
/// becomes its text.
#[verifier::external_body]
fn check_path(s: &str) -> (r: Result<(), String>)
    ensures
        match path_parse(s@) {
            Ok(()) => r is Ok,
            Err(t) => r matches Err(e) && e@ == t,
        },
{
    match syn::parse_str::<syn::Path>(s) {
        Ok(_) => Ok(()),
        Err(e) => Err(e.to_string()),
    }
}

/// Parses `s` with `syn::parse_str::<syn::Type>`. The parsed type is dropped; the error
/// becomes its text.
#[verifier::external_body]
fn check_type(s: &str) -> (r: Result<(), String>)
    ensures
        match type_parse(s@) {
            Ok(()) => r is Ok,
            Err(t) => r matches Err(e) && e@ == t,
        },
{
    match syn::parse_str::<syn::Type>(s) {
        Ok(_) => Ok(()),
        Err(e) => Err(e.to_string()),
    }
}

/// Parses `s` with `syn::parse_str::<syn::Ident>`. The parsed identifier is dropped; the
/// error becomes its text.
#[verifier::external_body]
fn check_ident(s: &str) -> (r: Result<(), String>)
    ensures
        match ident_parse(s@) {
            Ok(()) => r is Ok,
            Err(t) => r matches Err(e) && e@ == t,
        },
{
    match syn::parse_str::<syn::Ident>(s) {
        Ok(_) => Ok(()),
        Err(e) => Err(e.to_string()),
    }
}

/// The message for an option value that does not parse: which option, its value, what it
/// should have parsed as, and why it did not.
pub open spec fn parse_failure(option: Seq<char>, value: Seq<char>, what: Seq<char>, err: Seq<char>) -> Seq<char> {
    "Failed to parse "@ + option + " \""@ + value + "\" as "@ + what + ": "@ + err
}

/// The message for an option value that does not parse.
pub fn parse_failure_text(option: &str, value: &str, what: &str, err: &str) -> (r: String)
    ensures
        r@ == parse_failure(option@, value@, what@, err@),
{
    let mut t = to_string("Failed to parse ");
    t.append(option);
    t.append(" \"");
    t.append(value);
    t.append("\" as ");
    t.append(what);
    t.append(": ");
    t.append(err);
    assert(t@ =~= parse_failure(option@, value@, what@, err@));
    t
}

/// The outcome of checking the value of an option: the value when the check passed, else
/// the message that names the option and the value, what the value should have parsed
/// as, and the check's own error.
pub fn checked_value(option: &str, value: &str, what: &str, check: Result<(), String>) -> (r: Result<String, String>)
    ensures
        match check {
            Ok(()) => r matches Ok(t) && t@ == value@,
            Err(e) => r matches Err(m) && m@ == parse_failure(option@, value@, what@, e@),
        },
{
    match check {
        Ok(()) => Ok(to_string(value)),
        Err(e) => Err(parse_failure_text(option, value, what, e.as_str())),
    }
}

/// The value of an optional text option, or the empty text.
pub open spec fn text_or_empty(s: Option<Seq<char>>) -> Seq<char> {
    match s {
        Some(t) => t,
        None => Seq::empty(),
    }
}

/// What checking an optional option value gives: nothing when unset, the value when it
/// parses, else the failure message.
pub open spec fn checked_option(
    value: Option<Seq<char>>,
    parse: spec_fn(Seq<char>) -> Result<(), Seq<char>>,
    option: Seq<char>,
    what: Seq<char>,
) -> Result<Option<Seq<char>>, Seq<char>> {
    match value {
        None => Ok(None),
        Some(t) => match parse(t) {
            Ok(()) => Ok(Some(t)),
            Err(e) => Err(parse_failure(option, t, what, e)),
        },
    }
}

/// The text of an optional result of text.
pub open spec fn opt_result_text(r: Result<Option<String>, String>) -> Result<Option<Seq<char>>, Seq<char>> {
    match r {
        Ok(Some(s)) => Ok(Some(s@)),
        Ok(None) => Ok(None),
        Err(e) => Err(e@),
    }
}

/// Merging lays the more specific configuration `b` over `a`: every option that `b` sets is
/// taken from `b`, every option that `b` leaves unset is kept from `a`, and `rename_field`,
/// which applies to one path only, is always `b`'s.
pub proof fn lemma_merge_other_wins(a: ConfigModel, b: ConfigModel)
    ensures
        b.max_len is Some ==> a.merged(b).max_len == b.max_len,
        b.max_len is None ==> a.merged(b).max_len == a.max_len,
        b.max_bytes is Some ==> a.merged(b).max_bytes == b.max_bytes,
        b.max_bytes is None ==> a.merged(b).max_bytes == a.max_bytes,
        b.int_size is Some ==> a.merged(b).int_size == b.int_size,
        b.int_size is None ==> a.merged(b).int_size == a.int_size,
        b.field_attributes is Some ==> a.merged(b).field_attributes == b.field_attributes,
        b.field_attributes is None ==> a.merged(b).field_attributes == a.field_attributes,
        b.boxed is Some ==> a.merged(b).boxed == b.boxed,
        b.boxed is None ==> a.merged(b).boxed == a.boxed,
        b.vec_type is Some ==> a.merged(b).vec_type == b.vec_type,
        b.vec_type is None ==> a.merged(b).vec_type == a.vec_type,
        b.string_type is Some ==> a.merged(b).string_type == b.string_type,
        b.string_type is None ==> a.merged(b).string_type == a.string_type,
        b.map_type is Some ==> a.merged(b).map_type == b.map_type,
        b.map_type is None ==> a.merged(b).map_type == a.map_type,
        b.optional_repr is Some ==> a.merged(b).optional_repr == b.optional_repr,
        b.optional_repr is None ==> a.merged(b).optional_repr == a.optional_repr,
        b.custom_field is Some ==> a.merged(b).custom_field == b.custom_field,
        b.custom_field is None ==> a.merged(b).custom_field == a.custom_field,
        b.enum_int_size is Some ==> a.merged(b).enum_int_size == b.enum_int_size,
        b.enum_int_size is None ==> a.merged(b).enum_int_size == a.enum_int_size,
        b.type_attributes is Some ==> a.merged(b).type_attributes == b.type_attributes,
        b.type_attributes is None ==> a.merged(b).type_attributes == a.type_attributes,
        b.no_debug_impl is Some ==> a.merged(b).no_debug_impl == b.no_debug_impl,
        b.no_debug_impl is None ==> a.merged(b).no_debug_impl == a.no_debug_impl,
        b.no_default_impl is Some ==> a.merged(b).no_default_impl == b.no_default_impl,
        b.no_default_impl is None ==> a.merged(b).no_default_impl == a.no_default_impl,
        b.no_partial_eq_impl is Some ==> a.merged(b).no_partial_eq_impl == b.no_partial_eq_impl,
        b.no_partial_eq_impl is None ==> a.merged(b).no_partial_eq_impl == a.no_partial_eq_impl,
        b.no_clone_impl is Some ==> a.merged(b).no_clone_impl == b.no_clone_impl,
        b.no_clone_impl is None ==> a.merged(b).no_clone_impl == a.no_clone_impl,
        b.unknown_handler is Some ==> a.merged(b).unknown_handler == b.unknown_handler,
        b.unknown_handler is None ==> a.merged(b).unknown_handler == a.unknown_handler,
        b.skip is Some ==> a.merged(b).skip == b.skip,
        b.skip is None ==> a.merged(b).skip == a.skip,
        a.merged(b).rename_field == b.rename_field,
{
}

/// Laying the empty configuration over `c` keeps every option of `c` but
/// `rename_field`, which it clears.
pub proof fn lemma_merge_empty_right(c: ConfigModel)
    ensures
        c.merged(ConfigModel::empty()) == (ConfigModel { rename_field: None, ..c }),
{
}

/// Laying `c` over the empty configuration gives `c`.
pub proof fn lemma_merge_empty_left(c: ConfigModel)
    ensures
        ConfigModel::empty().merged(c) == c,
{
}

/// Merging is associative: laying `b` then `c` over `a` is laying over `a` what `c`
/// laid over `b` gives.
pub proof fn lemma_merge_assoc(a: ConfigModel, b: ConfigModel, c: ConfigModel)
    ensures
        a.merged(b).merged(c) == a.merged(b.merged(c)),
{
}

/// Laying the same configuration twice is laying it once.
pub proof fn lemma_merge_idempotent(a: ConfigModel, b: ConfigModel)
    ensures
        a.merged(b).merged(b) == a.merged(b),
{
}

} // verus!
