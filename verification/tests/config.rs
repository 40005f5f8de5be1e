use quote::ToTokens;
use micropb_gen::config::{checked_value, parse_failure_text, Config, CustomField, IntSize, OptionalRepr};

#[test]
fn merge() {
    let mut mergee = Config::new()
        .rename_field("rename")
        .skip(true)
        .vec_type("vec")
        .string_type("str");
    let merger = Config::new().skip(false).vec_type("array");
    mergee.merge(&merger);

    assert!(!mergee.skip.unwrap());
    assert_eq!(mergee.vec_type.unwrap(), "array");
    assert_eq!(mergee.string_type.unwrap(), "str");
    // max_len was never set
    assert!(mergee.max_len.is_none());
    // rename_field gets overwritten unconditionally when merging
    assert!(mergee.rename_field.is_none());
}

#[test]
fn builder_sets_each_option() {
    let c = Config::new()
        .max_len(5)
        .max_bytes(7)
        .int_size(IntSize::S16)
        .field_attributes("#[a]")
        .boxed(true)
        .vec_type("Vec")
        .string_type("String")
        .map_type("BTreeMap")
        .optional_repr(OptionalRepr::Option)
        .custom_field(CustomField::Delegate("foo".to_owned()))
        .rename_field("bar")
        .enum_int_size(IntSize::S8)
        .type_attributes("#[b]")
        .no_debug_impl(true)
        .no_default_impl(true)
        .no_partial_eq_impl(false)
        .no_clone_impl(true)
        .unknown_handler("Handler")
        .skip(false);
    assert_eq!(c.max_len, Some(5));
    assert_eq!(c.max_bytes, Some(7));
    assert_eq!(c.int_size, Some(IntSize::S16));
    assert_eq!(c.field_attributes.as_deref(), Some("#[a]"));
    assert_eq!(c.boxed, Some(true));
    assert_eq!(c.vec_type.as_deref(), Some("Vec"));
    assert_eq!(c.string_type.as_deref(), Some("String"));
    assert_eq!(c.map_type.as_deref(), Some("BTreeMap"));
    assert_eq!(c.optional_repr, Some(OptionalRepr::Option));
    assert!(matches!(c.custom_field, Some(CustomField::Delegate(ref s)) if s == "foo"));
    assert_eq!(c.rename_field.as_deref(), Some("bar"));
    assert_eq!(c.enum_int_size, Some(IntSize::S8));
    assert_eq!(c.type_attributes.as_deref(), Some("#[b]"));
    assert_eq!(c.no_debug_impl, Some(true));
    assert_eq!(c.no_default_impl, Some(true));
    assert_eq!(c.no_partial_eq_impl, Some(false));
    assert_eq!(c.no_clone_impl, Some(true));
    assert_eq!(c.unknown_handler.as_deref(), Some("Handler"));
    assert_eq!(c.skip, Some(false));
}

#[test]
fn merge_is_associative_on_an_example() {
    let a = || Config::new().max_len(1).vec_type("A").rename_field("a");
    let b = || Config::new().max_len(2).boxed(true);
    let c = || Config::new().vec_type("C").rename_field("c");
    let mut left = a();
    left.merge(&b());
    left.merge(&c());
    let mut bc = b();
    bc.merge(&c());
    let mut right = a();
    right.merge(&bc);
    assert_eq!(left.max_len, right.max_len);
    assert_eq!(left.max_len, Some(2));
    assert_eq!(left.vec_type, right.vec_type);
    assert_eq!(left.vec_type.as_deref(), Some("C"));
    assert_eq!(left.boxed, right.boxed);
    assert_eq!(left.rename_field, right.rename_field);
    assert_eq!(left.rename_field.as_deref(), Some("c"));
}

#[test]
fn merge_with_empty_clears_only_rename() {
    let mut c = Config::new().max_len(3).rename_field("r").skip(true);
    c.merge(&Config::new());
    assert_eq!(c.max_len, Some(3));
    assert_eq!(c.skip, Some(true));
    assert!(c.rename_field.is_none());
}

#[test]
fn int_type_names() {
    assert_eq!(IntSize::S8.type_name_(true), "i8");
    assert_eq!(IntSize::S8.type_name_(false), "u8");
    assert_eq!(IntSize::S16.type_name_(true), "i16");
    assert_eq!(IntSize::S16.type_name_(false), "u16");
    assert_eq!(IntSize::S32.type_name_(true), "i32");
    assert_eq!(IntSize::S32.type_name_(false), "u32");
    assert_eq!(IntSize::S64.type_name_(true), "i64");
    assert_eq!(IntSize::S64.type_name_(false), "u64");
}

fn path_tokens(s: &str) -> String {
    syn::parse_str::<syn::Path>(s).unwrap().to_token_stream().to_string()
}

fn attr_tokens(s: &str) -> String {
    let attrs = syn::parse::Parser::parse_str(syn::Attribute::parse_outer, s).unwrap();
    let mut ts = proc_macro2::TokenStream::new();
    for a in &attrs {
        a.to_tokens(&mut ts);
    }
    ts.to_string()
}

#[test]
fn parse() {
    let mut config = Config::new()
        .vec_type("heapless::Vec")
        .string_type("heapless::String")
        .map_type("Map")
        .type_attributes("#[derive(Hash)]");

    assert_eq!(path_tokens(&config.vec_type_parsed().unwrap().unwrap()), "heapless :: Vec");
    assert_eq!(path_tokens(&config.string_type_parsed().unwrap().unwrap()), "heapless :: String");
    assert_eq!(path_tokens(&config.map_type_parsed().unwrap().unwrap()), "Map");
    assert_eq!(attr_tokens(&config.type_attr_parsed().unwrap()), "# [derive (Hash)]");

    assert_eq!(attr_tokens(&config.field_attr_parsed().unwrap()), "");
    config.field_attributes = Some("#[default] #[delete]".to_owned());
    assert_eq!(attr_tokens(&config.field_attr_parsed().unwrap()), "# [default] # [delete]");

    let (name, ident) = config.rust_field_name("name").unwrap();
    assert_eq!((name.as_str(), ident.text().as_str()), ("name", "r#name"));
    config.rename_field = Some("rename".to_string());
    let (name, ident) = config.rust_field_name("name").unwrap();
    assert_eq!((name.as_str(), ident.text().as_str()), ("rename", "r#rename"));

    config.custom_field = Some(CustomField::Type("Vec<u16, 4>".to_owned()));
    let Some(CustomField::Type(typ)) = config.custom_field_parsed().unwrap() else {
        unreachable!()
    };
    assert_eq!(
        syn::parse_str::<syn::Type>(&typ).unwrap().to_token_stream().to_string(),
        "Vec < u16 , 4 >"
    );

    config.custom_field = Some(CustomField::Delegate("name".to_owned()));
    let Some(CustomField::Delegate(del)) = config.custom_field_parsed().unwrap() else {
        unreachable!()
    };
    assert_eq!(syn::parse_str::<syn::Ident>(&del).unwrap(), "name");
}

#[test]
fn parsed_options_keep_their_text() {
    let mut config = Config::new().vec_type("heapless::Vec");
    assert_eq!(config.vec_type_parsed().unwrap().as_deref(), Some("heapless::Vec"));
    assert_eq!(config.unknown_handler_parsed().unwrap(), None);
    config.custom_field = Some(CustomField::Delegate("name".to_owned()));
    assert!(matches!(config.custom_field_parsed().unwrap(), Some(CustomField::Delegate(ref s)) if s == "name"));
}

#[test]
fn parse_failures_name_the_option() {
    let config = Config::new().vec_type("1 + 2").unknown_handler("+").field_attributes("#[");
    let e = config.vec_type_parsed().unwrap_err();
    assert!(e.starts_with("Failed to parse vec_type \"1 + 2\" as type path: "), "{e}");
    let e = config.unknown_handler_parsed().unwrap_err();
    assert!(e.starts_with("Failed to parse unknown_handler \"+\" as Rust type: "), "{e}");
    let e = config.field_attr_parsed().unwrap_err();
    assert!(e.starts_with("Failed to parse field_attributes \"#[\" as Rust attributes: "), "{e}");
    let config = Config::new().rename_field("self");
    let e = config.rust_field_name("x").unwrap_err();
    assert!(e.starts_with("Failed to parse rename_field \"self\" as identifier: "), "{e}");
    let config = Config::new().custom_field(CustomField::Delegate("a b".to_owned()));
    let e = config.custom_field_parsed().unwrap_err();
    assert!(e.starts_with("Failed to parse custom delegate \"a b\" as identifier: "), "{e}");
    let config = Config::new().custom_field(CustomField::Type("<".to_owned()));
    let e = config.custom_field_parsed().unwrap_err();
    assert!(e.starts_with("Failed to parse custom field \"<\" as Rust type: "), "{e}");
}

#[test]
fn checked_values_name_the_option() {
    assert_eq!(checked_value("vec_type", "Vec", "type path", Ok(())), Ok("Vec".to_owned()));
    assert_eq!(
        checked_value("vec_type", "1x", "type path", Err("expected identifier".to_owned())),
        Err("Failed to parse vec_type \"1x\" as type path: expected identifier".to_owned())
    );
    assert_eq!(
        parse_failure_text("rename_field", "a b", "identifier", "unexpected token"),
        "Failed to parse rename_field \"a b\" as identifier: unexpected token"
    );
}
