use micropb_gen::config::Config;
use micropb_gen::descriptor::google_::protobuf_::FileDescriptorProto;
use micropb_gen::generator::{
    derive_enum_attr, derive_msg_attr, field_error, msg_error, variant_ident, Context,
    CurrentConfig, Params, ResolvedType, Syntax,
};
use micropb_gen::ident::{resolve_path_elem, sanitized_ident, sanitized_ident_as, RustIdent};

fn make_ctx() -> Context {
    Context::new(Params {
        extern_paths: Vec::new(),
        calculate_max_size: false,
        retain_enum_prefix: false,
        suffixed_package_names: false,
        single_oneof_msg_as_enum: false,
    })
}

#[test]
fn enum_variant_name() {
    let mut ctx = make_ctx();
    let enum_name = RustIdent { name: "Enum".to_owned(), raw: false };
    assert_eq!(ctx.enum_variant_name("ENUM_VALUE", &enum_name).text(), "Value");
    assert_eq!(ctx.enum_variant_name("ALIEN", &enum_name).text(), "Alien");

    ctx.params.retain_enum_prefix = true;
    assert_eq!(ctx.enum_variant_name("ENUM_VALUE", &enum_name).text(), "EnumValue");
}

#[test]
fn resolve_type_name() {
    let mut ctx = make_ctx();
    ctx.params.suffixed_package_names = true;
    // currently in root-level module
    assert_eq!(ctx.resolve_type_name(".Message").text(), "Message");
    assert_eq!(ctx.resolve_type_name(".package.Message").text(), "package_ :: Message");
    assert_eq!(
        ctx.resolve_type_name(".package.Message.Inner").text(),
        "package_ :: Message_ :: Inner"
    );

    ctx.pkg_path.push("package".to_owned());
    ctx.type_path.push("Message".to_owned());
    // currently in package::mod_Message module
    assert_eq!(ctx.resolve_type_name(".Message").text(), "super :: super :: Message");
    assert_eq!(ctx.resolve_type_name(".package.Message").text(), "super :: Message");
    assert_eq!(
        ctx.resolve_type_name(".Message.Item").text(),
        "super :: super :: Message_ :: Item"
    );
    assert_eq!(ctx.resolve_type_name(".package.Message.Inner").text(), "Inner");
    assert_eq!(ctx.resolve_type_name(".abc.d").text(), "super :: super :: abc_ :: r#d");
}

#[test]
fn resolve_type_name_unsuffixed_and_extern() {
    let mut ctx = make_ctx();
    assert_eq!(ctx.resolve_type_name(".pkg.Msg").text(), "r#pkg :: Msg");
    assert_eq!(ctx.resolve_type_name(".super.Msg").text(), "super_ :: Msg");
    ctx.params.extern_paths.push((".pkg.Msg".to_owned(), "crate::Other".to_owned()));
    ctx.params.extern_paths.push((".pkg.Msg".to_owned(), "crate::Later".to_owned()));
    match ctx.resolve_type_name(".pkg.Msg") {
        ResolvedType::Extern(p) => assert_eq!(p, "crate::Later"),
        other => panic!("expected an extern path, got {other:?}"),
    }
    assert_eq!(ctx.resolve_type_name(".pkg.Other").text(), "r#pkg :: Other");
}

#[test]
fn fq_proto_name_joins_scope() {
    let mut ctx = make_ctx();
    assert_eq!(ctx.fq_proto_name("Msg"), ".Msg");
    ctx.pkg_path.push("a".to_owned());
    ctx.pkg_path.push("b".to_owned());
    ctx.type_path.push("Outer".to_owned());
    assert_eq!(ctx.fq_proto_name("Inner"), ".a.b.Outer.Inner");
    // A type named from the current scope resolves to its own identifier
    let fq = ctx.fq_proto_name("Inner");
    assert_eq!(ctx.resolve_type_name(&fq).text(), "Inner");
}

#[test]
fn setup_file_context_reads_syntax_and_package() {
    let mut ctx = make_ctx();
    let mut fd = FileDescriptorProto::default();
    fd.syntax = "proto3".to_owned();
    fd.set_package("foo.bar".to_owned());
    ctx.type_path.push("Stale".to_owned());
    ctx.setup_file_context(&fd).unwrap();
    assert_eq!(ctx.syntax, Syntax::Proto3);
    assert_eq!(ctx.pkg_path, vec!["foo".to_owned(), "bar".to_owned()]);
    assert_eq!(ctx.pkg, "foo.bar");
    assert!(ctx.type_path.is_empty());

    let mut fd = FileDescriptorProto::default();
    fd.syntax = String::new();
    ctx.setup_file_context(&fd).unwrap();
    assert_eq!(ctx.syntax, Syntax::Proto2);
    assert!(ctx.pkg_path.is_empty());
    assert_eq!(ctx.pkg, "");

    fd.syntax = "editions".to_owned();
    assert_eq!(ctx.setup_file_context(&fd).unwrap_err(), "Protobuf Editions not supported");
    fd.syntax = "proto4".to_owned();
    assert_eq!(
        ctx.setup_file_context(&fd).unwrap_err(),
        "Unexpected Protobuf syntax specifier proto4"
    );
    assert_eq!(ctx.syntax, Syntax::Proto2);
}

#[test]
fn identifiers_are_sanitized() {
    assert_eq!(sanitized_ident("_").text(), "__");
    assert_eq!(sanitized_ident("super").text(), "_super");
    assert_eq!(sanitized_ident("Self").text(), "_Self");
    assert_eq!(sanitized_ident("1st").text(), "_1st");
    assert_eq!(sanitized_ident("type").text(), "r#type");
    assert_eq!(sanitized_ident("Name").text(), "Name");
    assert_eq!(sanitized_ident("").text(), "");
    assert_eq!(resolve_path_elem("foo", true).text(), "foo_");
    assert_eq!(resolve_path_elem("foo", false).text(), "r#foo");
    assert_eq!(resolve_path_elem("crate", false).text(), "crate_");
}

#[test]
fn variant_ident_strips_enum_name() {
    assert_eq!(variant_ident("ColorRed", "Color", false).text(), "Red");
    assert_eq!(variant_ident("ColorRed", "Color", true).text(), "ColorRed");
    assert_eq!(variant_ident("Red", "Color", false).text(), "Red");
    assert_eq!(variant_ident("Color1", "Color", false).text(), "_1");
}

#[test]
fn wrapped_types_and_values() {
    let ctx = make_ctx();
    assert_eq!(ctx.wrapped_type("T", false, false), "T");
    assert_eq!(ctx.wrapped_type("T", true, false), "::alloc::boxed::Box<T>");
    assert_eq!(ctx.wrapped_type("T", false, true), "::core::option::Option<T>");
    assert_eq!(
        ctx.wrapped_type("T", true, true),
        "::core::option::Option<::alloc::boxed::Box<T>>"
    );
    assert_eq!(ctx.wrapped_value("v", false, false), "v");
    assert_eq!(
        ctx.wrapped_value("v", true, true),
        "::core::option::Option::Some(::alloc::boxed::Box::new(v))"
    );
}

#[test]
fn derive_lists() {
    assert_eq!(
        derive_msg_attr(true, true, true, true, true),
        vec!["Debug", "Default", "PartialEq", "Clone", "Copy"]
    );
    assert_eq!(derive_msg_attr(false, true, false, false, true), vec!["Default"]);
    assert_eq!(derive_msg_attr(true, false, false, true, false), vec!["Debug", "Clone"]);
    assert_eq!(
        derive_enum_attr(),
        vec!["Debug", "Clone", "Copy", "PartialEq", "Eq", "Hash"]
    );
}

#[test]
fn current_config_flags() {
    let cur = CurrentConfig { config: Config::new().no_debug_impl(true).no_clone_impl(false) };
    assert!(!cur.derive_dbg());
    assert!(cur.impl_default());
    assert!(cur.derive_partial_eq());
    assert!(cur.derive_clone());
}

#[test]
fn error_texts() {
    assert_eq!(field_error("pkg", "Msg", "f", "bad"), "(.pkg.Msg.f) bad");
    assert_eq!(field_error("", "Msg", "f", "bad"), "(.Msg.f) bad");
    assert_eq!(msg_error("a.b", "Msg", "oops"), "(.a.b.Msg) oops");
    assert_eq!(msg_error("", "Msg", "oops"), "(.Msg) oops");
}

#[test]
fn identifiers_sanitized_from_first_char_class() {
    assert_eq!(sanitized_ident_as("9lives", true, false).text(), "_9lives");
    assert_eq!(sanitized_ident_as("name", false, true).text(), "r#name");
    assert_eq!(sanitized_ident_as("Name", false, false).text(), "Name");
    assert_eq!(sanitized_ident_as("self", false, true).text(), "_self");
    assert_eq!(sanitized_ident_as("", true, true).text(), "");
}
