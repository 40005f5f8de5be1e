use micropb_gen::error::{field_error, msg_error, pkg_error, Error};

#[test]
fn error_messages() {
    assert_eq!(Error::Protoc("boom".to_owned()).message(), "protoc failed: boom");
    assert_eq!(field_error("pkg", "Msg", "f", "bad").message(), "(.pkg.Msg.f) bad");
    assert_eq!(msg_error("", "Msg", "bad").message(), "(.Msg) bad");
    assert_eq!(pkg_error("a.b", "bad").message(), "(.a.b) bad");
    assert_eq!(pkg_error("", "bad").message(), "() bad");
    let io = std::io::Error::other("disk");
    let e: Error = io.into();
    assert!(matches!(e, Error::Io(_)));
    assert_eq!(e.message(), "disk");
}
