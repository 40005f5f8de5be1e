use micropb_gen::descriptor::google_::protobuf_::{
    DescriptorProto, Edition, FieldDescriptorProto, FieldOptions, FileDescriptorProto, FileDescriptorSet,
    FileOptions, SourceCodeInfo, UninterpretedOption,
};
use micropb_gen::descriptor::google_::protobuf_::DescriptorProto_::ExtensionRange;
use micropb_gen::descriptor::google_::protobuf_::FieldDescriptorProto_::{Label, Type};
use micropb_gen::descriptor::google_::protobuf_::FileDescriptorProto_::_Hazzer;
use micropb_gen::descriptor::google_::protobuf_::FieldOptions_::OptionTargetType;
use micropb_gen::wire::DecodeError;

fn varint(mut v: u64, out: &mut Vec<u8>) {
    loop {
        let b = (v & 0x7f) as u8;
        v >>= 7;
        if v == 0 {
            out.push(b);
            return;
        }
        out.push(b | 0x80);
    }
}

fn tag(num: u32, wire: u32, out: &mut Vec<u8>) {
    varint(((num << 3) | wire) as u64, out);
}

fn len_field(num: u32, payload: &[u8], out: &mut Vec<u8>) {
    tag(num, 2, out);
    varint(payload.len() as u64, out);
    out.extend_from_slice(payload);
}

fn varint_field(num: u32, v: u64, out: &mut Vec<u8>) {
    tag(num, 0, out);
    varint(v, out);
}

fn sample_field() -> Vec<u8> {
    let mut f = Vec::new();
    len_field(1, b"id", &mut f);
    varint_field(3, 1, &mut f);
    varint_field(4, 1, &mut f);
    varint_field(5, 5, &mut f);
    f
}

fn sample_file() -> Vec<u8> {
    let mut msg = Vec::new();
    len_field(1, b"Msg", &mut msg);
    len_field(2, &sample_field(), &mut msg);
    let mut nested = Vec::new();
    len_field(1, b"Inner", &mut nested);
    len_field(3, &nested, &mut msg);
    let mut file = Vec::new();
    len_field(1, b"foo.proto", &mut file);
    len_field(2, b"pkg.sub", &mut file);
    len_field(4, &msg, &mut file);
    len_field(12, b"proto3", &mut file);
    varint_field(14, 999, &mut file);
    file
}

#[test]
fn decodes_a_file_descriptor_set() {
    let mut set_bytes = Vec::new();
    len_field(1, &sample_file(), &mut set_bytes);
    let mut set = FileDescriptorSet::default();
    set.decode_from_bytes(&set_bytes).unwrap();
    assert_eq!(set.file.len(), 1);
    let file = &set.file[0];
    assert_eq!(file.name().map(|s| s.as_str()), Some("foo.proto"));
    assert_eq!(file.package().map(|s| s.as_str()), Some("pkg.sub"));
    assert_eq!(file.syntax().map(|s| s.as_str()), Some("proto3"));
    assert_eq!(file.edition(), Some(&Edition(999)));
    assert_eq!(*file.edition().unwrap(), Edition::Proto3());
    assert!(file.options().is_none());
    assert_eq!(file.message_type.len(), 1);
    let msg = &file.message_type[0];
    assert_eq!(msg.name().unwrap(), "Msg");
    assert_eq!(msg.field.len(), 1);
    assert_eq!(msg.field[0].name().unwrap(), "id");
    assert_eq!(msg.field[0].number(), Some(&1));
    assert_eq!(msg.field[0].label(), Some(&Label::Optional()));
    assert_eq!(msg.field[0].type_(), Some(&Type::Int32()));
    assert_eq!(msg.nested_type.len(), 1);
    assert_eq!(msg.nested_type[0].name().unwrap(), "Inner");
}

#[test]
fn later_values_replace_and_repeated_values_append() {
    let mut bytes = Vec::new();
    len_field(1, b"first", &mut bytes);
    len_field(3, b"a", &mut bytes);
    len_field(1, b"second", &mut bytes);
    len_field(3, b"b", &mut bytes);
    let mut file = FileDescriptorProto::default();
    file.decode_from_bytes(&bytes).unwrap();
    assert_eq!(file.name().unwrap(), "second");
    assert_eq!(file.dependency, vec!["a".to_owned(), "b".to_owned()]);
}

#[test]
fn concatenated_encodings_merge() {
    let mut a = Vec::new();
    len_field(1, b"x", &mut a);
    varint_field(3, 7, &mut a);
    let mut b = Vec::new();
    varint_field(9, 2, &mut b);
    len_field(1, b"y", &mut b);
    let mut whole = a.clone();
    whole.extend_from_slice(&b);

    let mut at_once = FieldDescriptorProto::default();
    at_once.decode_from_bytes(&whole).unwrap();
    let mut in_steps = FieldDescriptorProto::default();
    in_steps.decode_from_bytes(&a).unwrap();
    in_steps.decode_from_bytes(&b).unwrap();
    assert_eq!(at_once.name(), in_steps.name());
    assert_eq!(at_once.name().unwrap(), "y");
    assert_eq!(at_once.number(), in_steps.number());
    assert_eq!(at_once.oneof_index(), Some(&2));
    assert_eq!(in_steps.oneof_index(), Some(&2));
}

#[test]
fn unknown_fields_are_skipped() {
    let mut bytes = Vec::new();
    varint_field(100, 5, &mut bytes);
    tag(101, 1, &mut bytes);
    bytes.extend_from_slice(&[1, 2, 3, 4, 5, 6, 7, 8]);
    tag(102, 5, &mut bytes);
    bytes.extend_from_slice(&[1, 2, 3, 4]);
    len_field(103, b"zzz", &mut bytes);
    len_field(1, b"kept", &mut bytes);
    let mut d = DescriptorProto::default();
    d.decode_from_bytes(&bytes).unwrap();
    assert_eq!(d.name().unwrap(), "kept");
}

#[test]
fn negative_int32_uses_ten_bytes() {
    let mut bytes = Vec::new();
    varint_field(3, (-2i64) as u64, &mut bytes);
    assert_eq!(bytes.len(), 11);
    let mut f = FieldDescriptorProto::default();
    f.decode_from_bytes(&bytes).unwrap();
    assert_eq!(f.number(), Some(&-2));
}

#[test]
fn packed_and_unpacked_repeated_ints() {
    let mut path = Vec::new();
    for v in [1u64, 300, 2] {
        varint(v, &mut path);
    }
    let mut loc = Vec::new();
    len_field(1, &path, &mut loc);
    varint_field(1, 9, &mut loc);
    len_field(3, b"lead", &mut loc);
    let mut info = Vec::new();
    len_field(1, &loc, &mut info);
    let mut sci = SourceCodeInfo::default();
    sci.decode_from_bytes(&info).unwrap();
    assert_eq!(sci.location.len(), 1);
    assert_eq!(sci.location[0].path, vec![1, 300, 2, 9]);
    assert_eq!(sci.location[0].leading_comments().unwrap(), "lead");
}

#[test]
fn packed_enum_values() {
    let mut packed = Vec::new();
    varint(1, &mut packed);
    varint(9, &mut packed);
    let mut bytes = Vec::new();
    len_field(19, &packed, &mut bytes);
    varint_field(19, 4, &mut bytes);
    let mut o = FieldOptions::default();
    o.decode_from_bytes(&bytes).unwrap();
    assert_eq!(
        o.targets,
        vec![
            OptionTargetType::TargetTypeFile(),
            OptionTargetType::TargetTypeMethod(),
            OptionTargetType::TargetTypeField()
        ]
    );
}

#[test]
fn uninterpreted_option_values() {
    let mut bytes = Vec::new();
    varint_field(4, u64::MAX, &mut bytes);
    varint_field(5, (-5i64) as u64, &mut bytes);
    tag(6, 1, &mut bytes);
    bytes.extend_from_slice(&1.5f64.to_le_bytes());
    len_field(7, &[0, 255, 3], &mut bytes);
    let mut np = Vec::new();
    len_field(1, b"opt", &mut np);
    varint_field(2, 1, &mut np);
    len_field(2, &np, &mut bytes);
    let mut u = UninterpretedOption::default();
    u.decode_from_bytes(&bytes).unwrap();
    assert_eq!(u.positive_int_value(), Some(&u64::MAX));
    assert_eq!(u.negative_int_value(), Some(&-5));
    assert_eq!(f64::from_bits(*u.double_value().unwrap()), 1.5);
    assert_eq!(u.string_value().unwrap(), &vec![0u8, 255, 3]);
    assert_eq!(u.name.len(), 1);
    assert_eq!(u.name[0].name_part().unwrap(), "opt");
    assert_eq!(u.name[0].is_extension(), Some(&true));
}

#[test]
fn decode_errors() {
    let mut d = DescriptorProto::default();
    assert_eq!(d.decode_from_bytes(&[0x00, 0x01]), Err(DecodeError::ZeroField));
    let mut d = DescriptorProto::default();
    assert_eq!(d.decode_from_bytes(&[0x0a, 0x05, b'a']), Err(DecodeError::UnexpectedEof));
    let mut d = DescriptorProto::default();
    assert_eq!(d.decode_from_bytes(&[0x7b]), Err(DecodeError::Deprecation));
    let mut d = DescriptorProto::default();
    assert_eq!(d.decode_from_bytes(&[0x7e, 0x00]), Err(DecodeError::UnknownWireType));
    let mut d = DescriptorProto::default();
    assert_eq!(d.decode_from_bytes(&[0x08; 1].iter().chain([0xffu8; 11].iter()).copied().collect::<Vec<_>>()), Err(DecodeError::VarIntLimit));
    let mut d = DescriptorProto::default();
    assert_eq!(d.decode_from_bytes(&[0x0a, 0x02, 0xff, 0xfe]), Err(DecodeError::Utf8));
    let mut d = DescriptorProto::default();
    assert_eq!(d.decode_from_bytes(&[0x0b]), Err(DecodeError::UnexpectedEof));
    let mut d = DescriptorProto::default();
    assert_eq!(d.decode_from_bytes(&[0x08]), Err(DecodeError::UnexpectedEof));
    let mut d = DescriptorProto::default();
    assert_eq!(d.decode_from_bytes(&[]), Ok(()));
}

#[test]
fn known_fields_read_as_their_type() {
    // A known field is read as its own type, whatever wire type its tag carries.
    let mut d = DescriptorProto::default();
    assert_eq!(d.decode_from_bytes(&[0x08, 0x01, b'x']), Ok(()));
    assert_eq!(d.name().unwrap(), "x");
    let mut d = DescriptorProto::default();
    assert_eq!(d.decode_from_bytes(&[0x0e, 0x00]), Ok(()));
    assert_eq!(d.name().unwrap(), "");
    // An unknown field is skipped by its wire type.
    let mut d = DescriptorProto::default();
    assert_eq!(d.decode_from_bytes(&[0x79, 1, 2, 3, 4, 5, 6, 7, 8, 0x7d, 1, 2, 3, 4, 0x0a, 0x01, b'y']), Ok(()));
    assert_eq!(d.name().unwrap(), "y");
}

#[test]
fn failed_decode_keeps_fields_read_before() {
    let mut s = FileDescriptorProto::default();
    assert_eq!(s.decode_from_bytes(&[0x0A, 0x01, 0x61, 0x00]), Err(DecodeError::ZeroField));
    assert_eq!(s.name(), Some(&"a".to_string()));
    // A nested message keeps what it read before its own failure; its presence stays unset.
    let mut f = FileDescriptorProto::default();
    assert_eq!(f.decode_from_bytes(&[0x42, 0x04, 0x0A, 0x01, b'j', 0x00]), Err(DecodeError::ZeroField));
    assert!(f.options().is_none());
    assert_eq!(f.options.java_package().unwrap(), "j");
}

#[test]
fn nested_field_may_run_past_its_length() {
    // The nested message reads fields while fewer than its length have been read; the
    // last one is read whole even where it runs past that length.
    let mut f = FileDescriptorProto::default();
    assert_eq!(f.decode_from_bytes(&[0x42, 0x02, 0x0A, 0x01, 0x61]), Ok(()));
    assert_eq!(f.options().unwrap().java_package().unwrap(), "a");
    // A nested length of zero reads no field.
    let mut f = FileDescriptorProto::default();
    assert_eq!(f.decode_from_bytes(&[0x42, 0x00, 0x0A, 0x01, 0x62]), Ok(()));
    assert!(f.options().is_some());
    assert_eq!(f.options.java_package(), None);
    assert_eq!(f.name().unwrap(), "b");
}

#[test]
fn nested_errors_propagate() {
    let mut inner = Vec::new();
    inner.push(0x00);
    let mut bytes = Vec::new();
    len_field(3, &inner, &mut bytes);
    let mut d = DescriptorProto::default();
    assert_eq!(d.decode_from_bytes(&bytes), Err(DecodeError::ZeroField));
}

#[test]
fn hazzer_bits() {
    let h = _Hazzer::default();
    assert!(!h.name() && !h.package() && !h.edition());
    let mut h = h.init_package();
    assert!(h.package());
    assert!(!h.name());
    h.set_edition().set_name();
    assert!(h.edition() && h.name());
    h.clear_package();
    assert!(!h.package());
    assert!(h.edition());
    assert_eq!(h.0, [0b10_0001]);
}

#[test]
fn message_accessors() {
    let mut f = FileDescriptorProto::default();
    assert!(f.name().is_none());
    f.set_name("a.proto".to_owned());
    assert_eq!(f.name().unwrap(), "a.proto");
    if let Some(n) = f.mut_name() {
        n.push('x');
    }
    assert_eq!(f.name().unwrap(), "a.protox");
    assert_eq!(f.take_name().unwrap(), "a.protox");
    assert!(f.name().is_none());
    assert_eq!(f.name, "");
    assert!(f.take_name().is_none());
    f.set_name("b".to_owned()).clear_name();
    assert!(f.name().is_none());
    assert_eq!(f.name, "b");
    assert!(f.mut_name().is_none());

    let f = FileDescriptorProto::default().init_options(FileOptions::default().init_java_package("j".to_owned()));
    assert_eq!(f.options().unwrap().java_package().unwrap(), "j");

    let mut r = ExtensionRange::default();
    r.set_start(3).set_end(9);
    assert_eq!(r.start(), Some(&3));
    assert_eq!(r.take_end(), Some(9));
    assert_eq!(r.end, 0);
    assert!(r.end().is_none());
}

#[test]
fn enum_values() {
    assert_eq!(Type::Double(), Type(1));
    assert_eq!(Type::Sint64(), Type(18));
    assert_eq!(Label::Repeated(), Label(3));
    assert_eq!(Edition::Max(), Edition(2147483647));
    assert_eq!(Edition::default(), Edition(0));
    assert_eq!(Type::from(14), Type::Enum());
}
