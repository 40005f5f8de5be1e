//! `FileDescriptorProto`, with its nested types and its presence bits.
use vstd::prelude::*;
use vstd::utf8::{decode_utf8, valid_utf8};
use crate::bits::{flags_of, lemma_flags_clear, lemma_flags_get, lemma_flags_set, lemma_flags_zero};
use crate::descriptor::google_::protobuf_ as pb;
use crate::wire::{
    copy_bytes, lemma_len_bounds, lemma_varint_bounds, lemma_tag_bounds, lemma_values_prefix, parse_fixed64, parse_len, parse_packed_i32,
    parse_string, parse_tag, parse_varint, read_fixed64, read_len, read_packed_i32, read_string,
    read_tag, read_varint, shift_consumed, skip_len, skip_value, to_i32, to_i64, varint_as_i32,
    varint_as_i64, DecodeError, WIRE_TYPE_LEN,
};


verus! {

/// Presence bits of the optional fields of `FileDescriptorProto`: bit `i % 8` of byte `i / 8` is flag `i`.
#[derive(Debug, PartialEq)]
pub struct _Hazzer(pub [u8; 1]);

impl View for _Hazzer {
    type V = Seq<bool>;

    open spec fn view(&self) -> Seq<bool> {
        flags_of(self.0@)
    }
}

impl Default for _Hazzer {
    fn default() -> (r: Self)
        ensures
            r@ == Seq::new(8, |i: int| false),
    {
        let r = _Hazzer([0u8]);
        proof {
            lemma_flags_zero(r.0@);
            assert(r@ =~= Seq::new(8, |i: int| false));
        }
        r
    }
}

impl Clone for _Hazzer {
    fn clone(&self) -> (r: Self)
        ensures
            r == *self,
    {
        _Hazzer(self.0)
    }
}

impl _Hazzer {
    ///Query presence of `name`
    #[inline]
    pub fn name(&self) -> (r: bool)
        ensures
            r == self@[0],
    {
        proof {
            lemma_flags_get(self.0@, 0, 0);
        }
        (self.0[0] & (1u8 << 0u8)) != 0
    }

    ///Set presence of `name`
    #[inline]
    pub fn set_name(&mut self) -> (r: &mut Self)
        ensures
            r@ == old(self)@.update(0, true),
            *final(self) == *final(r),
    {
        let ghost bytes = self.0@;
        self.0[0] = self.0[0] | (1u8 << 0u8);
        proof {
            lemma_flags_set(bytes, self.0@, 0, 0);
        }
        self
    }

    ///Clear presence of `name`
    #[inline]
    pub fn clear_name(&mut self) -> (r: &mut Self)
        ensures
            r@ == old(self)@.update(0, false),
            *final(self) == *final(r),
    {
        let ghost bytes = self.0@;
        self.0[0] = self.0[0] & !(1u8 << 0u8);
        proof {
            lemma_flags_clear(bytes, self.0@, 0, 0);
        }
        self
    }

    ///Builder method that sets the presence of `name`. Useful for initializing the Hazzer.
    #[inline]
    pub fn init_name(self) -> (r: Self)
        ensures
            r@ == self@.update(0, true),
    {
        let mut s = self;
        s.set_name();
        s
    }

    ///Query presence of `package`
    #[inline]
    pub fn package(&self) -> (r: bool)
        ensures
            r == self@[1],
    {
        proof {
            lemma_flags_get(self.0@, 0, 1);
        }
        (self.0[0] & (1u8 << 1u8)) != 0
    }

    ///Set presence of `package`
    #[inline]
    pub fn set_package(&mut self) -> (r: &mut Self)
        ensures
            r@ == old(self)@.update(1, true),
            *final(self) == *final(r),
    {
        let ghost bytes = self.0@;
        self.0[0] = self.0[0] | (1u8 << 1u8);
        proof {
            lemma_flags_set(bytes, self.0@, 0, 1);
        }
        self
    }

    ///Clear presence of `package`
    #[inline]
    pub fn clear_package(&mut self) -> (r: &mut Self)
        ensures
            r@ == old(self)@.update(1, false),
            *final(self) == *final(r),
    {
        let ghost bytes = self.0@;
        self.0[0] = self.0[0] & !(1u8 << 1u8);
        proof {
            lemma_flags_clear(bytes, self.0@, 0, 1);
        }
        self
    }

    ///Builder method that sets the presence of `package`. Useful for initializing the Hazzer.
    #[inline]
    pub fn init_package(self) -> (r: Self)
        ensures
            r@ == self@.update(1, true),
    {
        let mut s = self;
        s.set_package();
        s
    }

    ///Query presence of `options`
    #[inline]
    pub fn options(&self) -> (r: bool)
        ensures
            r == self@[2],
    {
        proof {
            lemma_flags_get(self.0@, 0, 2);
        }
        (self.0[0] & (1u8 << 2u8)) != 0
    }

    ///Set presence of `options`
    #[inline]
    pub fn set_options(&mut self) -> (r: &mut Self)
        ensures
            r@ == old(self)@.update(2, true),
            *final(self) == *final(r),
    {
        let ghost bytes = self.0@;
        self.0[0] = self.0[0] | (1u8 << 2u8);
        proof {
            lemma_flags_set(bytes, self.0@, 0, 2);
        }
        self
    }

    ///Clear presence of `options`
    #[inline]
    pub fn clear_options(&mut self) -> (r: &mut Self)
        ensures
            r@ == old(self)@.update(2, false),
            *final(self) == *final(r),
    {
        let ghost bytes = self.0@;
        self.0[0] = self.0[0] & !(1u8 << 2u8);
        proof {
            lemma_flags_clear(bytes, self.0@, 0, 2);
        }
        self
    }

    ///Builder method that sets the presence of `options`. Useful for initializing the Hazzer.
    #[inline]
    pub fn init_options(self) -> (r: Self)
        ensures
            r@ == self@.update(2, true),
    {
        let mut s = self;
        s.set_options();
        s
    }

    ///Query presence of `source_code_info`
    #[inline]
    pub fn source_code_info(&self) -> (r: bool)
        ensures
            r == self@[3],
    {
        proof {
            lemma_flags_get(self.0@, 0, 3);
        }
        (self.0[0] & (1u8 << 3u8)) != 0
    }

    ///Set presence of `source_code_info`
    #[inline]
    pub fn set_source_code_info(&mut self) -> (r: &mut Self)
        ensures
            r@ == old(self)@.update(3, true),
            *final(self) == *final(r),
    {
        let ghost bytes = self.0@;
        self.0[0] = self.0[0] | (1u8 << 3u8);
        proof {
            lemma_flags_set(bytes, self.0@, 0, 3);
        }
        self
    }

    ///Clear presence of `source_code_info`
    #[inline]
    pub fn clear_source_code_info(&mut self) -> (r: &mut Self)
        ensures
            r@ == old(self)@.update(3, false),
            *final(self) == *final(r),
    {
        let ghost bytes = self.0@;
        self.0[0] = self.0[0] & !(1u8 << 3u8);
        proof {
            lemma_flags_clear(bytes, self.0@, 0, 3);
        }
        self
    }

    ///Builder method that sets the presence of `source_code_info`. Useful for initializing the Hazzer.
    #[inline]
    pub fn init_source_code_info(self) -> (r: Self)
        ensures
            r@ == self@.update(3, true),
    {
        let mut s = self;
        s.set_source_code_info();
        s
    }

    ///Query presence of `syntax`
    #[inline]
    pub fn syntax(&self) -> (r: bool)
        ensures
            r == self@[4],
    {
        proof {
            lemma_flags_get(self.0@, 0, 4);
        }
        (self.0[0] & (1u8 << 4u8)) != 0
    }

    ///Set presence of `syntax`
    #[inline]
    pub fn set_syntax(&mut self) -> (r: &mut Self)
        ensures
            r@ == old(self)@.update(4, true),
            *final(self) == *final(r),
    {
        let ghost bytes = self.0@;
        self.0[0] = self.0[0] | (1u8 << 4u8);
        proof {
            lemma_flags_set(bytes, self.0@, 0, 4);
        }
        self
    }

    ///Clear presence of `syntax`
    #[inline]
    pub fn clear_syntax(&mut self) -> (r: &mut Self)
        ensures
            r@ == old(self)@.update(4, false),
            *final(self) == *final(r),
    {
        let ghost bytes = self.0@;
        self.0[0] = self.0[0] & !(1u8 << 4u8);
        proof {
            lemma_flags_clear(bytes, self.0@, 0, 4);
        }
        self
    }

    ///Builder method that sets the presence of `syntax`. Useful for initializing the Hazzer.
    #[inline]
    pub fn init_syntax(self) -> (r: Self)
        ensures
            r@ == self@.update(4, true),
    {
        let mut s = self;
        s.set_syntax();
        s
    }

    ///Query presence of `edition`
    #[inline]
    pub fn edition(&self) -> (r: bool)
        ensures
            r == self@[5],
    {
        proof {
            lemma_flags_get(self.0@, 0, 5);
        }
        (self.0[0] & (1u8 << 5u8)) != 0
    }

    ///Set presence of `edition`
    #[inline]
    pub fn set_edition(&mut self) -> (r: &mut Self)
        ensures
            r@ == old(self)@.update(5, true),
            *final(self) == *final(r),
    {
        let ghost bytes = self.0@;
        self.0[0] = self.0[0] | (1u8 << 5u8);
        proof {
            lemma_flags_set(bytes, self.0@, 0, 5);
        }
        self
    }

    ///Clear presence of `edition`
    #[inline]
    pub fn clear_edition(&mut self) -> (r: &mut Self)
        ensures
            r@ == old(self)@.update(5, false),
            *final(self) == *final(r),
    {
        let ghost bytes = self.0@;
        self.0[0] = self.0[0] & !(1u8 << 5u8);
        proof {
            lemma_flags_clear(bytes, self.0@, 0, 5);
        }
        self
    }

    ///Builder method that sets the presence of `edition`. Useful for initializing the Hazzer.
    #[inline]
    pub fn init_edition(self) -> (r: Self)
        ensures
            r@ == self@.update(5, true),
    {
        let mut s = self;
        s.set_edition();
        s
    }
}

/// The Protobuf message `google.protobuf.FileDescriptorProto`.
#[derive(Debug)]
pub struct FileDescriptorProto {
    pub name: String,
    pub package: String,
    pub dependency: Vec<String>,
    pub public_dependency: Vec<i32>,
    pub weak_dependency: Vec<i32>,
    pub message_type: Vec<pb::DescriptorProto_::DescriptorProto>,
    pub enum_type: Vec<pb::EnumDescriptorProto_::EnumDescriptorProto>,
    pub service: Vec<pb::ServiceDescriptorProto_::ServiceDescriptorProto>,
    pub extension: Vec<pb::FieldDescriptorProto_::FieldDescriptorProto>,
    pub options: pb::FileOptions_::FileOptions,
    pub source_code_info: pb::SourceCodeInfo_::SourceCodeInfo,
    pub syntax: String,
    pub edition: pb::Edition,
    pub _has: _Hazzer,
}

/// The value of a `FileDescriptorProto` as the contracts see it.
#[verifier::ext_equal]
pub ghost struct FileDescriptorProtoModel {
    pub name: Seq<char>,
    pub package: Seq<char>,
    pub dependency: Seq<Seq<char>>,
    pub public_dependency: Seq<i32>,
    pub weak_dependency: Seq<i32>,
    pub message_type: Seq<pb::DescriptorProto_::DescriptorProtoModel>,
    pub enum_type: Seq<pb::EnumDescriptorProto_::EnumDescriptorProtoModel>,
    pub service: Seq<pb::ServiceDescriptorProto_::ServiceDescriptorProtoModel>,
    pub extension: Seq<pb::FieldDescriptorProto_::FieldDescriptorProtoModel>,
    pub options: pb::FileOptions_::FileOptionsModel,
    pub source_code_info: pb::SourceCodeInfo_::SourceCodeInfoModel,
    pub syntax: Seq<char>,
    pub edition: pb::Edition,
    pub _has: Seq<bool>,
}

impl View for FileDescriptorProto {
    type V = FileDescriptorProtoModel;

    open spec fn view(&self) -> FileDescriptorProtoModel {
        FileDescriptorProtoModel {
            name: self.name@,
            package: self.package@,
            dependency: self.dependency@.map_values(|s: String| s@),
            public_dependency: self.public_dependency@,
            weak_dependency: self.weak_dependency@,
            message_type: self.message_type@.map_values(|m: pb::DescriptorProto_::DescriptorProto| m@),
            enum_type: self.enum_type@.map_values(|m: pb::EnumDescriptorProto_::EnumDescriptorProto| m@),
            service: self.service@.map_values(|m: pb::ServiceDescriptorProto_::ServiceDescriptorProto| m@),
            extension: self.extension@.map_values(|m: pb::FieldDescriptorProto_::FieldDescriptorProto| m@),
            options: self.options@,
            source_code_info: self.source_code_info@,
            syntax: self.syntax@,
            edition: self.edition,
            _has: self._has@,
        }
    }
}

impl FileDescriptorProtoModel {
    /// The value of a `FileDescriptorProto` with no field set.
    pub open spec fn empty() -> FileDescriptorProtoModel {
        FileDescriptorProtoModel {
            name: Seq::empty(),
            package: Seq::empty(),
            dependency: Seq::empty(),
            public_dependency: Seq::empty(),
            weak_dependency: Seq::empty(),
            message_type: Seq::empty(),
            enum_type: Seq::empty(),
            service: Seq::empty(),
            extension: Seq::empty(),
            options: pb::FileOptions_::FileOptionsModel::empty(),
            source_code_info: pb::SourceCodeInfo_::SourceCodeInfoModel::empty(),
            syntax: Seq::empty(),
            edition: pb::Edition(0),
            _has: Seq::new(8, |i: int| false),
        }
    }

    /// The message after the value of the field numbered `num`, with wire type `wt`, at the
    /// start of `s` has been merged into it, and the length of that value. A known field is
    /// read as its own type: a later value of a singular field replaces the earlier one, and
    /// a repeated field gains the values at its end. An unknown field is skipped by its wire
    /// type and leaves the message as it was.
    #[verifier::opaque]
    pub open spec fn merge_field(self, num: u32, wt: u32, s: Seq<u8>) -> Result<(FileDescriptorProtoModel, nat), DecodeError>
    {
        if num == 1 {
            match parse_len(s) {
                Ok((p, n)) => match parse_string(p) {
                    Ok(t) => Ok(((FileDescriptorProtoModel { name: t, _has: self._has.update(0, true), ..self }), n)),
                    Err(e) => Err(e),
                },
                Err(e) => Err(e),
            }
        } else if num == 2 {
            match parse_len(s) {
                Ok((p, n)) => match parse_string(p) {
                    Ok(t) => Ok(((FileDescriptorProtoModel { package: t, _has: self._has.update(1, true), ..self }), n)),
                    Err(e) => Err(e),
                },
                Err(e) => Err(e),
            }
        } else if num == 3 {
            match parse_len(s) {
                Ok((p, n)) => match parse_string(p) {
                    Ok(t) => Ok(((FileDescriptorProtoModel { dependency: self.dependency.push(t), ..self }), n)),
                    Err(e) => Err(e),
                },
                Err(e) => Err(e),
            }
        } else if num == 10 {
            if wt == WIRE_TYPE_LEN {
                match parse_len(s) {
                    Ok((p, n)) => match parse_packed_i32(p) {
                        Ok(vs) => Ok(((FileDescriptorProtoModel { public_dependency: self.public_dependency + vs, ..self }), n)),
                        Err(e) => Err(e),
                    },
                    Err(e) => Err(e),
                }
            } else {
                match parse_varint(s) {
                    Ok((v, n)) => Ok(((FileDescriptorProtoModel { public_dependency: self.public_dependency.push(varint_as_i32(v)), ..self }), n)),
                    Err(e) => Err(e),
                }
            }
        } else if num == 11 {
            if wt == WIRE_TYPE_LEN {
                match parse_len(s) {
                    Ok((p, n)) => match parse_packed_i32(p) {
                        Ok(vs) => Ok(((FileDescriptorProtoModel { weak_dependency: self.weak_dependency + vs, ..self }), n)),
                        Err(e) => Err(e),
                    },
                    Err(e) => Err(e),
                }
            } else {
                match parse_varint(s) {
                    Ok((v, n)) => Ok(((FileDescriptorProtoModel { weak_dependency: self.weak_dependency.push(varint_as_i32(v)), ..self }), n)),
                    Err(e) => Err(e),
                }
            }
        } else if num == 4 {
            match parse_varint(s) {
                Ok((l, m)) => if 0 < m <= s.len() {
                    match pb::DescriptorProto_::DescriptorProtoModel::empty().decode_stream(s.subrange(m as int, s.len() as int), l as int) {
                        Ok((x, c)) => Ok(((FileDescriptorProtoModel { message_type: self.message_type.push(x), ..self }), m + c)),
                        Err(e) => Err(e),
                    }
                } else {
                    Err(DecodeError::UnexpectedEof)
                },
                Err(e) => Err(e),
            }
        } else if num == 5 {
            match parse_varint(s) {
                Ok((l, m)) => if 0 < m <= s.len() {
                    match pb::EnumDescriptorProto_::EnumDescriptorProtoModel::empty().decode_stream(s.subrange(m as int, s.len() as int), l as int) {
                        Ok((x, c)) => Ok(((FileDescriptorProtoModel { enum_type: self.enum_type.push(x), ..self }), m + c)),
                        Err(e) => Err(e),
                    }
                } else {
                    Err(DecodeError::UnexpectedEof)
                },
                Err(e) => Err(e),
            }
        } else if num == 6 {
            match parse_varint(s) {
                Ok((l, m)) => if 0 < m <= s.len() {
                    match pb::ServiceDescriptorProto_::ServiceDescriptorProtoModel::empty().decode_stream(s.subrange(m as int, s.len() as int), l as int) {
                        Ok((x, c)) => Ok(((FileDescriptorProtoModel { service: self.service.push(x), ..self }), m + c)),
                        Err(e) => Err(e),
                    }
                } else {
                    Err(DecodeError::UnexpectedEof)
                },
                Err(e) => Err(e),
            }
        } else if num == 7 {
            match parse_varint(s) {
                Ok((l, m)) => if 0 < m <= s.len() {
                    match pb::FieldDescriptorProto_::FieldDescriptorProtoModel::empty().decode_stream(s.subrange(m as int, s.len() as int), l as int) {
                        Ok((x, c)) => Ok(((FileDescriptorProtoModel { extension: self.extension.push(x), ..self }), m + c)),
                        Err(e) => Err(e),
                    }
                } else {
                    Err(DecodeError::UnexpectedEof)
                },
                Err(e) => Err(e),
            }
        } else if num == 8 {
            match parse_varint(s) {
                Ok((l, m)) => if 0 < m <= s.len() {
                    match self.options.decode_stream(s.subrange(m as int, s.len() as int), l as int) {
                        Ok((x, c)) => Ok(((FileDescriptorProtoModel { options: x, _has: self._has.update(2, true), ..self }), m + c)),
                        Err(e) => Err(e),
                    }
                } else {
                    Err(DecodeError::UnexpectedEof)
                },
                Err(e) => Err(e),
            }
        } else if num == 9 {
            match parse_varint(s) {
                Ok((l, m)) => if 0 < m <= s.len() {
                    match self.source_code_info.decode_stream(s.subrange(m as int, s.len() as int), l as int) {
                        Ok((x, c)) => Ok(((FileDescriptorProtoModel { source_code_info: x, _has: self._has.update(3, true), ..self }), m + c)),
                        Err(e) => Err(e),
                    }
                } else {
                    Err(DecodeError::UnexpectedEof)
                },
                Err(e) => Err(e),
            }
        } else if num == 12 {
            match parse_len(s) {
                Ok((p, n)) => match parse_string(p) {
                    Ok(t) => Ok(((FileDescriptorProtoModel { syntax: t, _has: self._has.update(4, true), ..self }), n)),
                    Err(e) => Err(e),
                },
                Err(e) => Err(e),
            }
        } else if num == 14 {
            match parse_varint(s) {
                Ok((v, n)) => Ok(((FileDescriptorProtoModel { edition: pb::Edition(varint_as_i32(v)), _has: self._has.update(5, true), ..self }), n)),
                Err(e) => Err(e),
            }
        } else {
            match skip_len(s, wt) {
                Ok(n) => Ok((self, n)),
                Err(e) => Err(e),
            }
        }
    }

    /// The message after its fields have been read from the start of `s` while fewer than
    /// `rem` bytes have been read, and how many bytes were read. Each field is read whole,
    /// so the last one may run past `rem`. A field numbered 0 is refused.
    pub open spec fn decode_stream(self, s: Seq<u8>, rem: int) -> Result<(FileDescriptorProtoModel, nat), DecodeError>
        decreases s.len(),
    {
        if rem <= 0 {
            Ok((self, 0))
        } else {
            match parse_tag(s) {
                Err(e) => Err(e),
                Ok((num, wt, n)) => if num == 0 {
                    Err(DecodeError::ZeroField)
                } else if 0 < n <= s.len() {
                    let rest = s.subrange(n as int, s.len() as int);
                    match self.merge_field(num, wt, rest) {
                        Ok((m, k)) => if k <= rest.len() {
                            shift_consumed(
                                m.decode_stream(rest.subrange(k as int, rest.len() as int), rem - (n + k)),
                                n + k,
                            )
                        } else {
                            Err(DecodeError::UnexpectedEof)
                        },
                        Err(e) => Err(e),
                    }
                } else {
                    Err(DecodeError::UnexpectedEof)
                },
            }
        }
    }

    /// The message after every field in `s` has been merged into it, in order: its fields
    /// read from `s` while fewer than `s.len()` bytes have been read.
    pub open spec fn merge_from(self, s: Seq<u8>) -> Result<FileDescriptorProtoModel, DecodeError> {
        match self.decode_stream(s, s.len() as int) {
            Ok((m, c)) => Ok(m),
            Err(e) => Err(e),
        }
    }

    /// The message as a failed merge of the field numbered `num`, with wire type `wt`, at
    /// the start of `s` leaves it: a nested message keeps what was read into it before
    /// its own failure, and nothing else changes.
    pub open spec fn merge_field_partial(self, num: u32, wt: u32, s: Seq<u8>) -> FileDescriptorProtoModel {
        if num == 8 {
            match parse_varint(s) {
                Ok((l, m)) => if 0 < m <= s.len() {
                    FileDescriptorProtoModel { options: self.options.until_error_stream(s.subrange(m as int, s.len() as int), l as int), ..self }
                } else {
                    self
                },
                Err(e) => self,
            }
        } else if num == 9 {
            match parse_varint(s) {
                Ok((l, m)) => if 0 < m <= s.len() {
                    FileDescriptorProtoModel { source_code_info: self.source_code_info.until_error_stream(s.subrange(m as int, s.len() as int), l as int), ..self }
                } else {
                    self
                },
                Err(e) => self,
            }
        } else {
            self
        }
    }

    /// The message after its fields have been read from the start of `s`, as in
    /// `decode_stream`, up to the first one that fails: that one leaves the message as its
    /// failed merge does, and no field after it is read.
    pub open spec fn until_error_stream(self, s: Seq<u8>, rem: int) -> FileDescriptorProtoModel
        decreases s.len(),
    {
        if rem <= 0 {
            self
        } else {
            match parse_tag(s) {
                Err(e) => self,
                Ok((num, wt, n)) => if num == 0 {
                    self
                } else if 0 < n <= s.len() {
                    let rest = s.subrange(n as int, s.len() as int);
                    match self.merge_field(num, wt, rest) {
                        Ok((m, k)) => if k <= rest.len() {
                            m.until_error_stream(rest.subrange(k as int, rest.len() as int), rem - (n + k))
                        } else {
                            m
                        },
                        Err(e) => self.merge_field_partial(num, wt, rest),
                    }
                } else {
                    self
                },
            }
        }
    }

    /// The message after the fields of `s` have been merged into it in order, up to the
    /// first one that fails, which leaves the message as its failed merge does. When none
    /// fails, this is what `merge_from` gives.
    pub open spec fn merge_until_error(self, s: Seq<u8>) -> FileDescriptorProtoModel {
        self.until_error_stream(s, s.len() as int)
    }

    /// Reading fields reads at most the whole input, and at least `rem` bytes when `rem` is
    /// positive.
    pub proof fn lemma_stream_bounds(self, s: Seq<u8>, rem: int)
        ensures
            self.decode_stream(s, rem) matches Ok((m, c)) ==> c <= s.len() && (rem > 0 ==> c >= rem) && (
            rem <= 0 ==> c == 0),
        decreases s.len(),
    {
        if rem > 0 {
            if let Ok((num, wt, n)) = parse_tag(s) {
                if num != 0 && 0 < n <= s.len() {
                    let rest = s.subrange(n as int, s.len() as int);
                    if let Ok((m, k)) = self.merge_field(num, wt, rest) {
                        if k <= rest.len() {
                            m.lemma_stream_bounds(rest.subrange(k as int, rest.len() as int), rem - (n + k));
                        }
                    }
                }
            }
        }
    }

    /// Fields that can be read from `s` read the same from `s` followed by anything.
    pub proof fn lemma_stream_prefix(self, s: Seq<u8>, b: Seq<u8>, rem: int)
        requires
            self.decode_stream(s, rem) is Ok,
        ensures
            self.decode_stream(s + b, rem) == self.decode_stream(s, rem),
        decreases s.len(),
    {
        if rem > 0 {
            lemma_values_prefix(s, b);
            let (num, wt, n) = parse_tag(s)->Ok_0;
            let rest = s.subrange(n as int, s.len() as int);
            assert((s + b).subrange(n as int, (s + b).len() as int) =~= rest + b);
            self.lemma_merge_field_prefix(num, wt, rest, b);
            let (m, k) = self.merge_field(num, wt, rest)->Ok_0;
            let t = rest.subrange(k as int, rest.len() as int);
            assert((rest + b).subrange(k as int, (rest + b).len() as int) =~= t + b);
            m.lemma_stream_prefix(t, b, rem - (n + k));
        }
    }

    proof fn lemma_merge_field_prefix(self, num: u32, wt: u32, s: Seq<u8>, b: Seq<u8>)
        requires
            self.merge_field(num, wt, s) is Ok,
        ensures
            self.merge_field(num, wt, s + b) == self.merge_field(num, wt, s),
        
    {
        reveal(FileDescriptorProtoModel::merge_field);
        lemma_values_prefix(s, b);
        lemma_len_bounds(s);
        if num == 4 {
            match parse_varint(s) {
                Ok((l, m)) => if 0 < m <= s.len() {
                    let t = s.subrange(m as int, s.len() as int);
                    assert((s + b).subrange(m as int, (s + b).len() as int) =~= t + b);
                    if pb::DescriptorProto_::DescriptorProtoModel::empty().decode_stream(t, l as int) is Ok {
                        pb::DescriptorProto_::DescriptorProtoModel::empty().lemma_stream_prefix(t, b, l as int);
                    }
                },
                Err(e) => {},
            }
        }
        if num == 5 {
            match parse_varint(s) {
                Ok((l, m)) => if 0 < m <= s.len() {
                    let t = s.subrange(m as int, s.len() as int);
                    assert((s + b).subrange(m as int, (s + b).len() as int) =~= t + b);
                    if pb::EnumDescriptorProto_::EnumDescriptorProtoModel::empty().decode_stream(t, l as int) is Ok {
                        pb::EnumDescriptorProto_::EnumDescriptorProtoModel::empty().lemma_stream_prefix(t, b, l as int);
                    }
                },
                Err(e) => {},
            }
        }
        if num == 6 {
            match parse_varint(s) {
                Ok((l, m)) => if 0 < m <= s.len() {
                    let t = s.subrange(m as int, s.len() as int);
                    assert((s + b).subrange(m as int, (s + b).len() as int) =~= t + b);
                    if pb::ServiceDescriptorProto_::ServiceDescriptorProtoModel::empty().decode_stream(t, l as int) is Ok {
                        pb::ServiceDescriptorProto_::ServiceDescriptorProtoModel::empty().lemma_stream_prefix(t, b, l as int);
                    }
                },
                Err(e) => {},
            }
        }
        if num == 7 {
            match parse_varint(s) {
                Ok((l, m)) => if 0 < m <= s.len() {
                    let t = s.subrange(m as int, s.len() as int);
                    assert((s + b).subrange(m as int, (s + b).len() as int) =~= t + b);
                    if pb::FieldDescriptorProto_::FieldDescriptorProtoModel::empty().decode_stream(t, l as int) is Ok {
                        pb::FieldDescriptorProto_::FieldDescriptorProtoModel::empty().lemma_stream_prefix(t, b, l as int);
                    }
                },
                Err(e) => {},
            }
        }
        if num == 8 {
            match parse_varint(s) {
                Ok((l, m)) => if 0 < m <= s.len() {
                    let t = s.subrange(m as int, s.len() as int);
                    assert((s + b).subrange(m as int, (s + b).len() as int) =~= t + b);
                    if self.options.decode_stream(t, l as int) is Ok {
                        self.options.lemma_stream_prefix(t, b, l as int);
                    }
                },
                Err(e) => {},
            }
        }
        if num == 9 {
            match parse_varint(s) {
                Ok((l, m)) => if 0 < m <= s.len() {
                    let t = s.subrange(m as int, s.len() as int);
                    assert((s + b).subrange(m as int, (s + b).len() as int) =~= t + b);
                    if self.source_code_info.decode_stream(t, l as int) is Ok {
                        self.source_code_info.lemma_stream_prefix(t, b, l as int);
                    }
                },
                Err(e) => {},
            }
        }
    }

    /// Reading exactly `r1` bytes of fields, then `r2` more, is reading while fewer than
    /// `r1 + r2` bytes have been read.
    proof fn lemma_stream_split(self, s: Seq<u8>, r1: int, r2: int)
        requires
            r1 >= 0,
            r2 >= 0,
            self.decode_stream(s, r1) matches Ok((m, c)) && c == r1,
        ensures
            self.decode_stream(s, r1 + r2) == shift_consumed(
                self.decode_stream(s, r1)->Ok_0.0.decode_stream(s.subrange(r1, s.len() as int), r2),
                r1 as nat,
            ),
        decreases s.len(),
    {
        if r1 > 0 {
            let (num, wt, n) = parse_tag(s)->Ok_0;
            let rest = s.subrange(n as int, s.len() as int);
            let (m, k) = self.merge_field(num, wt, rest)->Ok_0;
            let t = rest.subrange(k as int, rest.len() as int);
            m.lemma_stream_bounds(t, r1 - (n + k));
            assert(t.subrange(r1 - (n + k), t.len() as int) =~= s.subrange(r1, s.len() as int));
            m.lemma_stream_split(t, r1 - (n + k), r2);
        } else {
            assert(s.subrange(0, s.len() as int) =~= s);
        }
    }

    /// Decoding is merging: when the fields of `a` merge into the message without error,
    /// merging `a` followed by `b` gives what merging `b` into that result gives.
    pub proof fn lemma_merge_from_concat(self, a: Seq<u8>, b: Seq<u8>)
        requires
            self.merge_from(a) is Ok,
        ensures
            self.merge_from(a + b) == self.merge_from(a)->Ok_0.merge_from(b),
    {
        self.lemma_stream_bounds(a, a.len() as int);
        self.lemma_stream_prefix(a, b, a.len() as int);
        assert((a + b).len() == a.len() + b.len());
        self.lemma_stream_split(a + b, a.len() as int, b.len() as int);
        assert((a + b).subrange(a.len() as int, (a + b).len() as int) =~= b);
    }

    proof fn lemma_single_field(self, s: Seq<u8>, num: u32, wt: u32, n: nat)
        requires
            parse_tag(s) == Ok::<(u32, u32, nat), DecodeError>((num, wt, n)),
            num != 0,
            self.merge_field(num, wt, s.subrange(n as int, s.len() as int)) matches Ok((m, k)) && n + k == s.len(),
        ensures
            self.merge_from(s) == Ok::<FileDescriptorProtoModel, DecodeError>(self.merge_field(num, wt, s.subrange(n as int, s.len() as int))->Ok_0.0),
    {
        lemma_tag_bounds(s);
        let rest = s.subrange(n as int, s.len() as int);
        let (m, k) = self.merge_field(num, wt, rest)->Ok_0;
        assert(rest.subrange(k as int, rest.len() as int) =~= Seq::<u8>::empty());
        assert(m.decode_stream(rest.subrange(k as int, rest.len() as int), s.len() - (n + k)) == Ok::<
            (FileDescriptorProtoModel, nat),
            DecodeError,
        >((m, 0)));
    }

    /// A field numbered 1 holds `name`: decoding a buffer that holds just such a field,
    /// whatever its wire type, sets `name` to the text of its payload, marks it present,
    /// and leaves every other field as it was.
    pub proof fn lemma_decode_name(self, s: Seq<u8>, wt: u32, n: nat, p: Seq<u8>, k: nat)
        requires
            parse_tag(s) == Ok::<(u32, u32, nat), DecodeError>((1, wt, n)),
            parse_len(s.subrange(n as int, s.len() as int)) == Ok::<(Seq<u8>, nat), DecodeError>((p, k)),
            n + k == s.len(),
            valid_utf8(p),
        ensures
            self.merge_from(s) == Ok::<FileDescriptorProtoModel, DecodeError>((FileDescriptorProtoModel { name: decode_utf8(p), _has: self._has.update(0, true), ..self })),
    {
        reveal(FileDescriptorProtoModel::merge_field);
        self.lemma_single_field(s, 1, wt, n);
    }

    /// A field numbered 2 holds `package`: decoding a buffer that holds just such a field,
    /// whatever its wire type, sets `package` to the text of its payload, marks it present,
    /// and leaves every other field as it was.
    pub proof fn lemma_decode_package(self, s: Seq<u8>, wt: u32, n: nat, p: Seq<u8>, k: nat)
        requires
            parse_tag(s) == Ok::<(u32, u32, nat), DecodeError>((2, wt, n)),
            parse_len(s.subrange(n as int, s.len() as int)) == Ok::<(Seq<u8>, nat), DecodeError>((p, k)),
            n + k == s.len(),
            valid_utf8(p),
        ensures
            self.merge_from(s) == Ok::<FileDescriptorProtoModel, DecodeError>((FileDescriptorProtoModel { package: decode_utf8(p), _has: self._has.update(1, true), ..self })),
    {
        reveal(FileDescriptorProtoModel::merge_field);
        self.lemma_single_field(s, 2, wt, n);
    }

    /// A field numbered 3 holds `dependency`: decoding a buffer that holds just such a field,
    /// whatever its wire type, appends the text of its payload to `dependency`,
    /// and leaves every other field as it was.
    pub proof fn lemma_decode_dependency(self, s: Seq<u8>, wt: u32, n: nat, p: Seq<u8>, k: nat)
        requires
            parse_tag(s) == Ok::<(u32, u32, nat), DecodeError>((3, wt, n)),
            parse_len(s.subrange(n as int, s.len() as int)) == Ok::<(Seq<u8>, nat), DecodeError>((p, k)),
            n + k == s.len(),
            valid_utf8(p),
        ensures
            self.merge_from(s) == Ok::<FileDescriptorProtoModel, DecodeError>((FileDescriptorProtoModel { dependency: self.dependency.push(decode_utf8(p)), ..self })),
    {
        reveal(FileDescriptorProtoModel::merge_field);
        self.lemma_single_field(s, 3, wt, n);
    }

    /// A length-delimited field numbered 10 holds packed values of `public_dependency`: decoding a buffer that
    /// holds just such a field appends them, in order, to `public_dependency`,
    /// and leaves every other field as it was.
    pub proof fn lemma_decode_public_dependency_packed(self, s: Seq<u8>, wt: u32, n: nat, p: Seq<u8>, k: nat, vs: Seq<i32>)
        requires
            parse_tag(s) == Ok::<(u32, u32, nat), DecodeError>((10, wt, n)),
            wt == WIRE_TYPE_LEN,
            parse_len(s.subrange(n as int, s.len() as int)) == Ok::<(Seq<u8>, nat), DecodeError>((p, k)),
            parse_packed_i32(p) == Ok::<Seq<i32>, DecodeError>(vs),
            n + k == s.len(),
        ensures
            self.merge_from(s) == Ok::<FileDescriptorProtoModel, DecodeError>((FileDescriptorProtoModel { public_dependency: self.public_dependency + vs, ..self })),
    {
        reveal(FileDescriptorProtoModel::merge_field);
        self.lemma_single_field(s, 10, wt, n);
    }

    /// Any other field numbered 10 holds one value of `public_dependency`: decoding a buffer that holds
    /// just such a field appends the low 32 bits of its varint to `public_dependency`,
    /// and leaves every other field as it was.
    pub proof fn lemma_decode_public_dependency(self, s: Seq<u8>, wt: u32, n: nat, v: u64, k: nat)
        requires
            parse_tag(s) == Ok::<(u32, u32, nat), DecodeError>((10, wt, n)),
            wt != WIRE_TYPE_LEN,
            parse_varint(s.subrange(n as int, s.len() as int)) == Ok::<(u64, nat), DecodeError>((v, k)),
            n + k == s.len(),
        ensures
            self.merge_from(s) == Ok::<FileDescriptorProtoModel, DecodeError>((FileDescriptorProtoModel { public_dependency: self.public_dependency.push(varint_as_i32(v)), ..self })),
    {
        reveal(FileDescriptorProtoModel::merge_field);
        self.lemma_single_field(s, 10, wt, n);
    }

    /// A length-delimited field numbered 11 holds packed values of `weak_dependency`: decoding a buffer that
    /// holds just such a field appends them, in order, to `weak_dependency`,
    /// and leaves every other field as it was.
    pub proof fn lemma_decode_weak_dependency_packed(self, s: Seq<u8>, wt: u32, n: nat, p: Seq<u8>, k: nat, vs: Seq<i32>)
        requires
            parse_tag(s) == Ok::<(u32, u32, nat), DecodeError>((11, wt, n)),
            wt == WIRE_TYPE_LEN,
            parse_len(s.subrange(n as int, s.len() as int)) == Ok::<(Seq<u8>, nat), DecodeError>((p, k)),
            parse_packed_i32(p) == Ok::<Seq<i32>, DecodeError>(vs),
            n + k == s.len(),
        ensures
            self.merge_from(s) == Ok::<FileDescriptorProtoModel, DecodeError>((FileDescriptorProtoModel { weak_dependency: self.weak_dependency + vs, ..self })),
    {
        reveal(FileDescriptorProtoModel::merge_field);
        self.lemma_single_field(s, 11, wt, n);
    }

    /// Any other field numbered 11 holds one value of `weak_dependency`: decoding a buffer that holds
    /// just such a field appends the low 32 bits of its varint to `weak_dependency`,
    /// and leaves every other field as it was.
    pub proof fn lemma_decode_weak_dependency(self, s: Seq<u8>, wt: u32, n: nat, v: u64, k: nat)
        requires
            parse_tag(s) == Ok::<(u32, u32, nat), DecodeError>((11, wt, n)),
            wt != WIRE_TYPE_LEN,
            parse_varint(s.subrange(n as int, s.len() as int)) == Ok::<(u64, nat), DecodeError>((v, k)),
            n + k == s.len(),
        ensures
            self.merge_from(s) == Ok::<FileDescriptorProtoModel, DecodeError>((FileDescriptorProtoModel { weak_dependency: self.weak_dependency.push(varint_as_i32(v)), ..self })),
    {
        reveal(FileDescriptorProtoModel::merge_field);
        self.lemma_single_field(s, 11, wt, n);
    }

    /// A field numbered 4 holds `message_type`: decoding a buffer that holds just such a field,
    /// whatever its wire type, decodes its payload as a new message and appends it to `message_type`,
    /// and leaves every other field as it was.
    pub proof fn lemma_decode_message_type(self, s: Seq<u8>, wt: u32, n: nat, l: u64, m: nat, x: pb::DescriptorProto_::DescriptorProtoModel)
        requires
            parse_tag(s) == Ok::<(u32, u32, nat), DecodeError>((4, wt, n)),
            parse_varint(s.subrange(n as int, s.len() as int)) == Ok::<(u64, nat), DecodeError>((l, m)),
            n + m + l == s.len(),
            pb::DescriptorProto_::DescriptorProtoModel::empty().merge_from(s.subrange((n + m) as int, s.len() as int)) == Ok::<pb::DescriptorProto_::DescriptorProtoModel, DecodeError>(x),
        ensures
            self.merge_from(s) == Ok::<FileDescriptorProtoModel, DecodeError>((FileDescriptorProtoModel { message_type: self.message_type.push(x), ..self })),
    {
        reveal(FileDescriptorProtoModel::merge_field);
        lemma_tag_bounds(s);
        lemma_varint_bounds(s.subrange(n as int, s.len() as int));
        assert(s.subrange(n as int, s.len() as int).subrange(m as int, s.subrange(n as int, s.len() as int).len() as int) =~= s.subrange((n + m) as int, s.len() as int));
        pb::DescriptorProto_::DescriptorProtoModel::empty().lemma_stream_bounds(s.subrange((n + m) as int, s.len() as int), l as int);
        self.lemma_single_field(s, 4, wt, n);
    }

    /// A field numbered 5 holds `enum_type`: decoding a buffer that holds just such a field,
    /// whatever its wire type, decodes its payload as a new message and appends it to `enum_type`,
    /// and leaves every other field as it was.
    pub proof fn lemma_decode_enum_type(self, s: Seq<u8>, wt: u32, n: nat, l: u64, m: nat, x: pb::EnumDescriptorProto_::EnumDescriptorProtoModel)
        requires
            parse_tag(s) == Ok::<(u32, u32, nat), DecodeError>((5, wt, n)),
            parse_varint(s.subrange(n as int, s.len() as int)) == Ok::<(u64, nat), DecodeError>((l, m)),
            n + m + l == s.len(),
            pb::EnumDescriptorProto_::EnumDescriptorProtoModel::empty().merge_from(s.subrange((n + m) as int, s.len() as int)) == Ok::<pb::EnumDescriptorProto_::EnumDescriptorProtoModel, DecodeError>(x),
        ensures
            self.merge_from(s) == Ok::<FileDescriptorProtoModel, DecodeError>((FileDescriptorProtoModel { enum_type: self.enum_type.push(x), ..self })),
    {
        reveal(FileDescriptorProtoModel::merge_field);
        lemma_tag_bounds(s);
        lemma_varint_bounds(s.subrange(n as int, s.len() as int));
        assert(s.subrange(n as int, s.len() as int).subrange(m as int, s.subrange(n as int, s.len() as int).len() as int) =~= s.subrange((n + m) as int, s.len() as int));
        pb::EnumDescriptorProto_::EnumDescriptorProtoModel::empty().lemma_stream_bounds(s.subrange((n + m) as int, s.len() as int), l as int);
        self.lemma_single_field(s, 5, wt, n);
    }

    /// A field numbered 6 holds `service`: decoding a buffer that holds just such a field,
    /// whatever its wire type, decodes its payload as a new message and appends it to `service`,
    /// and leaves every other field as it was.
    pub proof fn lemma_decode_service(self, s: Seq<u8>, wt: u32, n: nat, l: u64, m: nat, x: pb::ServiceDescriptorProto_::ServiceDescriptorProtoModel)
        requires
            parse_tag(s) == Ok::<(u32, u32, nat), DecodeError>((6, wt, n)),
            parse_varint(s.subrange(n as int, s.len() as int)) == Ok::<(u64, nat), DecodeError>((l, m)),
            n + m + l == s.len(),
            pb::ServiceDescriptorProto_::ServiceDescriptorProtoModel::empty().merge_from(s.subrange((n + m) as int, s.len() as int)) == Ok::<pb::ServiceDescriptorProto_::ServiceDescriptorProtoModel, DecodeError>(x),
        ensures
            self.merge_from(s) == Ok::<FileDescriptorProtoModel, DecodeError>((FileDescriptorProtoModel { service: self.service.push(x), ..self })),
    {
        reveal(FileDescriptorProtoModel::merge_field);
        lemma_tag_bounds(s);
        lemma_varint_bounds(s.subrange(n as int, s.len() as int));
        assert(s.subrange(n as int, s.len() as int).subrange(m as int, s.subrange(n as int, s.len() as int).len() as int) =~= s.subrange((n + m) as int, s.len() as int));
        pb::ServiceDescriptorProto_::ServiceDescriptorProtoModel::empty().lemma_stream_bounds(s.subrange((n + m) as int, s.len() as int), l as int);
        self.lemma_single_field(s, 6, wt, n);
    }

    /// A field numbered 7 holds `extension`: decoding a buffer that holds just such a field,
    /// whatever its wire type, decodes its payload as a new message and appends it to `extension`,
    /// and leaves every other field as it was.
    pub proof fn lemma_decode_extension(self, s: Seq<u8>, wt: u32, n: nat, l: u64, m: nat, x: pb::FieldDescriptorProto_::FieldDescriptorProtoModel)
        requires
            parse_tag(s) == Ok::<(u32, u32, nat), DecodeError>((7, wt, n)),
            parse_varint(s.subrange(n as int, s.len() as int)) == Ok::<(u64, nat), DecodeError>((l, m)),
            n + m + l == s.len(),
            pb::FieldDescriptorProto_::FieldDescriptorProtoModel::empty().merge_from(s.subrange((n + m) as int, s.len() as int)) == Ok::<pb::FieldDescriptorProto_::FieldDescriptorProtoModel, DecodeError>(x),
        ensures
            self.merge_from(s) == Ok::<FileDescriptorProtoModel, DecodeError>((FileDescriptorProtoModel { extension: self.extension.push(x), ..self })),
    {
        reveal(FileDescriptorProtoModel::merge_field);
        lemma_tag_bounds(s);
        lemma_varint_bounds(s.subrange(n as int, s.len() as int));
        assert(s.subrange(n as int, s.len() as int).subrange(m as int, s.subrange(n as int, s.len() as int).len() as int) =~= s.subrange((n + m) as int, s.len() as int));
        pb::FieldDescriptorProto_::FieldDescriptorProtoModel::empty().lemma_stream_bounds(s.subrange((n + m) as int, s.len() as int), l as int);
        self.lemma_single_field(s, 7, wt, n);
    }

    /// A field numbered 8 holds `options`: decoding a buffer that holds just such a field,
    /// whatever its wire type, merges its payload into `options`, marks it present,
    /// and leaves every other field as it was.
    pub proof fn lemma_decode_options(self, s: Seq<u8>, wt: u32, n: nat, l: u64, m: nat, x: pb::FileOptions_::FileOptionsModel)
        requires
            parse_tag(s) == Ok::<(u32, u32, nat), DecodeError>((8, wt, n)),
            parse_varint(s.subrange(n as int, s.len() as int)) == Ok::<(u64, nat), DecodeError>((l, m)),
            n + m + l == s.len(),
            self.options.merge_from(s.subrange((n + m) as int, s.len() as int)) == Ok::<pb::FileOptions_::FileOptionsModel, DecodeError>(x),
        ensures
            self.merge_from(s) == Ok::<FileDescriptorProtoModel, DecodeError>((FileDescriptorProtoModel { options: x, _has: self._has.update(2, true), ..self })),
    {
        reveal(FileDescriptorProtoModel::merge_field);
        lemma_tag_bounds(s);
        lemma_varint_bounds(s.subrange(n as int, s.len() as int));
        assert(s.subrange(n as int, s.len() as int).subrange(m as int, s.subrange(n as int, s.len() as int).len() as int) =~= s.subrange((n + m) as int, s.len() as int));
        self.options.lemma_stream_bounds(s.subrange((n + m) as int, s.len() as int), l as int);
        self.lemma_single_field(s, 8, wt, n);
    }

    /// A field numbered 9 holds `source_code_info`: decoding a buffer that holds just such a field,
    /// whatever its wire type, merges its payload into `source_code_info`, marks it present,
    /// and leaves every other field as it was.
    pub proof fn lemma_decode_source_code_info(self, s: Seq<u8>, wt: u32, n: nat, l: u64, m: nat, x: pb::SourceCodeInfo_::SourceCodeInfoModel)
        requires
            parse_tag(s) == Ok::<(u32, u32, nat), DecodeError>((9, wt, n)),
            parse_varint(s.subrange(n as int, s.len() as int)) == Ok::<(u64, nat), DecodeError>((l, m)),
            n + m + l == s.len(),
            self.source_code_info.merge_from(s.subrange((n + m) as int, s.len() as int)) == Ok::<pb::SourceCodeInfo_::SourceCodeInfoModel, DecodeError>(x),
        ensures
            self.merge_from(s) == Ok::<FileDescriptorProtoModel, DecodeError>((FileDescriptorProtoModel { source_code_info: x, _has: self._has.update(3, true), ..self })),
    {
        reveal(FileDescriptorProtoModel::merge_field);
        lemma_tag_bounds(s);
        lemma_varint_bounds(s.subrange(n as int, s.len() as int));
        assert(s.subrange(n as int, s.len() as int).subrange(m as int, s.subrange(n as int, s.len() as int).len() as int) =~= s.subrange((n + m) as int, s.len() as int));
        self.source_code_info.lemma_stream_bounds(s.subrange((n + m) as int, s.len() as int), l as int);
        self.lemma_single_field(s, 9, wt, n);
    }

    /// A field numbered 12 holds `syntax`: decoding a buffer that holds just such a field,
    /// whatever its wire type, sets `syntax` to the text of its payload, marks it present,
    /// and leaves every other field as it was.
    pub proof fn lemma_decode_syntax(self, s: Seq<u8>, wt: u32, n: nat, p: Seq<u8>, k: nat)
        requires
            parse_tag(s) == Ok::<(u32, u32, nat), DecodeError>((12, wt, n)),
            parse_len(s.subrange(n as int, s.len() as int)) == Ok::<(Seq<u8>, nat), DecodeError>((p, k)),
            n + k == s.len(),
            valid_utf8(p),
        ensures
            self.merge_from(s) == Ok::<FileDescriptorProtoModel, DecodeError>((FileDescriptorProtoModel { syntax: decode_utf8(p), _has: self._has.update(4, true), ..self })),
    {
        reveal(FileDescriptorProtoModel::merge_field);
        self.lemma_single_field(s, 12, wt, n);
    }

    /// A field numbered 14 holds `edition`: decoding a buffer that holds just such a field,
    /// whatever its wire type, sets `edition` to the low 32 bits of the varint, marks it present,
    /// and leaves every other field as it was.
    pub proof fn lemma_decode_edition(self, s: Seq<u8>, wt: u32, n: nat, v: u64, k: nat)
        requires
            parse_tag(s) == Ok::<(u32, u32, nat), DecodeError>((14, wt, n)),
            parse_varint(s.subrange(n as int, s.len() as int)) == Ok::<(u64, nat), DecodeError>((v, k)),
            n + k == s.len(),
        ensures
            self.merge_from(s) == Ok::<FileDescriptorProtoModel, DecodeError>((FileDescriptorProtoModel { edition: pb::Edition(varint_as_i32(v)), _has: self._has.update(5, true), ..self })),
    {
        reveal(FileDescriptorProtoModel::merge_field);
        self.lemma_single_field(s, 14, wt, n);
    }

    /// A field whose number this message does not define is skipped by its wire type:
    /// decoding a buffer that holds just such a field leaves the message as it was.
    pub proof fn lemma_decode_unknown(self, s: Seq<u8>, num: u32, wt: u32, n: nat, k: nat)
        requires
            parse_tag(s) == Ok::<(u32, u32, nat), DecodeError>((num, wt, n)),
            num != 0,
            num != 1 && num != 2 && num != 3 && num != 10 && num != 11 && num != 4 && num != 5 && num != 6 && num != 7 && num != 8 && num != 9 && num != 12 && num != 14,
            skip_len(s.subrange(n as int, s.len() as int), wt) == Ok::<nat, DecodeError>(k),
            n + k == s.len(),
        ensures
            self.merge_from(s) == Ok::<FileDescriptorProtoModel, DecodeError>(self),
    {
        reveal(FileDescriptorProtoModel::merge_field);
        self.lemma_single_field(s, num, wt, n);
    }
}

impl Default for FileDescriptorProto {
    fn default() -> (r: Self)
        ensures
            r@ == FileDescriptorProtoModel::empty(),
    {
        let r = FileDescriptorProto {
            name: String::new(),
            package: String::new(),
            dependency: Vec::new(),
            public_dependency: Vec::new(),
            weak_dependency: Vec::new(),
            message_type: Vec::new(),
            enum_type: Vec::new(),
            service: Vec::new(),
            extension: Vec::new(),
            options: pb::FileOptions_::FileOptions::default(),
            source_code_info: pb::SourceCodeInfo_::SourceCodeInfo::default(),
            syntax: String::new(),
            edition: pb::Edition::default(),
            _has: _Hazzer::default(),
        };
        assert(r@ =~= FileDescriptorProtoModel::empty());
        r
    }
}

impl FileDescriptorProto {
    ///Return a reference to `name` as an `Option`
    #[inline]
    pub fn name(&self) -> (r: Option<&String>)
        ensures
            r == (if self._has@[0] {
                Some(&self.name)
            } else {
                None
            }),
    {
        if self._has.name() {
            Some(&self.name)
        } else {
            None
        }
    }

    ///Return a mutable reference to `name` as an `Option`
    #[inline]
    pub fn mut_name(&mut self) -> (r: Option<&mut String>)
        ensures
            old(self)._has@[0] ==> r is Some && *r->0 == old(self).name && final(self).name
                == *final(r->0) && *final(self) == (FileDescriptorProto { name: final(self).name, ..*old(self) }),
            !old(self)._has@[0] ==> r is None && *final(self) == *old(self),
    {
        if self._has.name() {
            Some(&mut self.name)
        } else {
            None
        }
    }

    ///Set the value and presence of `name`
    #[inline]
    pub fn set_name(&mut self, value: String) -> (r: &mut Self)
        ensures
            r._has@ == old(self)._has@.update(0, true),
            *r == (FileDescriptorProto { name: value, _has: r._has, ..*old(self) }),
            *final(self) == *final(r),
    {
        self._has.set_name();
        self.name = value;
        self
    }

    ///Clear the presence of `name`
    #[inline]
    pub fn clear_name(&mut self) -> (r: &mut Self)
        ensures
            r._has@ == old(self)._has@.update(0, false),
            *r == (FileDescriptorProto { _has: r._has, ..*old(self) }),
            *final(self) == *final(r),
    {
        self._has.clear_name();
        self
    }

    ///Take the value of `name` and clear its presence
    #[inline]
    pub fn take_name(&mut self) -> (r: Option<String>)
        ensures
            r == (if old(self)._has@[0] {
                Some(old(self).name)
            } else {
                None
            }),
            final(self)._has@ == old(self)._has@.update(0, false),
            old(self)._has@[0] ==> final(self).name@ == Seq::<char>::empty(),
            !old(self)._has@[0] ==> final(self).name == old(self).name,
            *final(self) == (FileDescriptorProto { name: final(self).name, _has: final(self)._has, ..*old(self) }),
    {
        let val = if self._has.name() {
            let mut v: String = String::new();
            std::mem::swap(&mut self.name, &mut v);
            Some(v)
        } else {
            None
        };
        self._has.clear_name();
        val
    }

    ///Builder method that sets the value of `name`. Useful for initializing the message.
    #[inline]
    pub fn init_name(self, value: String) -> (r: Self)
        ensures
            r._has@ == self._has@.update(0, true),
            r == (FileDescriptorProto { name: value, _has: r._has, ..self }),
    {
        let mut s = self;
        s.set_name(value);
        s
    }

    ///Return a reference to `package` as an `Option`
    #[inline]
    pub fn package(&self) -> (r: Option<&String>)
        ensures
            r == (if self._has@[1] {
                Some(&self.package)
            } else {
                None
            }),
    {
        if self._has.package() {
            Some(&self.package)
        } else {
            None
        }
    }

    ///Return a mutable reference to `package` as an `Option`
    #[inline]
    pub fn mut_package(&mut self) -> (r: Option<&mut String>)
        ensures
            old(self)._has@[1] ==> r is Some && *r->0 == old(self).package && final(self).package
                == *final(r->0) && *final(self) == (FileDescriptorProto { package: final(self).package, ..*old(self) }),
            !old(self)._has@[1] ==> r is None && *final(self) == *old(self),
    {
        if self._has.package() {
            Some(&mut self.package)
        } else {
            None
        }
    }

    ///Set the value and presence of `package`
    #[inline]
    pub fn set_package(&mut self, value: String) -> (r: &mut Self)
        ensures
            r._has@ == old(self)._has@.update(1, true),
            *r == (FileDescriptorProto { package: value, _has: r._has, ..*old(self) }),
            *final(self) == *final(r),
    {
        self._has.set_package();
        self.package = value;
        self
    }

    ///Clear the presence of `package`
    #[inline]
    pub fn clear_package(&mut self) -> (r: &mut Self)
        ensures
            r._has@ == old(self)._has@.update(1, false),
            *r == (FileDescriptorProto { _has: r._has, ..*old(self) }),
            *final(self) == *final(r),
    {
        self._has.clear_package();
        self
    }

    ///Take the value of `package` and clear its presence
    #[inline]
    pub fn take_package(&mut self) -> (r: Option<String>)
        ensures
            r == (if old(self)._has@[1] {
                Some(old(self).package)
            } else {
                None
            }),
            final(self)._has@ == old(self)._has@.update(1, false),
            old(self)._has@[1] ==> final(self).package@ == Seq::<char>::empty(),
            !old(self)._has@[1] ==> final(self).package == old(self).package,
            *final(self) == (FileDescriptorProto { package: final(self).package, _has: final(self)._has, ..*old(self) }),
    {
        let val = if self._has.package() {
            let mut v: String = String::new();
            std::mem::swap(&mut self.package, &mut v);
            Some(v)
        } else {
            None
        };
        self._has.clear_package();
        val
    }

    ///Builder method that sets the value of `package`. Useful for initializing the message.
    #[inline]
    pub fn init_package(self, value: String) -> (r: Self)
        ensures
            r._has@ == self._has@.update(1, true),
            r == (FileDescriptorProto { package: value, _has: r._has, ..self }),
    {
        let mut s = self;
        s.set_package(value);
        s
    }

    ///Return a reference to `options` as an `Option`
    #[inline]
    pub fn options(&self) -> (r: Option<&pb::FileOptions_::FileOptions>)
        ensures
            r == (if self._has@[2] {
                Some(&self.options)
            } else {
                None
            }),
    {
        if self._has.options() {
            Some(&self.options)
        } else {
            None
        }
    }

    ///Return a mutable reference to `options` as an `Option`
    #[inline]
    pub fn mut_options(&mut self) -> (r: Option<&mut pb::FileOptions_::FileOptions>)
        ensures
            old(self)._has@[2] ==> r is Some && *r->0 == old(self).options && final(self).options
                == *final(r->0) && *final(self) == (FileDescriptorProto { options: final(self).options, ..*old(self) }),
            !old(self)._has@[2] ==> r is None && *final(self) == *old(self),
    {
        if self._has.options() {
            Some(&mut self.options)
        } else {
            None
        }
    }

    ///Set the value and presence of `options`
    #[inline]
    pub fn set_options(&mut self, value: pb::FileOptions_::FileOptions) -> (r: &mut Self)
        ensures
            r._has@ == old(self)._has@.update(2, true),
            *r == (FileDescriptorProto { options: value, _has: r._has, ..*old(self) }),
            *final(self) == *final(r),
    {
        self._has.set_options();
        self.options = value;
        self
    }

    ///Clear the presence of `options`
    #[inline]
    pub fn clear_options(&mut self) -> (r: &mut Self)
        ensures
            r._has@ == old(self)._has@.update(2, false),
            *r == (FileDescriptorProto { _has: r._has, ..*old(self) }),
            *final(self) == *final(r),
    {
        self._has.clear_options();
        self
    }

    ///Take the value of `options` and clear its presence
    #[inline]
    pub fn take_options(&mut self) -> (r: Option<pb::FileOptions_::FileOptions>)
        ensures
            r == (if old(self)._has@[2] {
                Some(old(self).options)
            } else {
                None
            }),
            final(self)._has@ == old(self)._has@.update(2, false),
            old(self)._has@[2] ==> final(self).options@ == pb::FileOptions_::FileOptionsModel::empty(),
            !old(self)._has@[2] ==> final(self).options == old(self).options,
            *final(self) == (FileDescriptorProto { options: final(self).options, _has: final(self)._has, ..*old(self) }),
    {
        let val = if self._has.options() {
            let mut v: pb::FileOptions_::FileOptions = pb::FileOptions_::FileOptions::default();
            std::mem::swap(&mut self.options, &mut v);
            Some(v)
        } else {
            None
        };
        self._has.clear_options();
        val
    }

    ///Builder method that sets the value of `options`. Useful for initializing the message.
    #[inline]
    pub fn init_options(self, value: pb::FileOptions_::FileOptions) -> (r: Self)
        ensures
            r._has@ == self._has@.update(2, true),
            r == (FileDescriptorProto { options: value, _has: r._has, ..self }),
    {
        let mut s = self;
        s.set_options(value);
        s
    }

    ///Return a reference to `source_code_info` as an `Option`
    #[inline]
    pub fn source_code_info(&self) -> (r: Option<&pb::SourceCodeInfo_::SourceCodeInfo>)
        ensures
            r == (if self._has@[3] {
                Some(&self.source_code_info)
            } else {
                None
            }),
    {
        if self._has.source_code_info() {
            Some(&self.source_code_info)
        } else {
            None
        }
    }

    ///Return a mutable reference to `source_code_info` as an `Option`
    #[inline]
    pub fn mut_source_code_info(&mut self) -> (r: Option<&mut pb::SourceCodeInfo_::SourceCodeInfo>)
        ensures
            old(self)._has@[3] ==> r is Some && *r->0 == old(self).source_code_info && final(self).source_code_info
                == *final(r->0) && *final(self) == (FileDescriptorProto { source_code_info: final(self).source_code_info, ..*old(self) }),
            !old(self)._has@[3] ==> r is None && *final(self) == *old(self),
    {
        if self._has.source_code_info() {
            Some(&mut self.source_code_info)
        } else {
            None
        }
    }

    ///Set the value and presence of `source_code_info`
    #[inline]
    pub fn set_source_code_info(&mut self, value: pb::SourceCodeInfo_::SourceCodeInfo) -> (r: &mut Self)
        ensures
            r._has@ == old(self)._has@.update(3, true),
            *r == (FileDescriptorProto { source_code_info: value, _has: r._has, ..*old(self) }),
            *final(self) == *final(r),
    {
        self._has.set_source_code_info();
        self.source_code_info = value;
        self
    }

    ///Clear the presence of `source_code_info`
    #[inline]
    pub fn clear_source_code_info(&mut self) -> (r: &mut Self)
        ensures
            r._has@ == old(self)._has@.update(3, false),
            *r == (FileDescriptorProto { _has: r._has, ..*old(self) }),
            *final(self) == *final(r),
    {
        self._has.clear_source_code_info();
        self
    }

    ///Take the value of `source_code_info` and clear its presence
    #[inline]
    pub fn take_source_code_info(&mut self) -> (r: Option<pb::SourceCodeInfo_::SourceCodeInfo>)
        ensures
            r == (if old(self)._has@[3] {
                Some(old(self).source_code_info)
            } else {
                None
            }),
            final(self)._has@ == old(self)._has@.update(3, false),
            old(self)._has@[3] ==> final(self).source_code_info@ == pb::SourceCodeInfo_::SourceCodeInfoModel::empty(),
            !old(self)._has@[3] ==> final(self).source_code_info == old(self).source_code_info,
            *final(self) == (FileDescriptorProto { source_code_info: final(self).source_code_info, _has: final(self)._has, ..*old(self) }),
    {
        let val = if self._has.source_code_info() {
            let mut v: pb::SourceCodeInfo_::SourceCodeInfo = pb::SourceCodeInfo_::SourceCodeInfo::default();
            std::mem::swap(&mut self.source_code_info, &mut v);
            Some(v)
        } else {
            None
        };
        self._has.clear_source_code_info();
        val
    }

    ///Builder method that sets the value of `source_code_info`. Useful for initializing the message.
    #[inline]
    pub fn init_source_code_info(self, value: pb::SourceCodeInfo_::SourceCodeInfo) -> (r: Self)
        ensures
            r._has@ == self._has@.update(3, true),
            r == (FileDescriptorProto { source_code_info: value, _has: r._has, ..self }),
    {
        let mut s = self;
        s.set_source_code_info(value);
        s
    }

    ///Return a reference to `syntax` as an `Option`
    #[inline]
    pub fn syntax(&self) -> (r: Option<&String>)
        ensures
            r == (if self._has@[4] {
                Some(&self.syntax)
            } else {
                None
            }),
    {
        if self._has.syntax() {
            Some(&self.syntax)
        } else {
            None
        }
    }

    ///Return a mutable reference to `syntax` as an `Option`
    #[inline]
    pub fn mut_syntax(&mut self) -> (r: Option<&mut String>)
        ensures
            old(self)._has@[4] ==> r is Some && *r->0 == old(self).syntax && final(self).syntax
                == *final(r->0) && *final(self) == (FileDescriptorProto { syntax: final(self).syntax, ..*old(self) }),
            !old(self)._has@[4] ==> r is None && *final(self) == *old(self),
    {
        if self._has.syntax() {
            Some(&mut self.syntax)
        } else {
            None
        }
    }

    ///Set the value and presence of `syntax`
    #[inline]
    pub fn set_syntax(&mut self, value: String) -> (r: &mut Self)
        ensures
            r._has@ == old(self)._has@.update(4, true),
            *r == (FileDescriptorProto { syntax: value, _has: r._has, ..*old(self) }),
            *final(self) == *final(r),
    {
        self._has.set_syntax();
        self.syntax = value;
        self
    }

    ///Clear the presence of `syntax`
    #[inline]
    pub fn clear_syntax(&mut self) -> (r: &mut Self)
        ensures
            r._has@ == old(self)._has@.update(4, false),
            *r == (FileDescriptorProto { _has: r._has, ..*old(self) }),
            *final(self) == *final(r),
    {
        self._has.clear_syntax();
        self
    }

    ///Take the value of `syntax` and clear its presence
    #[inline]
    pub fn take_syntax(&mut self) -> (r: Option<String>)
        ensures
            r == (if old(self)._has@[4] {
                Some(old(self).syntax)
            } else {
                None
            }),
            final(self)._has@ == old(self)._has@.update(4, false),
            old(self)._has@[4] ==> final(self).syntax@ == Seq::<char>::empty(),
            !old(self)._has@[4] ==> final(self).syntax == old(self).syntax,
            *final(self) == (FileDescriptorProto { syntax: final(self).syntax, _has: final(self)._has, ..*old(self) }),
    {
        let val = if self._has.syntax() {
            let mut v: String = String::new();
            std::mem::swap(&mut self.syntax, &mut v);
            Some(v)
        } else {
            None
        };
        self._has.clear_syntax();
        val
    }

    ///Builder method that sets the value of `syntax`. Useful for initializing the message.
    #[inline]
    pub fn init_syntax(self, value: String) -> (r: Self)
        ensures
            r._has@ == self._has@.update(4, true),
            r == (FileDescriptorProto { syntax: value, _has: r._has, ..self }),
    {
        let mut s = self;
        s.set_syntax(value);
        s
    }

    ///Return a reference to `edition` as an `Option`
    #[inline]
    pub fn edition(&self) -> (r: Option<&pb::Edition>)
        ensures
            r == (if self._has@[5] {
                Some(&self.edition)
            } else {
                None
            }),
    {
        if self._has.edition() {
            Some(&self.edition)
        } else {
            None
        }
    }

    ///Return a mutable reference to `edition` as an `Option`
    #[inline]
    pub fn mut_edition(&mut self) -> (r: Option<&mut pb::Edition>)
        ensures
            old(self)._has@[5] ==> r is Some && *r->0 == old(self).edition && final(self).edition
                == *final(r->0) && *final(self) == (FileDescriptorProto { edition: final(self).edition, ..*old(self) }),
            !old(self)._has@[5] ==> r is None && *final(self) == *old(self),
    {
        if self._has.edition() {
            Some(&mut self.edition)
        } else {
            None
        }
    }

    ///Set the value and presence of `edition`
    #[inline]
    pub fn set_edition(&mut self, value: pb::Edition) -> (r: &mut Self)
        ensures
            r._has@ == old(self)._has@.update(5, true),
            *r == (FileDescriptorProto { edition: value, _has: r._has, ..*old(self) }),
            *final(self) == *final(r),
    {
        self._has.set_edition();
        self.edition = value;
        self
    }

    ///Clear the presence of `edition`
    #[inline]
    pub fn clear_edition(&mut self) -> (r: &mut Self)
        ensures
            r._has@ == old(self)._has@.update(5, false),
            *r == (FileDescriptorProto { _has: r._has, ..*old(self) }),
            *final(self) == *final(r),
    {
        self._has.clear_edition();
        self
    }

    ///Take the value of `edition` and clear its presence
    #[inline]
    pub fn take_edition(&mut self) -> (r: Option<pb::Edition>)
        ensures
            r == (if old(self)._has@[5] {
                Some(old(self).edition)
            } else {
                None
            }),
            final(self)._has@ == old(self)._has@.update(5, false),
            old(self)._has@[5] ==> final(self).edition == pb::Edition(0),
            !old(self)._has@[5] ==> final(self).edition == old(self).edition,
            *final(self) == (FileDescriptorProto { edition: final(self).edition, _has: final(self)._has, ..*old(self) }),
    {
        let val = if self._has.edition() {
            let mut v: pb::Edition = pb::Edition::default();
            std::mem::swap(&mut self.edition, &mut v);
            Some(v)
        } else {
            None
        };
        self._has.clear_edition();
        val
    }

    ///Builder method that sets the value of `edition`. Useful for initializing the message.
    #[inline]
    pub fn init_edition(self, value: pb::Edition) -> (r: Self)
        ensures
            r._has@ == self._has@.update(5, true),
            r == (FileDescriptorProto { edition: value, _has: r._has, ..self }),
    {
        let mut s = self;
        s.set_edition(value);
        s
    }

    /// Merges the value of the field numbered `num`, with wire type `wt`, that starts at
    /// `pos` in `buf` into the message, and gives the position just past the value.
    pub fn merge_field(&mut self, num: u32, wt: u32, buf: &[u8], pos: usize) -> (r: Result<usize, DecodeError>)
        requires
            pos <= buf.len(),
        ensures
            match old(self)@.merge_field(num, wt, buf@.subrange(pos as int, buf.len() as int)) {
                Ok((m, k)) => r matches Ok(next) && next == pos + k && final(self)@ == m,
                Err(e) => r == Err::<usize, DecodeError>(e),
            },
            r matches Ok(next) ==> next <= buf.len(),
            r is Err ==> final(self)@ == old(self)@.merge_field_partial(num, wt, buf@.subrange(pos as int, buf.len() as int)),
    {
        proof {
            reveal(FileDescriptorProtoModel::merge_field);
        }
        match num {
            1 => self.merge_name_field(wt, buf, pos),
            2 => self.merge_package_field(wt, buf, pos),
            3 => self.merge_dependency_field(wt, buf, pos),
            10 => self.merge_public_dependency_field(wt, buf, pos),
            11 => self.merge_weak_dependency_field(wt, buf, pos),
            4 => self.merge_message_type_field(wt, buf, pos),
            5 => self.merge_enum_type_field(wt, buf, pos),
            6 => self.merge_service_field(wt, buf, pos),
            7 => self.merge_extension_field(wt, buf, pos),
            8 => self.merge_options_field(wt, buf, pos),
            9 => self.merge_source_code_info_field(wt, buf, pos),
            12 => self.merge_syntax_field(wt, buf, pos),
            14 => self.merge_edition_field(wt, buf, pos),
            _ => skip_value(buf, pos, buf.len(), wt),
        }
    }

    /// Merges the value of a field numbered 1, starting at `pos` in `buf`, into `name`.
    fn merge_name_field(&mut self, wt: u32, buf: &[u8], pos: usize) -> (r: Result<usize, DecodeError>)
        requires
            pos <= buf.len(),
        ensures
            match old(self)@.merge_field(1, wt, buf@.subrange(pos as int, buf.len() as int)) {
                Ok((m, k)) => r matches Ok(next) && next == pos + k && final(self)@ == m,
                Err(e) => r == Err::<usize, DecodeError>(e),
            },
            r matches Ok(next) ==> next <= buf.len(),
            r is Err ==> final(self)@ == old(self)@.merge_field_partial(1, wt, buf@.subrange(pos as int, buf.len() as int)),
    {
        proof {
            reveal(FileDescriptorProtoModel::merge_field);
        }
        let ghost m0 = self@;
        let end = buf.len();
        match read_len(buf, pos, end) {
            Ok((a, b)) => match read_string(buf, a, b) {
                Ok(st) => {
                    let ghost t = st@;
                    self.name = st;
                    self._has.set_name();
                    proof {
                        assert(self@ =~= (FileDescriptorProtoModel { name: t, _has: m0._has.update(0, true), ..m0 }));
                    }
                    Ok(b)
                },
                Err(e) => Err(e),
            },
            Err(e) => Err(e),
        }
    }

    /// Merges the value of a field numbered 2, starting at `pos` in `buf`, into `package`.
    fn merge_package_field(&mut self, wt: u32, buf: &[u8], pos: usize) -> (r: Result<usize, DecodeError>)
        requires
            pos <= buf.len(),
        ensures
            match old(self)@.merge_field(2, wt, buf@.subrange(pos as int, buf.len() as int)) {
                Ok((m, k)) => r matches Ok(next) && next == pos + k && final(self)@ == m,
                Err(e) => r == Err::<usize, DecodeError>(e),
            },
            r matches Ok(next) ==> next <= buf.len(),
            r is Err ==> final(self)@ == old(self)@.merge_field_partial(2, wt, buf@.subrange(pos as int, buf.len() as int)),
    {
        proof {
            reveal(FileDescriptorProtoModel::merge_field);
        }
        let ghost m0 = self@;
        let end = buf.len();
        match read_len(buf, pos, end) {
            Ok((a, b)) => match read_string(buf, a, b) {
                Ok(st) => {
                    let ghost t = st@;
                    self.package = st;
                    self._has.set_package();
                    proof {
                        assert(self@ =~= (FileDescriptorProtoModel { package: t, _has: m0._has.update(1, true), ..m0 }));
                    }
                    Ok(b)
                },
                Err(e) => Err(e),
            },
            Err(e) => Err(e),
        }
    }

    /// Merges the value of a field numbered 3, starting at `pos` in `buf`, into `dependency`.
    fn merge_dependency_field(&mut self, wt: u32, buf: &[u8], pos: usize) -> (r: Result<usize, DecodeError>)
        requires
            pos <= buf.len(),
        ensures
            match old(self)@.merge_field(3, wt, buf@.subrange(pos as int, buf.len() as int)) {
                Ok((m, k)) => r matches Ok(next) && next == pos + k && final(self)@ == m,
                Err(e) => r == Err::<usize, DecodeError>(e),
            },
            r matches Ok(next) ==> next <= buf.len(),
            r is Err ==> final(self)@ == old(self)@.merge_field_partial(3, wt, buf@.subrange(pos as int, buf.len() as int)),
    {
        proof {
            reveal(FileDescriptorProtoModel::merge_field);
        }
        let ghost m0 = self@;
        let end = buf.len();
        match read_len(buf, pos, end) {
            Ok((a, b)) => match read_string(buf, a, b) {
                Ok(st) => {
                    let ghost t = st@;
                    self.dependency.push(st);
                    proof {
                        assert(self@ =~= (FileDescriptorProtoModel { dependency: m0.dependency.push(t), ..m0 }));
                    }
                    Ok(b)
                },
                Err(e) => Err(e),
            },
            Err(e) => Err(e),
        }
    }

    /// Merges the value of a field numbered 10, starting at `pos` in `buf`, into `public_dependency`.
    fn merge_public_dependency_field(&mut self, wt: u32, buf: &[u8], pos: usize) -> (r: Result<usize, DecodeError>)
        requires
            pos <= buf.len(),
        ensures
            match old(self)@.merge_field(10, wt, buf@.subrange(pos as int, buf.len() as int)) {
                Ok((m, k)) => r matches Ok(next) && next == pos + k && final(self)@ == m,
                Err(e) => r == Err::<usize, DecodeError>(e),
            },
            r matches Ok(next) ==> next <= buf.len(),
            r is Err ==> final(self)@ == old(self)@.merge_field_partial(10, wt, buf@.subrange(pos as int, buf.len() as int)),
    {
        proof {
            reveal(FileDescriptorProtoModel::merge_field);
        }
        let ghost m0 = self@;
        let end = buf.len();
        if wt == WIRE_TYPE_LEN {
            match read_len(buf, pos, end) {
                Ok((a, b)) => match read_packed_i32(buf, a, b) {
                    Ok(vs) => {
                        let ghost vs0 = vs@;
                        let mut vs = vs;
                        self.public_dependency.append(&mut vs);
                        proof {
                            assert(self@ =~= (FileDescriptorProtoModel { public_dependency: m0.public_dependency + vs0, ..m0 }));
                        }
                        Ok(b)
                    },
                    Err(e) => Err(e),
                },
                Err(e) => Err(e),
            }
        } else {
            match read_varint(buf, pos, end) {
                Ok((v, next)) => {
                    self.public_dependency.push(to_i32(v));
                    proof {
                        assert(self@ =~= (FileDescriptorProtoModel { public_dependency: m0.public_dependency.push(varint_as_i32(v)), ..m0 }));
                    }
                    Ok(next)
                },
                Err(e) => Err(e),
            }
        }
    }

    /// Merges the value of a field numbered 11, starting at `pos` in `buf`, into `weak_dependency`.
    fn merge_weak_dependency_field(&mut self, wt: u32, buf: &[u8], pos: usize) -> (r: Result<usize, DecodeError>)
        requires
            pos <= buf.len(),
        ensures
            match old(self)@.merge_field(11, wt, buf@.subrange(pos as int, buf.len() as int)) {
                Ok((m, k)) => r matches Ok(next) && next == pos + k && final(self)@ == m,
                Err(e) => r == Err::<usize, DecodeError>(e),
            },
            r matches Ok(next) ==> next <= buf.len(),
            r is Err ==> final(self)@ == old(self)@.merge_field_partial(11, wt, buf@.subrange(pos as int, buf.len() as int)),
    {
        proof {
            reveal(FileDescriptorProtoModel::merge_field);
        }
        let ghost m0 = self@;
        let end = buf.len();
        if wt == WIRE_TYPE_LEN {
            match read_len(buf, pos, end) {
                Ok((a, b)) => match read_packed_i32(buf, a, b) {
                    Ok(vs) => {
                        let ghost vs0 = vs@;
                        let mut vs = vs;
                        self.weak_dependency.append(&mut vs);
                        proof {
                            assert(self@ =~= (FileDescriptorProtoModel { weak_dependency: m0.weak_dependency + vs0, ..m0 }));
                        }
                        Ok(b)
                    },
                    Err(e) => Err(e),
                },
                Err(e) => Err(e),
            }
        } else {
            match read_varint(buf, pos, end) {
                Ok((v, next)) => {
                    self.weak_dependency.push(to_i32(v));
                    proof {
                        assert(self@ =~= (FileDescriptorProtoModel { weak_dependency: m0.weak_dependency.push(varint_as_i32(v)), ..m0 }));
                    }
                    Ok(next)
                },
                Err(e) => Err(e),
            }
        }
    }

    /// Merges the value of a field numbered 4, starting at `pos` in `buf`, into `message_type`.
    fn merge_message_type_field(&mut self, wt: u32, buf: &[u8], pos: usize) -> (r: Result<usize, DecodeError>)
        requires
            pos <= buf.len(),
        ensures
            match old(self)@.merge_field(4, wt, buf@.subrange(pos as int, buf.len() as int)) {
                Ok((m, k)) => r matches Ok(next) && next == pos + k && final(self)@ == m,
                Err(e) => r == Err::<usize, DecodeError>(e),
            },
            r matches Ok(next) ==> next <= buf.len(),
            r is Err ==> final(self)@ == old(self)@.merge_field_partial(4, wt, buf@.subrange(pos as int, buf.len() as int)),
    {
        proof {
            reveal(FileDescriptorProtoModel::merge_field);
        }
        let ghost m0 = self@;
        let end = buf.len();
        match read_varint(buf, pos, end) {
            Ok((l, q)) => {
                proof {
                    assert(buf@.subrange(pos as int, end as int).subrange((q - pos) as int, (end - pos) as int) =~= buf@.subrange(q as int, end as int));
                }
                let mut v = pb::DescriptorProto_::DescriptorProto::default();
                match v.decode(buf, q, l) {
                    Ok(next) => {
                        let ghost vm = v@;
                        self.message_type.push(v);
                        proof {
                            assert(self@ =~= (FileDescriptorProtoModel { message_type: m0.message_type.push(vm), ..m0 }));
                        }
                        Ok(next)
                    },
                    Err(e) => Err(e),
                }
            },
            Err(e) => Err(e),
        }
    }

    /// Merges the value of a field numbered 5, starting at `pos` in `buf`, into `enum_type`.
    fn merge_enum_type_field(&mut self, wt: u32, buf: &[u8], pos: usize) -> (r: Result<usize, DecodeError>)
        requires
            pos <= buf.len(),
        ensures
            match old(self)@.merge_field(5, wt, buf@.subrange(pos as int, buf.len() as int)) {
                Ok((m, k)) => r matches Ok(next) && next == pos + k && final(self)@ == m,
                Err(e) => r == Err::<usize, DecodeError>(e),
            },
            r matches Ok(next) ==> next <= buf.len(),
            r is Err ==> final(self)@ == old(self)@.merge_field_partial(5, wt, buf@.subrange(pos as int, buf.len() as int)),
    {
        proof {
            reveal(FileDescriptorProtoModel::merge_field);
        }
        let ghost m0 = self@;
        let end = buf.len();
        match read_varint(buf, pos, end) {
            Ok((l, q)) => {
                proof {
                    assert(buf@.subrange(pos as int, end as int).subrange((q - pos) as int, (end - pos) as int) =~= buf@.subrange(q as int, end as int));
                }
                let mut v = pb::EnumDescriptorProto_::EnumDescriptorProto::default();
                match v.decode(buf, q, l) {
                    Ok(next) => {
                        let ghost vm = v@;
                        self.enum_type.push(v);
                        proof {
                            assert(self@ =~= (FileDescriptorProtoModel { enum_type: m0.enum_type.push(vm), ..m0 }));
                        }
                        Ok(next)
                    },
                    Err(e) => Err(e),
                }
            },
            Err(e) => Err(e),
        }
    }

    /// Merges the value of a field numbered 6, starting at `pos` in `buf`, into `service`.
    fn merge_service_field(&mut self, wt: u32, buf: &[u8], pos: usize) -> (r: Result<usize, DecodeError>)
        requires
            pos <= buf.len(),
        ensures
            match old(self)@.merge_field(6, wt, buf@.subrange(pos as int, buf.len() as int)) {
                Ok((m, k)) => r matches Ok(next) && next == pos + k && final(self)@ == m,
                Err(e) => r == Err::<usize, DecodeError>(e),
            },
            r matches Ok(next) ==> next <= buf.len(),
            r is Err ==> final(self)@ == old(self)@.merge_field_partial(6, wt, buf@.subrange(pos as int, buf.len() as int)),
    {
        proof {
            reveal(FileDescriptorProtoModel::merge_field);
        }
        let ghost m0 = self@;
        let end = buf.len();
        match read_varint(buf, pos, end) {
            Ok((l, q)) => {
                proof {
                    assert(buf@.subrange(pos as int, end as int).subrange((q - pos) as int, (end - pos) as int) =~= buf@.subrange(q as int, end as int));
                }
                let mut v = pb::ServiceDescriptorProto_::ServiceDescriptorProto::default();
                match v.decode(buf, q, l) {
                    Ok(next) => {
                        let ghost vm = v@;
                        self.service.push(v);
                        proof {
                            assert(self@ =~= (FileDescriptorProtoModel { service: m0.service.push(vm), ..m0 }));
                        }
                        Ok(next)
                    },
                    Err(e) => Err(e),
                }
            },
            Err(e) => Err(e),
        }
    }

    /// Merges the value of a field numbered 7, starting at `pos` in `buf`, into `extension`.
    fn merge_extension_field(&mut self, wt: u32, buf: &[u8], pos: usize) -> (r: Result<usize, DecodeError>)
        requires
            pos <= buf.len(),
        ensures
            match old(self)@.merge_field(7, wt, buf@.subrange(pos as int, buf.len() as int)) {
                Ok((m, k)) => r matches Ok(next) && next == pos + k && final(self)@ == m,
                Err(e) => r == Err::<usize, DecodeError>(e),
            },
            r matches Ok(next) ==> next <= buf.len(),
            r is Err ==> final(self)@ == old(self)@.merge_field_partial(7, wt, buf@.subrange(pos as int, buf.len() as int)),
    {
        proof {
            reveal(FileDescriptorProtoModel::merge_field);
        }
        let ghost m0 = self@;
        let end = buf.len();
        match read_varint(buf, pos, end) {
            Ok((l, q)) => {
                proof {
                    assert(buf@.subrange(pos as int, end as int).subrange((q - pos) as int, (end - pos) as int) =~= buf@.subrange(q as int, end as int));
                }
                let mut v = pb::FieldDescriptorProto_::FieldDescriptorProto::default();
                match v.decode(buf, q, l) {
                    Ok(next) => {
                        let ghost vm = v@;
                        self.extension.push(v);
                        proof {
                            assert(self@ =~= (FileDescriptorProtoModel { extension: m0.extension.push(vm), ..m0 }));
                        }
                        Ok(next)
                    },
                    Err(e) => Err(e),
                }
            },
            Err(e) => Err(e),
        }
    }

    /// Merges the value of a field numbered 8, starting at `pos` in `buf`, into `options`.
    fn merge_options_field(&mut self, wt: u32, buf: &[u8], pos: usize) -> (r: Result<usize, DecodeError>)
        requires
            pos <= buf.len(),
        ensures
            match old(self)@.merge_field(8, wt, buf@.subrange(pos as int, buf.len() as int)) {
                Ok((m, k)) => r matches Ok(next) && next == pos + k && final(self)@ == m,
                Err(e) => r == Err::<usize, DecodeError>(e),
            },
            r matches Ok(next) ==> next <= buf.len(),
            r is Err ==> final(self)@ == old(self)@.merge_field_partial(8, wt, buf@.subrange(pos as int, buf.len() as int)),
    {
        proof {
            reveal(FileDescriptorProtoModel::merge_field);
        }
        let ghost m0 = self@;
        let end = buf.len();
        match read_varint(buf, pos, end) {
            Ok((l, q)) => {
                proof {
                    assert(buf@.subrange(pos as int, end as int).subrange((q - pos) as int, (end - pos) as int) =~= buf@.subrange(q as int, end as int));
                }
                match self.options.decode(buf, q, l) {
                    Ok(next) => {
                        self._has.set_options();
                        proof {
                            assert(self@ =~= (FileDescriptorProtoModel { options: self.options@, _has: m0._has.update(2, true), ..m0 }));
                        }
                        Ok(next)
                    },
                    Err(e) => {
                        proof {
                            assert(self@ =~= (FileDescriptorProtoModel { options: self.options@, ..m0 }));
                        }
                        Err(e)
                    },
                }
            },
            Err(e) => Err(e),
        }
    }

    /// Merges the value of a field numbered 9, starting at `pos` in `buf`, into `source_code_info`.
    fn merge_source_code_info_field(&mut self, wt: u32, buf: &[u8], pos: usize) -> (r: Result<usize, DecodeError>)
        requires
            pos <= buf.len(),
        ensures
            match old(self)@.merge_field(9, wt, buf@.subrange(pos as int, buf.len() as int)) {
                Ok((m, k)) => r matches Ok(next) && next == pos + k && final(self)@ == m,
                Err(e) => r == Err::<usize, DecodeError>(e),
            },
            r matches Ok(next) ==> next <= buf.len(),
            r is Err ==> final(self)@ == old(self)@.merge_field_partial(9, wt, buf@.subrange(pos as int, buf.len() as int)),
    {
        proof {
            reveal(FileDescriptorProtoModel::merge_field);
        }
        let ghost m0 = self@;
        let end = buf.len();
        match read_varint(buf, pos, end) {
            Ok((l, q)) => {
                proof {
                    assert(buf@.subrange(pos as int, end as int).subrange((q - pos) as int, (end - pos) as int) =~= buf@.subrange(q as int, end as int));
                }
                match self.source_code_info.decode(buf, q, l) {
                    Ok(next) => {
                        self._has.set_source_code_info();
                        proof {
                            assert(self@ =~= (FileDescriptorProtoModel { source_code_info: self.source_code_info@, _has: m0._has.update(3, true), ..m0 }));
                        }
                        Ok(next)
                    },
                    Err(e) => {
                        proof {
                            assert(self@ =~= (FileDescriptorProtoModel { source_code_info: self.source_code_info@, ..m0 }));
                        }
                        Err(e)
                    },
                }
            },
            Err(e) => Err(e),
        }
    }

    /// Merges the value of a field numbered 12, starting at `pos` in `buf`, into `syntax`.
    fn merge_syntax_field(&mut self, wt: u32, buf: &[u8], pos: usize) -> (r: Result<usize, DecodeError>)
        requires
            pos <= buf.len(),
        ensures
            match old(self)@.merge_field(12, wt, buf@.subrange(pos as int, buf.len() as int)) {
                Ok((m, k)) => r matches Ok(next) && next == pos + k && final(self)@ == m,
                Err(e) => r == Err::<usize, DecodeError>(e),
            },
            r matches Ok(next) ==> next <= buf.len(),
            r is Err ==> final(self)@ == old(self)@.merge_field_partial(12, wt, buf@.subrange(pos as int, buf.len() as int)),
    {
        proof {
            reveal(FileDescriptorProtoModel::merge_field);
        }
        let ghost m0 = self@;
        let end = buf.len();
        match read_len(buf, pos, end) {
            Ok((a, b)) => match read_string(buf, a, b) {
                Ok(st) => {
                    let ghost t = st@;
                    self.syntax = st;
                    self._has.set_syntax();
                    proof {
                        assert(self@ =~= (FileDescriptorProtoModel { syntax: t, _has: m0._has.update(4, true), ..m0 }));
                    }
                    Ok(b)
                },
                Err(e) => Err(e),
            },
            Err(e) => Err(e),
        }
    }

    /// Merges the value of a field numbered 14, starting at `pos` in `buf`, into `edition`.
    fn merge_edition_field(&mut self, wt: u32, buf: &[u8], pos: usize) -> (r: Result<usize, DecodeError>)
        requires
            pos <= buf.len(),
        ensures
            match old(self)@.merge_field(14, wt, buf@.subrange(pos as int, buf.len() as int)) {
                Ok((m, k)) => r matches Ok(next) && next == pos + k && final(self)@ == m,
                Err(e) => r == Err::<usize, DecodeError>(e),
            },
            r matches Ok(next) ==> next <= buf.len(),
            r is Err ==> final(self)@ == old(self)@.merge_field_partial(14, wt, buf@.subrange(pos as int, buf.len() as int)),
    {
        proof {
            reveal(FileDescriptorProtoModel::merge_field);
        }
        let ghost m0 = self@;
        let end = buf.len();
        match read_varint(buf, pos, end) {
            Ok((v, next)) => {
                self.edition = pb::Edition(to_i32(v));
                self._has.set_edition();
                proof {
                    assert(self@ =~= (FileDescriptorProtoModel { edition: pb::Edition(varint_as_i32(v)), _has: m0._has.update(5, true), ..m0 }));
                }
                Ok(next)
            },
            Err(e) => Err(e),
        }
    }

    /// Reads fields from `buf`, from `start` on, into the message while fewer than `len`
    /// bytes have been read, and gives the position just past the last field read.
    #[verifier::rlimit(40)]
    pub fn decode(&mut self, buf: &[u8], start: usize, len: u64) -> (r: Result<usize, DecodeError>)
        requires
            start <= buf.len(),
        ensures
            match old(self)@.decode_stream(buf@.subrange(start as int, buf.len() as int), len as int) {
                Ok((m, c)) => r matches Ok(next) && next == start + c && final(self)@ == m,
                Err(e) => r == Err::<usize, DecodeError>(e),
            },
            r matches Ok(next) ==> next <= buf.len(),
            r is Err ==> final(self)@ == old(self)@.until_error_stream(
                buf@.subrange(start as int, buf.len() as int),
                len as int,
            ),
    {
        let mut pos = start;
        while ((pos - start) as u64) < len
            invariant
                start <= pos <= buf.len(),
                old(self)@.decode_stream(buf@.subrange(start as int, buf.len() as int), len as int)
                    == shift_consumed(
                    self@.decode_stream(buf@.subrange(pos as int, buf.len() as int), len - (pos - start)),
                    (pos - start) as nat,
                ),
                old(self)@.until_error_stream(buf@.subrange(start as int, buf.len() as int), len as int)
                    == self@.until_error_stream(buf@.subrange(pos as int, buf.len() as int), len - (pos - start)),
            decreases buf.len() - pos,
        {
            let ghost s = buf@.subrange(pos as int, buf.len() as int);
            let (num, wt, p) = match read_tag(buf, pos, buf.len()) {
                Ok(x) => x,
                Err(e) => return Err(e),
            };
            if num == 0 {
                return Err(DecodeError::ZeroField);
            }
            proof {
                lemma_tag_bounds(s);
                assert(s.subrange((p - pos) as int, s.len() as int) =~= buf@.subrange(p as int, buf.len() as int));
            }
            let next = match self.merge_field(num, wt, buf, p) {
                Ok(x) => x,
                Err(e) => return Err(e),
            };
            proof {
                let rest = buf@.subrange(p as int, buf.len() as int);
                assert(rest.subrange((next - p) as int, rest.len() as int) =~= buf@.subrange(
                    next as int,
                    buf.len() as int,
                ));
            }
            pos = next;
        }
        Ok(pos)
    }

    /// Merges the fields encoded in `bytes` into the message.
    pub fn decode_from_bytes(&mut self, bytes: &[u8]) -> (r: Result<(), DecodeError>)
        ensures
            match old(self)@.merge_from(bytes@) {
                Ok(m) => r is Ok && final(self)@ == m,
                Err(e) => r == Err::<(), DecodeError>(e),
            },
            r is Err ==> final(self)@ == old(self)@.merge_until_error(bytes@),
    {
        assert(bytes@.subrange(0, bytes@.len() as int) =~= bytes@);
        match self.decode(bytes, 0, bytes.len() as u64) {
            Ok(_) => Ok(()),
            Err(e) => Err(e),
        }
    }
}

} // verus!
