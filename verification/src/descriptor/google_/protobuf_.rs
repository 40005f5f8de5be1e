//! The `google.protobuf` Protobuf package.
use vstd::prelude::*;

pub mod FileDescriptorSet_;
pub use FileDescriptorSet_::FileDescriptorSet;
pub mod FileDescriptorProto_;
pub use FileDescriptorProto_::FileDescriptorProto;
pub mod DescriptorProto_;
pub use DescriptorProto_::DescriptorProto;
pub mod ExtensionRangeOptions_;
pub use ExtensionRangeOptions_::ExtensionRangeOptions;
pub mod FieldDescriptorProto_;
pub use FieldDescriptorProto_::FieldDescriptorProto;
pub mod OneofDescriptorProto_;
pub use OneofDescriptorProto_::OneofDescriptorProto;
pub mod EnumDescriptorProto_;
pub use EnumDescriptorProto_::EnumDescriptorProto;
pub mod EnumValueDescriptorProto_;
pub use EnumValueDescriptorProto_::EnumValueDescriptorProto;
pub mod ServiceDescriptorProto_;
pub use ServiceDescriptorProto_::ServiceDescriptorProto;
pub mod MethodDescriptorProto_;
pub use MethodDescriptorProto_::MethodDescriptorProto;
pub mod FileOptions_;
pub use FileOptions_::FileOptions;
pub mod MessageOptions_;
pub use MessageOptions_::MessageOptions;
pub mod FieldOptions_;
pub use FieldOptions_::FieldOptions;
pub mod OneofOptions_;
pub use OneofOptions_::OneofOptions;
pub mod EnumOptions_;
pub use EnumOptions_::EnumOptions;
pub mod EnumValueOptions_;
pub use EnumValueOptions_::EnumValueOptions;
pub mod ServiceOptions_;
pub use ServiceOptions_::ServiceOptions;
pub mod MethodOptions_;
pub use MethodOptions_::MethodOptions;
pub mod UninterpretedOption_;
pub use UninterpretedOption_::UninterpretedOption;
pub mod FeatureSet_;
pub use FeatureSet_::FeatureSet;
pub mod FeatureSetDefaults_;
pub use FeatureSetDefaults_::FeatureSetDefaults;
pub mod SourceCodeInfo_;
pub use SourceCodeInfo_::SourceCodeInfo;
pub mod GeneratedCodeInfo_;
pub use GeneratedCodeInfo_::GeneratedCodeInfo;

verus! {

#[derive(Debug, Clone, Copy, PartialEq, Eq, Structural, Hash)]
pub struct Edition(pub i32);

impl Edition {
    /// The value `0`.
    pub fn Unknown() -> (r: Self)
        ensures
            r == Edition(0),
    {
        Self(0)
    }

    /// The value `900`.
    pub fn Legacy() -> (r: Self)
        ensures
            r == Edition(900),
    {
        Self(900)
    }

    /// The value `998`.
    pub fn Proto2() -> (r: Self)
        ensures
            r == Edition(998),
    {
        Self(998)
    }

    /// The value `999`.
    pub fn Proto3() -> (r: Self)
        ensures
            r == Edition(999),
    {
        Self(999)
    }

    /// The value `1000`.
    pub fn _2023() -> (r: Self)
        ensures
            r == Edition(1000),
    {
        Self(1000)
    }

    /// The value `1001`.
    pub fn _2024() -> (r: Self)
        ensures
            r == Edition(1001),
    {
        Self(1001)
    }

    /// The value `1`.
    pub fn _1TestOnly() -> (r: Self)
        ensures
            r == Edition(1),
    {
        Self(1)
    }

    /// The value `2`.
    pub fn _2TestOnly() -> (r: Self)
        ensures
            r == Edition(2),
    {
        Self(2)
    }

    /// The value `99997`.
    pub fn _99997TestOnly() -> (r: Self)
        ensures
            r == Edition(99997),
    {
        Self(99997)
    }

    /// The value `99998`.
    pub fn _99998TestOnly() -> (r: Self)
        ensures
            r == Edition(99998),
    {
        Self(99998)
    }

    /// The value `99999`.
    pub fn _99999TestOnly() -> (r: Self)
        ensures
            r == Edition(99999),
    {
        Self(99999)
    }

    /// The value `2147483647`.
    pub fn Max() -> (r: Self)
        ensures
            r == Edition(2147483647),
    {
        Self(2147483647)
    }
}

impl Default for Edition {
    fn default() -> (r: Self)
        ensures
            r == Edition(0),
    {
        Self(0)
    }
}

impl From<i32> for Edition {
    fn from(val: i32) -> (r: Self) {
        Self(val)
    }
}

impl vstd::std_specs::convert::FromSpecImpl<i32> for Edition {
    open spec fn obeys_from_spec() -> bool {
        true
    }

    open spec fn from_spec(v: i32) -> Self {
        Edition(v)
    }
}

} // verus!
