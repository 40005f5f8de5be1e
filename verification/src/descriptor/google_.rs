//! The `google` Protobuf package.

pub mod protobuf_;
