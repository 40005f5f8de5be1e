//! The Protobuf descriptor types that `protoc` emits, with their accessors and their
//! wire-format decoders.

pub mod google_;
