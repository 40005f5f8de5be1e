//! Verified core of a Protobuf-to-Rust code generator: the Protobuf descriptor types and
//! their wire-format decoder, the per-type configuration, and the naming rules of the
//! generated Rust code.
#![allow(non_snake_case)]
#![allow(non_camel_case_types)]
#![allow(non_upper_case_globals)]
#![allow(unused_imports)]

pub mod bits;
pub mod wire;
pub mod descriptor;
pub mod config;
pub mod text;
pub mod ident;
pub mod generator;
pub mod error;
