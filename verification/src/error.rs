//! Errors met while processing proto files and generating Rust code.
use vstd::prelude::*;
use vstd::string::{StrSliceExecFns, StringExecFns};
use crate::generator::{field_error_spec, msg_error_spec};
use crate::text::to_string;

verus! {

/// A declaration of `std::io::Error`, which Verus sees as opaque.
#[verifier::external_type_specification]
#[verifier::external_body]
pub struct ExIoError(std::io::Error);

/// Error encountered while processing proto files and generating Rust code
#[derive(Debug)]
pub enum Error {
    /// IO error
    Io(std::io::Error),
    /// Protoc invocation error
    Protoc(String),
    /// Protobuf field error
    Field {
        /// Protobuf package
        package: String,
        /// Protobuf message
        message: String,
        /// Protobuf field
        field: String,
        /// Error text
        text: String,
    },
    /// Protobuf message error
    Message {
        /// Protobuf package
        package: String,
        /// Protobuf message
        message: String,
        /// Error text
        text: String,
    },
    /// Protobuf package error
    Package {
        /// Protobuf package
        package: String,
        /// Error text
        text: String,
    },
}

/// The text of an error about a Protobuf package: `(.pkg) text`, without the leading dot
/// when the package is empty.
pub open spec fn pkg_error_spec(pkg: Seq<char>, text: Seq<char>) -> Seq<char> {
    "("@ + (if pkg.len() == 0 { Seq::empty() } else { "."@ }) + pkg + ") "@ + text
}

/// Calls `to_string` on an I/O error, that is its `Display` text. What it holds can come
/// from the operating system, so nothing is said of it.
#[verifier::external_body]
fn io_error_text(e: &std::io::Error) -> String {
    e.to_string()
}

impl Error {
    /// The message that the error displays.
    pub fn message(&self) -> (r: String)
        ensures
            match self {
                Error::Io(_) => true,
                Error::Protoc(e) => r@ == "protoc failed: "@ + e@,
                Error::Field { package, message, field, text } => r@ == field_error_spec(
                    package@,
                    message@,
                    field@,
                    text@,
                ),
                Error::Message { package, message, text } => r@ == msg_error_spec(
                    package@,
                    message@,
                    text@,
                ),
                Error::Package { package, text } => r@ == pkg_error_spec(package@, text@),
            },
    {
        match self {
            Error::Io(e) => io_error_text(e),
            Error::Protoc(e) => {
                let mut t = to_string("protoc failed: ");
                t.append(e.as_str());
                t
            },
            Error::Field { package, message, field, text } => crate::generator::field_error(
                package.as_str(),
                message.as_str(),
                field.as_str(),
                text.as_str(),
            ),
            Error::Message { package, message, text } => crate::generator::msg_error(
                package.as_str(),
                message.as_str(),
                text.as_str(),
            ),
            Error::Package { package, text } => {
                let mut t = to_string("(");
                if package.as_str().unicode_len() != 0 {
                    t.append(".");
                }
                t.append(package.as_str());
                t.append(") ");
                t.append(text.as_str());
                assert(t@ =~= pkg_error_spec(package@, text@));
                t
            },
        }
    }
}

impl From<std::io::Error> for Error {
    fn from(err: std::io::Error) -> (r: Self) {
        Self::Io(err)
    }
}

impl vstd::std_specs::convert::FromSpecImpl<std::io::Error> for Error {
    open spec fn obeys_from_spec() -> bool {
        true
    }

    open spec fn from_spec(err: std::io::Error) -> Self {
        Error::Io(err)
    }
}

/// An error about the field `field_name` of the message `msg_name` in package `pkg`.
pub fn field_error(pkg: &str, msg_name: &str, field_name: &str, err_text: &str) -> (r: Error)
    ensures
        r matches Error::Field { package, message, field, text } && package@ == pkg@ && message@
            == msg_name@ && field@ == field_name@ && text@ == err_text@,
{
    Error::Field {
        package: to_string(pkg),
        message: to_string(msg_name),
        field: to_string(field_name),
        text: to_string(err_text),
    }
}

/// An error about the message `msg_name` in package `pkg`.
pub fn msg_error(pkg: &str, msg_name: &str, err_text: &str) -> (r: Error)
    ensures
        r matches Error::Message { package, message, text } && package@ == pkg@ && message@
            == msg_name@ && text@ == err_text@,
{
    Error::Message { package: to_string(pkg), message: to_string(msg_name), text: to_string(err_text) }
}

/// An error about the package `pkg`.
pub fn pkg_error(pkg: &str, err_text: &str) -> (r: Error)
    ensures
        r matches Error::Package { package, text } && package@ == pkg@ && text@ == err_text@,
{
    Error::Package { package: to_string(pkg), text: to_string(err_text) }
}

} // verus!
