//! Unit-definition files for a container service manager: their text format,
//! the kinds of file, the checks on their content, and how a file and the live
//! state of its unit combine into a status.
pub mod discovery;
pub mod document;
pub mod error;
pub mod parser;
pub mod quadlet;
pub mod quadlet_type;
pub mod requests;
pub mod round_trip;
pub mod text;
pub mod user;
pub mod validator;
