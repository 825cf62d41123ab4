//! The logic of `lox`, a command line for the Loxone Miniserver: control
//! listing and name resolution over the structure file, the status and
//! health reports drawn from the status document, the decisions of the
//! individual commands, and the expansion of backup LoxCC files.

pub mod archive;
pub mod cli;
pub mod client;
pub mod config;
pub mod devices;
pub mod loxcc;
pub mod scene;
pub mod sort;
pub mod status;
pub mod text;
pub mod xml;
