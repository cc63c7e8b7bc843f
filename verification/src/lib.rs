//! Discovery, parsing and caching of Python virtual environments.
//!
//! The library models a directory tree as plain data (`FsNode`), and every
//! piece of logic that the tool runs over such a tree — size accounting,
//! manifest tokenization, package pairing, the environment parse pipeline,
//! the staleness-aware cache and its on-disk codec — is verified here.
//! Reading the real filesystem, the terminal front end and the clipboard
//! integration live outside the library and hand it plain values.

mod error;
pub mod app;
pub mod cache;
pub mod codec;
pub mod comfy_table;
pub mod commands;
pub mod dir_size;
pub mod fstree;
pub mod metadata;
pub mod model;
pub mod parser;
pub mod shell;
pub mod strutil;
pub mod utils;

pub use error::VenvError;
