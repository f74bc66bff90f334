//! A layered configuration store.
//!
//! A [`Config`] holds one layer of configuration: named scopes, each a table
//! of named options with loosely typed values. Layers are merged in order of
//! precedence, and typed accessors read single options out of the result,
//! reporting a value of the wrong shape as an [`Error`].

pub mod access;
pub mod config;
pub mod edits;
pub mod error;
pub mod id;
pub mod laws;
pub mod merging;
pub mod message;
pub mod syntax;
pub mod value;

pub use config::Config;
pub use edits::{ListEdit, ListEditAction, StringDict};
pub use error::{Error, Expected};
pub use id::OptionId;
pub use value::{Table, RawValue};
