//! Compile SQL templates with inline placeholders into queries with native
//! positional parameters, and check them against a description of the
//! database's answer.

pub mod binder;
pub mod derive;
pub mod error;
pub mod names;
pub mod parser;
pub mod rename;
pub mod shape;
pub mod sql;
pub mod text;
pub mod types;
