//! Import statements and the categories they are ordered by.

pub mod import_statement;
pub mod import_type;

pub use import_statement::{ImportStatement, ImportView};
pub use import_type::ImportType;
