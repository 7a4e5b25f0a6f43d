//! Sorting of the import declarations at the head of a JavaScript or
//! TypeScript source file.

pub mod app;
pub mod config;
pub mod file;
pub mod parser;
pub mod statements;
pub mod text;

pub use config::Config;
