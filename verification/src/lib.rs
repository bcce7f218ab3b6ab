//! Scaffolds a new project directory from a template tree: placeholder
//! values are substituted into directory names, file names and file
//! contents, while configured files are copied verbatim.

pub mod context;
pub mod errors;
pub mod generate;
pub mod glob;
pub mod render;
pub mod strutil;
pub mod template;
pub mod user_config;
pub mod value;
