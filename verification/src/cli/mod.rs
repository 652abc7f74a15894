pub mod args;
pub mod json;
pub mod plain;
pub mod styles;
pub mod tree;

pub use args::{CliArgs, OutputMode};
