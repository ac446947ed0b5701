//! Lowering of protocol-buffer schema descriptors into Rust type declarations.

pub mod text;
pub mod naming;
pub mod escape;
pub mod descriptor;
pub mod resolve;
pub mod config;
pub mod graph;
pub mod groups;
pub mod lower;
pub mod codegen;
pub mod walker;
