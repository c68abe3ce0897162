//! Embedded rule packs, the CWE knowledge base and the pack loader.
pub mod loader;
pub mod meta;
pub mod packs;
