//! A verified toolchain core for a small concatenative, block-oriented
//! language: an intermediate representation of named blocks with a linker
//! and a binary codec, a reference-counted heap, a scope manager with
//! single-eval caching, a stack-based virtual machine with native
//! operations, a static checker, and an inline optimizer.
pub mod blocks;
pub mod checker;
pub mod codec;
pub mod fmt;
pub mod heap;
pub mod ir;
pub mod machine;
pub mod names;
pub mod native;
pub mod optimizer;
pub mod supervisor;
pub mod text;
pub mod value;

