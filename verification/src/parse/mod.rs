//! Authoring HTML handling: vocabulary, pre-parse normalization, escaping.

pub mod ast;
pub mod attrs;
pub mod normalize;
pub mod pre;
pub mod serialize;
