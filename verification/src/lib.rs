//! Lexical path normalization.
//!
//! A path string is decomposed into typed components (prefix, root,
//! current-directory marker, parent-directory marker, named segment),
//! collapsed to its minimal equivalent form by purely syntactic rules —
//! no filesystem access, no symlink resolution — and reassembled into a
//! canonical string. The collapse handles the asymmetry between absolute
//! and relative paths: a parent marker above the root of an absolute path
//! is discarded, while unresolved parent markers of a relative path are
//! retained as a leading run.

pub mod collapse;
pub mod component;
pub mod normalize;
pub mod text;
