//! A verified library for a small family of file utilities: a recursive
//! copy/move engine over a model of a directory tree, the cross-device
//! error-text heuristic that decides when a failed rename may fall back
//! to copy-and-delete, and construction of base64 data URIs for file
//! contents.
//!
//! The engine in `transfer` works on the tree model of `tree`: carrying a
//! node onto a destination, merging directories, counting the regular
//! files and bytes carried, and telling what remains of a moved source.
//! `laws` states the engine's guarantees on their own.  `errtext` and
//! `datauri` hold the verified string logic of the surrounding tools.

pub mod datauri;
pub mod errtext;
pub mod laws;
pub mod transfer;
pub mod tree;
