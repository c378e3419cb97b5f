//! Contracts for source files, kept in a skeleton beside the implementation.
//!
//! A skeleton mirrors the declarations of a source file without their bodies.
//! A maintainer annotates its functions with what they must do, say
//! `mutates(counter)` or `calls(helper)`. This library walks parsed source
//! trees, collects the annotations of each declaration, generates skeletons,
//! checks an implementation against the annotations of its skeleton, and
//! decides what to do when a watched file changes. It reads trees that are
//! already parsed and returns text that is ready to be written: parsing,
//! printing and the file system are the caller's part.

pub mod contracts;
pub mod extractor;
pub mod skeleton;
pub mod text;
pub mod tree;
pub mod walker;
pub mod watcher;
