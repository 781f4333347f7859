//! Canvas documents and the operations on their object trees.
//!
//! A document holds a name, two timestamps, a viewport and a canvas. The
//! canvas is a JSON-shaped object that lists nodes; a node is named by the
//! text under its `id`, and a node that lists nodes of its own is a
//! container, one level deep. The crate finds, makes, changes and deletes
//! nodes, and writes a document as a JSON-shaped value and reads it back.
//!
//! - [`json`] holds the values, [`tree`] the mathematics of the object tree.
//! - [`document`] holds the document with its searches and removals,
//!   [`codec`] how it is written and read.
//! - [`commands`] holds the operations as callers ask for them, [`error`]
//!   the ways in which they fail.
//! - [`binary64`] holds numbers by their bits, [`clock`] makes timestamps,
//!   [`ident`] draws identifiers, [`paths`] names the files of the desktop
//!   application, and [`desktop`] holds the rows of its index.
//!
//! Files, JSON text and the protocol of the server are the business of the
//! program around this library.

pub mod binary64;
pub mod clock;
pub mod codec;
pub mod commands;
pub mod desktop;
pub mod document;
pub mod error;
pub mod ident;
pub mod json;
pub mod paths;
pub mod text;
pub mod tree;

pub use binary64::Binary64;
pub use document::{EaselFile, ViewportState};
pub use error::{EaselError, ErrorKind};
pub use json::{Json, Number};
