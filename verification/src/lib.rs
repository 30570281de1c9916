//! Turns the markup of vector-graphics files into generated icon
//! definitions, and proves what the generated text is.
//!
//! A run goes through the modules in this order:
//!
//! - `dialect`: which paths of a directory are icons of an icon set, and how
//!   an icon is named after its path;
//! - `markup`: the tree that the parser makes of a file's text;
//! - `extract`: the `svg` element of the tree and its presentation
//!   attributes, each with its default;
//! - `attributes` and `serialize`: the children of that element, written as
//!   nested blocks with their filtered and sorted attributes;
//! - `emit`: the definitions of all icons, joined into one text.
//!
//! `text` holds the operations on characters that the others share, and
//! `casing` the two case conventions. Reading directories and files, and
//! writing the result, is left to the caller: every function here takes and
//! returns plain values.

pub mod attributes;
pub mod casing;
pub mod dialect;
pub mod emit;
pub mod extract;
pub mod markup;
pub mod serialize;
pub mod text;
