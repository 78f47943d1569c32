//! Decoder for a versioned binary localization-resource format.
//!
//! A resource maps a namespace name and a key to a localized string. Four
//! generations of the format exist; they share one entry point,
//! [`Localization::from_reader`], which reads from a [`Reader`] over the bytes
//! of the resource and returns the whole resource or the first error met.
//!
//! Every function that reads is held to a function on plain values that says
//! what reading at a position gives: the value and the position after it, or
//! the error. [`layout`] describes how a resource is written and proves that
//! decoding what was written gives it back.
//!
//! - [`reader`]: the cursor over the bytes.
//! - [`bytes`], [`text`]: little-endian integers and length-prefixed strings.
//! - [`version`]: the generations of the format.
//! - [`strings`]: localized strings and the out-of-line string table.
//! - [`string_map`]: the map from names and keys to what they stand for.
//! - [`namespace`]: namespaces and their entries.
//! - [`localization`]: version detection and the decoded resource.
//! - [`repeat`]: count-prefixed runs of records.

pub mod bytes;
pub mod error;
pub mod layout;
pub mod localization;
pub mod namespace;
pub mod reader;
pub mod repeat;
pub mod string_map;
pub mod strings;
pub mod text;
pub mod version;

pub use error::Error;
pub use localization::Localization;
pub use namespace::Namespace;
pub use reader::Reader;
pub use strings::LocalizedString;
pub use version::Version;
