//! A registry that maps object identifiers to short names and descriptions,
//! together with the loader and the generator for the definition files from
//! which such registries are populated.
//!
//! The registry ([`OidRegistry`]) is a map from identifiers ([`Oid`]) to
//! entries ([`OidEntry`]). A definition file is text with one record per
//! line; [`load_file`] turns it into a table ([`LoadedMap`]) and
//! [`generate_file`] turns the table into source text.

pub mod entry;
pub mod generate;
pub mod load;
pub mod oid;
pub mod record;
pub mod registry;
pub mod table;
pub mod text;

pub use entry::{OidEntry, OidEntryView};
pub use generate::generate_file;
pub use load::load_file;
pub use oid::{can_hold, Oid, OidView};
pub use record::{parse_line, Entry, EntryView, Field, MalformedInput};
pub use registry::{format_oid, format_with, OidRegistry};
pub use table::{GroupView, LoadedMap};
