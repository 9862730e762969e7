//! Binding of hierarchical configuration records to environment variables.
//!
//! A record is described by a [`Schema`](schema::Schema): a table of field
//! descriptors, each with a variable-name fragment and a kind (scalar,
//! optional, nested record, sequence, nested sequence).  Its data lives in a
//! [`Record`](value::Record) that conforms to the schema.  Binding walks the
//! schema and overwrites those fields whose environment variable is present,
//! leaving absent fields untouched; the environment is handed in as an
//! [`EnvMap`](env::EnvMap) snapshot, so the traversal itself is pure.

pub mod bind;
pub mod bindspec;
pub mod digits;
pub mod encoding;
pub mod env;
pub mod error;
pub mod laws;
pub mod names;
pub mod numtext;
pub mod schema;
pub mod value;
