//! Schema annotations and type identity for a metadata-driven GraphQL engine:
//! the identity and name of every generated type, the annotations that tell
//! an executor how to resolve a field, the permission lookups of the `node`
//! root field, and the codec of global object identifiers.
//!
//! Names and JSON values are held as byte strings: names as their ASCII or
//! UTF-8 bytes, a JSON value as its text.
pub mod annotations;
pub mod global_id;
pub mod hex;
pub mod names;
pub mod node;
pub mod order;
pub mod type_id;
