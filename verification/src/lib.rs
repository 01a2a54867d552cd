//! Bit-level field packing: fields of 1 to 64 bits laid out back to back in a
//! byte buffer, with reads and writes that never disturb a neighbouring field.
//!
//! - `model` says what a buffer and a field are, as runs of bits;
//! - `primitive` reads and writes up to eight bits at any bit position;
//! - `codec` reads and writes whole fields with them;
//! - `layout` plans where the fields of a structure start;
//! - `enumeration` admits enumerations as fields and checks what is decoded;
//! - `schema` keeps the validated fields of a structure together;
//! - `specifier` is the same machinery by type, `checks` its compile-time
//!   markers, and `redirection` a structure written out with it;
//! - `laws` states what holds of all of them.

pub mod model;
pub mod primitive;
pub mod codec;
pub mod layout;
pub mod enumeration;
pub mod schema;
pub mod specifier;
pub mod checks;
pub mod redirection;
pub mod laws;

pub use crate::enumeration::{BoundedEnum, DecodeError, SchemaError};
pub use crate::layout::{plan, Layout, LayoutError};
pub use crate::primitive::{get_byte, set_byte};
pub use crate::redirection::{DeliveryMode, RedirectionTableEntry, TriggerMode};
pub use crate::schema::{FieldDescriptor, FieldKind, Schema};
pub use crate::specifier::{Specifier, B};
