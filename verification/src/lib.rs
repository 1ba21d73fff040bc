//! A bidirectional codec between XML documents and a typed value model.
//!
//! Declared names follow the compact tag grammar
//! `{namespace[;schema-location-hint]}prefix:local-name`; a leading `$attr:`
//! routes a field to an attribute, and the sentinel `$value` marks a field
//! as an element's direct inner content.

pub mod de;
pub mod error;
pub mod events;
pub mod laws;
pub mod ser;
pub mod shims;
pub mod tag;
pub mod text;

pub use de::{from_str, Deserializer};
pub use error::Error;
pub use ser::{to_events, to_events_custom, to_string, to_string_custom, Options, Serializer};
