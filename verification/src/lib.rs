//! Versioned encoding and decoding of values whose types change their fields
//! from release to release.
//!
//! A type declares for each field the versions in which the field exists
//! ([`schema`]), and its owner supplies one migration step for each version
//! but the newest ([`migration`]). Values travel as documents ([`value`]).
//! Encoding walks a value once to harvest the newest version of every
//! versioned type in it, and then wraps the value in an envelope that carries
//! this version map ([`encode`]). Decoding opens the envelope ([`envelope`]),
//! reads every versioned node in the shape of the version that the map gives
//! for its type, and upgrades it to the newest shape ([`decode`]). The
//! properties that tie the two together are proved in [`laws`].

use vstd::prelude::*;

pub mod decode;
pub mod decode_proofs;
pub mod encode;
pub mod envelope;
pub mod error;
pub mod harvest_proofs;
pub mod laws;
pub mod migration;
pub mod names;
pub mod registry;
pub mod schema;
pub mod shape;
pub mod single;
pub mod text;
pub mod value;
pub mod versions;

pub use decode::{decode_node, decode_value};
pub use encode::{encode, harvest, Mode};
pub use envelope::{decode, decode_unversioned, open_envelope};
pub use error::{DecodeError, EnvelopeFault};
pub use migration::migrate;
pub use registry::{Registry, RegistryError};
pub use schema::{versioned, FieldKind, FieldSpec, SchemaError, VersionSchema};
pub use single::{decode_single, encode_single};
pub use value::Value;
pub use versions::{version_to_read, DecodeContext, VersionMap};
