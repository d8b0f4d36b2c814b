//! A schema-driven binary codec for Avro-shaped data: type descriptors
//! compiled from schemas, coercion of loosely typed host values, the Avro
//! binary encoding, and a registry of nested record models guarded by
//! schema fingerprints.

pub mod builder;
pub mod codec;
pub mod coercion;
pub mod custom_types;
pub mod de;
pub mod descriptors;
pub mod errors;
pub mod framing;
pub mod host;
pub mod invariants;
pub mod literal;
pub mod model;
pub mod model_descriptor;
pub mod model_pool;
pub mod resolution;
pub mod round_trip;
pub mod schema;
pub mod serializer;
pub mod util;
pub mod values;
pub mod varint;
