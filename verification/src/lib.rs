//! A binary codec for offset-addressed records in the OpenType table style.
//!
//! * [`wire`] and [`reader`]: big-endian integers, and a cursor that reads
//!   them from a borrowed buffer;
//! * [`types`]: the wire-format value types, each with its packed form;
//! * [`schema`]: the declarative notation of record schemas, read from
//!   tokens, and the record types it stands for;
//! * [`codec`]: binding a schema to the codecs of its fields;
//! * [`value`], [`ser`] and [`de`]: the schema-driven encoder and decoder,
//!   and [`round_trip`]: the proofs that each undoes the other;
//! * [`otvar`]: the decoder of the Item Variation Store;
//! * [`unicode_ranges`] and [`utils`]: the Unicode range bits of the OS/2
//!   table, and bit masks.

pub mod codec;
pub mod de;
pub mod error;
pub mod otvar;
pub mod reader;
pub mod round_trip;
pub mod schema;
pub mod ser;
pub mod types;
pub mod unicode_ranges;
pub mod utils;
pub mod value;
pub mod wire;
