//! Decoder for the binary class-definition format of compiled JVM types.
//!
//! The pipeline has three layers: a forward-only byte cursor ([`class_file::Buffer`]),
//! a raw container decoder that turns bytes into the on-disk structures
//! ([`class_file::ClassFile`], the constant pool, fields, methods and attributes),
//! and a symbolic model builder ([`types::Class`]) that resolves constant-pool
//! indices into self-contained names and descriptors.
//!
//! Every decoder is specified against a byte-level specification function, so a
//! successful decode returns exactly the structure those functions describe, and
//! a failed decode reports exactly the typed error they predict.

pub mod attributes;
pub mod class_file;
pub mod constant_pool;
pub mod constants;
pub mod error;
pub mod mutf8;
pub mod types;
