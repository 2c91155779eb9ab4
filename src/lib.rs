//! Reconstruction of a keyed-archive document from a flat NIB archive model.
//!
//! The flat model ([`archive`]) holds objects, a shared value pool, a shared
//! key-name pool and a class-name table, all linked by indices. The result is
//! a tree of [`document::Plist`] values laid out as a keyed archive:
//! [`scalar`] translates primitives, [`object`] rebuilds one object and
//! expands inlined collections, [`class_table`] writes the class descriptors,
//! and [`upgrade`] assembles the document. [`laws`] states the properties
//! that hold across them.

pub mod archive;
pub mod document;
pub mod scalar;
pub mod object;
pub mod class_table;
pub mod upgrade;
pub mod laws;
