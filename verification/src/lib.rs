//! A compile-time field-composition engine.
//!
//! A *provider* is a named bundle of field definitions that other record
//! types may borrow from.  A *composition request* asks that the fields of
//! one or more providers be merged into a target record.  The engine
//! maintains a provider registry and a transitive dependency graph, detects
//! self-references and circular borrowing chains, merges field sets with
//! conflict detection, resolves generic parameters to concrete types, and
//! enforces scoped visibility rules.
//!
//! Parsing host-language declarations into [`types::FieldDef`] values and
//! emitting the merged field list back into host syntax are left to the
//! caller; the engine itself works on plain strings and vectors.

pub mod compose;
pub mod laws;
pub mod registry;
pub mod text;
pub mod types;
pub mod visibility;
