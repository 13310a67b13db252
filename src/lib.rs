//! Derivation of intermediate structs.
//!
//! A struct whose fields carry exclusion markers is split into reduced
//! "intermediate" variants, each lacking some of the fields, together with
//! conversion functions that rebuild a larger variant from a smaller one plus
//! the missing fields. This crate computes which field belongs to which
//! variant and how each conversion is wired; parsing and emitting source text
//! is left to the caller.
use vstd::prelude::*;

pub mod attrs;
pub mod difference;
pub mod error;
pub mod partition;
pub mod synth;

verus! {

/// Field-level marker that removes a field from the default variant.
pub const EXCLUDE: &'static str = "intermediate_exclude";

/// Struct-level list of derives reapplied to every generated variant.
pub const DERIVE: &'static str = "intermediate_derive";

/// Struct-level table name that overrides the struct's own one.
pub const OVERRIDE_TABLE_NAME: &'static str = "intermediate_table_name";

/// The persistence layer's own table-name attribute.
pub const DIESEL_TABLE_NAME: &'static str = "table_name";

/// Name prefix of the default reduced variant.
pub const DEFAULT_PREFIX: &'static str = "New";

} // verus!
