//! Shape descriptions: the target form a resolution is asked to produce.
//!
//! Shapes are supplied by the caller (typically generated from a schema) and
//! drive the per-shape resolution strategy.  A field may carry a directive
//! asking for its value to be derived from the name of the file or directory
//! an enumerated list element came from; an explicit value in the element's
//! own documents overrides that default.

use vstd::prelude::*;

verus! {

/// The primitive kind a scalar shape expects.
#[derive(Clone, Copy, Debug, PartialEq, Eq, Structural)]
pub enum ScalarKind {
    Boolean,
    Number,
    Text,
    Identifier,
}

/// How a name-derived default is meant to be used.  Both roles seed the
/// field with the element's name; `Identifier` additionally marks the field
/// as the element's identifying key for its callers.
#[derive(Clone, Copy, Debug, PartialEq, Eq, Structural)]
pub enum DeriveRole {
    Filename,
    Identifier,
}

/// The target shape of a resolution.
#[derive(Debug)]
pub enum Shape {
    Scalar(ScalarKind),
    Optional(Box<Shape>),
    List(Box<Shape>),
    Record(Vec<Field>),
}

/// One declared field of a record shape.
#[derive(Debug)]
pub struct Field {
    pub name: String,
    pub shape: Shape,
    /// When the record is materialized as a list element, seed this field
    /// with the element's name before its own documents are merged in.
    pub derive_from_name: bool,
    pub derive_role: DeriveRole,
}

} // verus!
