//! Resolution engine for hierarchical document stores.
//!
//! A document tree pairs directory-like nodes, each with an optional default
//! document, with named child documents and subdirectories.  A query names an
//! address (a path of field names) and a target shape; the engine walks the
//! tree from broad defaults toward more specific data, merging the values it
//! finds along the way.

use vstd::prelude::*;

pub mod data_path;
pub mod resolver;
pub mod shape;
pub mod tree;
pub mod values;
pub mod yaml;

verus! {

use crate::values::SpecValue;
use crate::values::DataValue;

/// Everything that can go wrong while resolving data.
#[derive(Debug, PartialEq)]
pub enum DataResolverError {
    /// Two values of incompatible kinds met in a merge; both operands are
    /// carried for diagnostics.
    IncompatibleYamlMerge { src: DataValue, dst: DataValue },
    /// A keyed merge was attempted on a value that is neither a mapping nor
    /// absent.
    CannotMergeIntoNonMapping(DataValue),
    /// A field named by the address is missing from a document.
    KeyNotFound(String),
    /// No document supplied a required value.
    DataNotFound,
    /// A read was attempted at a file position with no path to name a file.
    EmptyDataPathAccess,
    /// A document's bytes did not parse.
    ParseError,
}

/// The mathematical model of a [`DataResolverError`].
#[verifier::ext_equal]
pub enum SpecErr {
    IncompatibleMerge(SpecValue, SpecValue),
    CannotMergeIntoNonMapping(SpecValue),
    KeyNotFound(Seq<char>),
    DataNotFound,
    EmptyPathAccess,
    Parse,
}

impl View for DataResolverError {
    type V = SpecErr;

    open spec fn view(&self) -> SpecErr {
        match *self {
            DataResolverError::IncompatibleYamlMerge { src, dst } => SpecErr::IncompatibleMerge(
                dst@,
                src@,
            ),
            DataResolverError::CannotMergeIntoNonMapping(v) => SpecErr::CannotMergeIntoNonMapping(
                v@,
            ),
            DataResolverError::KeyNotFound(k) => SpecErr::KeyNotFound(k@),
            DataResolverError::DataNotFound => SpecErr::DataNotFound,
            DataResolverError::EmptyDataPathAccess => SpecErr::EmptyPathAccess,
            DataResolverError::ParseError => SpecErr::Parse,
        }
    }
}

} // verus!
