//! Turning document text into values, through the `serde_yaml` parser.
//!
//! The engine itself never touches text: stores hold parsed [`DataValue`]s.  The
//! functions here are the bridge for loaders and tests.  What a given text
//! parses to is a fixed function of that text, named by [`parsed_doc`];
//! nothing more is assumed of it.

use vstd::prelude::*;

verus! {

use crate::DataResolverError;

#[verifier::external_type_specification]
#[verifier::external_body]
pub struct ExYamlValue(serde_yaml::Value);

/// The value model that the document text parses and converts to, or `None`
/// when the text is no well-formed document.  Parsing depends on the text
/// alone.
pub uninterp spec fn parsed_doc(text: Seq<char>) -> Option<crate::values::SpecValue>;

/// Relies on `serde_yaml::Value`: converts one parsed node into the engine's
/// value model, node for node.  Numbers keep their textual rendering; a
/// tagged value is taken for the value under its tag.
#[verifier::external_body]
fn value_of_yaml(y: serde_yaml::Value) -> crate::values::DataValue {
    match y {
        serde_yaml::Value::Null => crate::values::DataValue::Null,
        serde_yaml::Value::Bool(b) => crate::values::DataValue::Bool(b),
        serde_yaml::Value::Number(n) => crate::values::DataValue::Number(n.to_string()),
        serde_yaml::Value::String(s) => crate::values::DataValue::Text(s),
        serde_yaml::Value::Sequence(xs) => crate::values::DataValue::Sequence(
            xs.into_iter().map(value_of_yaml).collect(),
        ),
        serde_yaml::Value::Mapping(m) => crate::values::DataValue::Mapping(
            m.into_iter().map(|p| (key_of_yaml(p.0), value_of_yaml(p.1))).collect(),
        ),
        serde_yaml::Value::Tagged(t) => value_of_yaml(t.value),
    }
}

/// Relies on `serde_yaml::Value`: renders a mapping key as the text the
/// engine's mappings use.  A key of any other kind than text, boolean or
/// number becomes the empty name.
#[verifier::external_body]
fn key_of_yaml(k: serde_yaml::Value) -> String {
    match k {
        serde_yaml::Value::String(s) => s,
        serde_yaml::Value::Bool(b) => b.to_string(),
        serde_yaml::Value::Number(n) => n.to_string(),
        _ => String::new(),
    }
}

/// Relies on `serde_yaml::from_str`: parses one document.  The outcome —
/// success with a particular value, or failure — is the fixed function of
/// the text that [`parsed_doc`] names.
#[verifier::external_body]
pub fn parse_document(text: &str) -> (r: Result<crate::values::DataValue, DataResolverError>)
    ensures
        match parsed_doc(text@) {
            Some(v) => r matches Ok(w) && w@ == v,
            None => r matches Err(e) && e == DataResolverError::ParseError,
        },
{
    match serde_yaml::from_str::<serde_yaml::Value>(text) {
        Ok(y) => Ok(value_of_yaml(y)),
        Err(_) => Err(DataResolverError::ParseError),
    }
}

} // verus!
