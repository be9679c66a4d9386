//! Trusted border to the document parsers.
//!
//! The two parser crates turn bytes into their own value trees; the wrappers
//! here carry those trees over into the library's plain [`Doc`] tree,
//! variant by variant.  Everything the library then does with a `Doc` is
//! verified.

use vstd::prelude::*;
use crate::doc::{Doc, DocField};

verus! {

#[verifier::external_type_specification]
#[verifier::external_body]
pub struct ExJsonValue(serde_json::Value);

#[verifier::external_type_specification]
#[verifier::external_body]
pub struct ExYamlValue(serde_yaml::Value);

/// The document that a piece of JSON text parses to, or `None` when the text
/// is not valid JSON.  The result depends on the text alone.
pub uninterp spec fn json_doc(s: Seq<char>) -> Option<Doc>;

/// The document that a piece of YAML text parses to, or `None` when the text
/// is not valid YAML.  The result depends on the text alone.
pub uninterp spec fn yaml_doc(s: Seq<char>) -> Option<Doc>;

/// Relies on `serde_json::from_str::<serde_json::Value>`: parses JSON text
/// into a value tree, deterministically; `Err` exactly on invalid JSON.
#[verifier::external_body]
pub fn parse_json_doc(text: &str) -> (r: Option<Doc>)
    ensures
        r == json_doc(text@),
{
    match serde_json::from_str::<serde_json::Value>(text) {
        Ok(v) => Some(doc_of_json(&v)),
        Err(_) => None,
    }
}

/// Relies on `serde_json::Value`: one arm per variant, fields carried over;
/// a number that is no `u64` has no place in a descriptor and maps to `Other`.
#[verifier::external_body]
fn doc_of_json(v: &serde_json::Value) -> Doc {
    match v {
        serde_json::Value::Null => Doc::Null,
        serde_json::Value::Bool(b) => Doc::Bool(*b),
        serde_json::Value::Number(n) => match n.as_u64() {
            Some(u) => Doc::Int(u),
            None => Doc::Other,
        },
        serde_json::Value::String(s) => Doc::Text(s.clone()),
        serde_json::Value::Array(a) => Doc::List(a.iter().map(doc_of_json).collect()),
        serde_json::Value::Object(m) => Doc::Mapping(
            m.iter().map(|(k, w)| DocField { key: Doc::Text(k.clone()), value: doc_of_json(w) }).collect(),
        ),
    }
}

/// Relies on `serde_yaml::from_str::<serde_yaml::Value>`: parses YAML text
/// into a value tree, deterministically; `Err` exactly on invalid YAML.
#[verifier::external_body]
pub fn parse_yaml_doc(text: &str) -> (r: Option<Doc>)
    ensures
        r == yaml_doc(text@),
{
    match serde_yaml::from_str::<serde_yaml::Value>(text) {
        Ok(v) => Some(doc_of_yaml(&v)),
        Err(_) => None,
    }
}

/// Relies on `serde_yaml::Value`: one arm per variant, fields carried over;
/// mapping entries keep the manifest's order; a tag adds nothing the library
/// reads, so a tagged value carries over as its inner value.
#[verifier::external_body]
fn doc_of_yaml(v: &serde_yaml::Value) -> Doc {
    match v {
        serde_yaml::Value::Null => Doc::Null,
        serde_yaml::Value::Bool(b) => Doc::Bool(*b),
        serde_yaml::Value::Number(n) => match n.as_u64() {
            Some(u) => Doc::Int(u),
            None => Doc::Other,
        },
        serde_yaml::Value::String(s) => Doc::Text(s.clone()),
        serde_yaml::Value::Sequence(a) => Doc::List(a.iter().map(doc_of_yaml).collect()),
        serde_yaml::Value::Mapping(m) => Doc::Mapping(
            m.iter().map(|(k, w)| DocField { key: doc_of_yaml(k), value: doc_of_yaml(w) }).collect(),
        ),
        serde_yaml::Value::Tagged(t) => doc_of_yaml(&t.value),
    }
}

} // verus!
