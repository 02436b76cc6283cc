use vstd::prelude::*;
use crate::annotation::{AnnotationSet, AnnotationView};
use crate::declared::{
    declared_annotations, declared_set, is_declared_record, lemma_declared_records, view_set,
};
use crate::document::{Error, TomlValue};
use toml::de::Error as TomlError;

verus! {

#[verifier::external_type_specification]
#[verifier::external_body]
pub struct ExTomlError(TomlError);

#[verifier::external_type_specification]
#[verifier::external_body]
pub struct ExTomlValue(toml::Value);

/// Whether the `toml` crate accepts `text` as a TOML document.
pub uninterp spec fn toml_accepts(text: Seq<char>) -> bool;

/// The document that the `toml` crate parses out of `text`.
pub uninterp spec fn toml_document(text: Seq<char>) -> TomlValue;

/// Relies on `toml::from_str` into `toml::Value`: it fails exactly on the
/// texts that it does not accept as TOML, and what it parses depends on the
/// text alone.
#[verifier::external_body]
fn parse_toml(text: &str) -> (r: Result<TomlValue, TomlError>)
    ensures
        r is Ok <==> toml_accepts(text@),
        r matches Ok(v) ==> v == toml_document(text@),
{
    match toml::from_str::<toml::Value>(text) {
        Ok(v) => Ok(from_toml(v)),
        Err(e) => Err(e),
    }
}

/// Relies on the variants of `toml::Value`: strings, arrays and tables are
/// carried over, tables in the order the map yields its keys; every other
/// value becomes `Other`.
#[verifier::external_body]
fn from_toml(v: toml::Value) -> TomlValue {
    match v {
        toml::Value::String(s) => TomlValue::Str(s),
        toml::Value::Array(a) => TomlValue::Array(a.into_iter().map(from_toml).collect()),
        toml::Value::Table(t) => TomlValue::Table(
            t.into_iter().map(|(k, x)| (k, from_toml(x))).collect(),
        ),
        toml::Value::Integer(_) => TomlValue::Other,
        toml::Value::Float(_) => TomlValue::Other,
        toml::Value::Boolean(_) => TomlValue::Other,
        toml::Value::Datetime(_) => TomlValue::Other,
    }
}

/// The records that a declaration file holding `text` yields, with `source`
/// as its path: what the schema makes of the parsed document, or the
/// parser's error.
pub fn annotations_from_text(text: &str, source: &String) -> (r: Result<AnnotationSet, Error>)
    ensures
        !toml_accepts(text@) ==> r matches Err(Error::Syntax(_)),
        toml_accepts(text@) ==> view_set(r) == declared_set(toml_document(text@), source@),
        r matches Ok(s) ==> s.wf() && forall|a: AnnotationView| #[trigger]
            s@.contains(a) ==> is_declared_record(a, source@),
{
    match parse_toml(text) {
        Err(e) => Err(Error::Syntax(e)),
        Ok(doc) => {
            let r = declared_annotations(&doc, source);
            proof {
                lemma_declared_records(doc, source@);
                if r is Ok {
                    assert(declared_set(doc, source@)->Ok_0 == r->Ok_0@);
                }
            }
            r
        },
    }
}

} // verus!
