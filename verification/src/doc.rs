//! The configuration document model.
//!
//! A configuration file is read by the format's own parser into a
//! generic document tree, and the schema logic of this library works on
//! that tree.  The tree holds only plain values; scalars a configuration
//! cannot contain (floating-point numbers, dates, keys that are not
//! strings) appear as [`DocValue::Other`] and are rejected by the schema.

use vstd::prelude::*;

verus! {

/// A generic configuration document: what JSON, YAML and TOML have in
/// common, as far as the configuration schema reaches.
#[derive(Debug)]
pub enum DocValue {
    Null,
    Bool(bool),
    Int(i64),
    Str(String),
    List(Vec<DocValue>),
    Table(Vec<(String, DocValue)>),
    /// A scalar the schema has no use for.
    Other,
}

/// Ghost counterpart of [`DocValue`].
pub ghost enum DocView {
    Null,
    Bool(bool),
    Int(int),
    Str(Seq<char>),
    List(Seq<DocView>),
    Table(Seq<(Seq<char>, DocView)>),
    Other,
}

/// The ghost view of a document tree.
pub open spec fn doc_view(d: DocValue) -> DocView
    decreases d,
{
    match d {
        DocValue::Null => DocView::Null,
        DocValue::Bool(b) => DocView::Bool(b),
        DocValue::Int(n) => DocView::Int(n as int),
        DocValue::Str(s) => DocView::Str(s@),
        DocValue::List(vs) => DocView::List(docs_view(vs@)),
        DocValue::Table(es) => DocView::Table(entries_view(es@)),
        DocValue::Other => DocView::Other,
    }
}

/// The ghost views of a list of documents.
pub open spec fn docs_view(s: Seq<DocValue>) -> Seq<DocView>
    decreases s,
{
    if s.len() == 0 {
        Seq::empty()
    } else {
        seq![doc_view(s[0])] + docs_view(s.skip(1))
    }
}

/// The ghost views of a table's entries.
pub open spec fn entries_view(s: Seq<(String, DocValue)>) -> Seq<(Seq<char>, DocView)>
    decreases s,
{
    if s.len() == 0 {
        Seq::empty()
    } else {
        seq![(s[0].0@, doc_view(s[0].1))] + entries_view(s.skip(1))
    }
}

} // verus!

verus! {

#[verifier::external_type_specification]
#[verifier::external_body]
pub struct ExJsonValue(serde_json::Value);

/// The document tree that parsing a text as JSON yields, if the text is
/// well-formed JSON.
pub uninterp spec fn json_doc_of(s: Seq<char>) -> Option<DocView>;

/// The document tree that parsing a text as YAML yields, if the text is
/// well-formed YAML.
pub uninterp spec fn yaml_doc_of(s: Seq<char>) -> Option<DocView>;

/// The document tree that parsing a text as TOML yields, if the text is
/// well-formed TOML.
pub uninterp spec fn toml_doc_of(s: Seq<char>) -> Option<DocView>;

/// The JSON text a document renders to, if it can be rendered.
pub uninterp spec fn json_text_of(d: DocView) -> Option<Seq<char>>;

/// The YAML text a document renders to, if it can be rendered.
pub uninterp spec fn yaml_text_of(d: DocView) -> Option<Seq<char>>;

/// The TOML text a document renders to, if it can be rendered.
pub uninterp spec fn toml_text_of(d: DocView) -> Option<Seq<char>>;

/// Relies on the variants of `serde_json::Value` and on
/// `serde_json::Number::as_i64`: converts a parsed value to a document
/// tree, one arm per variant; numbers that do not fit `i64` become
/// `Other`; lists and maps convert their parts the same way.
#[verifier::external_body]
fn doc_of_json(v: serde_json::Value) -> DocValue {
    match v {
        serde_json::Value::Null => DocValue::Null,
        serde_json::Value::Bool(b) => DocValue::Bool(b),
        serde_json::Value::Number(n) => match n.as_i64() {
            Some(i) => DocValue::Int(i),
            None => DocValue::Other,
        },
        serde_json::Value::String(s) => DocValue::Str(s),
        serde_json::Value::Array(vs) => DocValue::List(vs.into_iter().map(doc_of_json).collect()),
        serde_json::Value::Object(m) => DocValue::Table(
            m.into_iter().map(|(k, v)| (k, doc_of_json(v))).collect(),
        ),
    }
}

/// Relies on the variants of `serde_json::Value`: converts a document
/// tree to a value, one arm per variant; `Null` stands for `Other`.
#[verifier::external_body]
fn json_of_doc(d: &DocValue) -> serde_json::Value {
    match d {
        DocValue::Null => serde_json::Value::Null,
        DocValue::Bool(b) => serde_json::Value::Bool(*b),
        DocValue::Int(n) => serde_json::Value::Number((*n).into()),
        DocValue::Str(s) => serde_json::Value::String(s.clone()),
        DocValue::List(vs) => serde_json::Value::Array(vs.iter().map(json_of_doc).collect()),
        DocValue::Table(es) => serde_json::Value::Object(
            es.iter().map(|(k, v)| (k.clone(), json_of_doc(v))).collect(),
        ),
        DocValue::Other => serde_json::Value::Null,
    }
}

/// Relies on `serde_json::from_str::<serde_json::Value>`: the parse is a
/// function of the text alone and fails exactly on text that is not
/// well-formed JSON.
#[verifier::external_body]
pub fn parse_json(s: &str) -> (r: Result<DocValue, String>)
    ensures
        match r {
            Ok(d) => json_doc_of(s@) == Some(doc_view(d)),
            Err(_) => json_doc_of(s@) is None,
        },
{
    match serde_json::from_str::<serde_json::Value>(s) {
        Ok(v) => Ok(doc_of_json(v)),
        Err(e) => Err(e.to_string()),
    }
}

/// Relies on `serde_yaml::from_str::<serde_json::Value>`: the parse is a
/// function of the text alone and fails exactly on text that does not
/// read as such a document.
#[verifier::external_body]
pub fn parse_yaml(s: &str) -> (r: Result<DocValue, String>)
    ensures
        match r {
            Ok(d) => yaml_doc_of(s@) == Some(doc_view(d)),
            Err(_) => yaml_doc_of(s@) is None,
        },
{
    match serde_yaml::from_str::<serde_json::Value>(s) {
        Ok(v) => Ok(doc_of_json(v)),
        Err(e) => Err(e.to_string()),
    }
}

/// Relies on `toml::from_str::<serde_json::Value>`: the parse is a
/// function of the text alone and fails exactly on text that does not
/// read as such a document.
#[verifier::external_body]
pub fn parse_toml(s: &str) -> (r: Result<DocValue, String>)
    ensures
        match r {
            Ok(d) => toml_doc_of(s@) == Some(doc_view(d)),
            Err(_) => toml_doc_of(s@) is None,
        },
{
    match toml::from_str::<serde_json::Value>(s) {
        Ok(v) => Ok(doc_of_json(v)),
        Err(e) => Err(e.to_string()),
    }
}

/// Relies on `serde_json::to_string`: the rendering is a function of the
/// document alone.
#[verifier::external_body]
pub fn to_json_text(d: &DocValue) -> (r: Result<String, String>)
    ensures
        match r {
            Ok(s) => json_text_of(doc_view(*d)) == Some(s@),
            Err(_) => json_text_of(doc_view(*d)) is None,
        },
{
    match serde_json::to_string(&json_of_doc(d)) {
        Ok(s) => Ok(s),
        Err(e) => Err(e.to_string()),
    }
}

/// Relies on `serde_yaml::to_string`: the rendering is a function of the
/// document alone.
#[verifier::external_body]
pub fn to_yaml_text(d: &DocValue) -> (r: Result<String, String>)
    ensures
        match r {
            Ok(s) => yaml_text_of(doc_view(*d)) == Some(s@),
            Err(_) => yaml_text_of(doc_view(*d)) is None,
        },
{
    match serde_yaml::to_string(&json_of_doc(d)) {
        Ok(s) => Ok(s),
        Err(e) => Err(e.to_string()),
    }
}

/// Relies on `toml::to_string`: the rendering is a function of the
/// document alone; it fails when the document does not fit TOML's shape
/// (for instance, a root that is not a table).
#[verifier::external_body]
pub fn to_toml_text(d: &DocValue) -> (r: Result<String, String>)
    ensures
        match r {
            Ok(s) => toml_text_of(doc_view(*d)) == Some(s@),
            Err(_) => toml_text_of(doc_view(*d)) is None,
        },
{
    match toml::to_string(&json_of_doc(d)) {
        Ok(s) => Ok(s),
        Err(e) => Err(e.to_string()),
    }
}

} // verus!
