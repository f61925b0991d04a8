//! Reading and writing documents through the outside YAML library.
//!
//! Parsing and rendering are the work of `serde_yaml`; both are pure
//! functions of their input, so each gets a name that the callers' contracts
//! can speak of.  Everything around the two calls — splitting a file into
//! `---`-separated chunks, treating an unparsable chunk as a null document —
//! is verified library code.

use vstd::prelude::*;

use crate::yaml::Yaml;
use crate::yaml::YamlV;

verus! {

#[verifier::external_type_specification]
#[verifier::external_body]
pub struct ExValue(serde_yaml::Value);

/// What parsing one YAML document from the given text yields, if the text
/// parses at all.
pub uninterp spec fn parsed_doc(s: Seq<char>) -> Option<YamlV>;

/// What rendering the given tree as YAML text yields, if it can be
/// serialized at all.
pub uninterp spec fn rendered_doc(y: YamlV) -> Option<Seq<char>>;

/// Keys of the typed tree are text: a scalar key keeps its text, any other
/// key shape is dropped to an empty name.
#[verifier::external_body]
fn key_text(k: serde_yaml::Value) -> String {
    match k {
        serde_yaml::Value::String(s) => s,
        serde_yaml::Value::Bool(b) => b.to_string(),
        serde_yaml::Value::Number(n) => n.to_string(),
        _ => String::new(),
    }
}

/// Converts the outside library's tree into the typed tree, one node for
/// one node; numbers keep their text.
#[verifier::external_body]
fn value_to_yaml(v: serde_yaml::Value) -> Yaml {
    match v {
        serde_yaml::Value::Null => Yaml::Null,
        serde_yaml::Value::Bool(b) => Yaml::Bool(b),
        serde_yaml::Value::Number(n) => Yaml::Num(n.to_string()),
        serde_yaml::Value::String(s) => Yaml::Str(s),
        serde_yaml::Value::Sequence(xs) => Yaml::List(
            xs.into_iter().map(value_to_yaml).collect(),
        ),
        serde_yaml::Value::Mapping(m) => Yaml::Mapping(
            m.into_iter().map(|(k, x)| (key_text(k), value_to_yaml(x))).collect(),
        ),
        serde_yaml::Value::Tagged(t) => value_to_yaml(t.value),
    }
}

/// Converts the typed tree back into the outside library's tree; number
/// text is re-read as a number.
#[verifier::external_body]
fn yaml_to_value(y: &Yaml) -> serde_yaml::Value {
    match y {
        Yaml::Null => serde_yaml::Value::Null,
        Yaml::Bool(b) => serde_yaml::Value::Bool(*b),
        Yaml::Num(s) => serde_yaml::from_str(s).unwrap_or_else(
            |_| serde_yaml::Value::String(s.clone()),
        ),
        Yaml::Str(s) => serde_yaml::Value::String(s.clone()),
        Yaml::List(xs) => serde_yaml::Value::Sequence(xs.iter().map(yaml_to_value).collect()),
        Yaml::Mapping(m) => serde_yaml::Value::Mapping(
            m.iter().map(|(k, x)| (serde_yaml::Value::String(k.clone()), yaml_to_value(x))).collect(),
        ),
    }
}

/// Relies on `serde_yaml::from_str`: parses one YAML document; the result
/// depends on the text alone.
#[verifier::external_body]
pub fn parse_doc(s: &str) -> (r: Option<Yaml>)
    ensures
        match r {
            Some(y) => parsed_doc(s@) == Some(y@),
            None => parsed_doc(s@) is None,
        },
{
    match serde_yaml::from_str::<serde_yaml::Value>(s) {
        Ok(v) => Some(value_to_yaml(v)),
        Err(_) => None,
    }
}

/// Relies on `serde_yaml::to_string`: renders one document as YAML text;
/// the result depends on the tree alone.
#[verifier::external_body]
pub fn render_doc(y: &Yaml) -> (r: Option<String>)
    ensures
        match r {
            Some(s) => rendered_doc(y@) == Some(s@),
            None => rendered_doc(y@) is None,
        },
{
    serde_yaml::to_string(&yaml_to_value(y)).ok()
}

} // verus!
