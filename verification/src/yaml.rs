//! YAML documents as plain values, read from project files.
use vstd::prelude::*;
use crate::text::str_eq;

verus! {

/// A YAML value. Mapping entries keep the order in which the parser hands
/// them over.
#[derive(Debug)]
pub enum Yaml {
    Null,
    Bool(bool),
    /// A number, in the text the parser prints for it.
    Number(String),
    Str(String),
    Sequence(Vec<Yaml>),
    Mapping(Vec<(Yaml, Yaml)>),
    /// A value under an explicit `!tag`.
    Tagged(String, Box<Yaml>),
}

/// `y` without the tags wrapped around it.
pub open spec fn untagged(y: Yaml) -> Yaml
    decreases y,
{
    match y {
        Yaml::Tagged(_, inner) => untagged(*inner),
        _ => y,
    }
}

/// The value of the first entry whose key is the plain string `key`.
pub open spec fn entry_value(entries: Seq<(Yaml, Yaml)>, key: Seq<char>) -> Option<Yaml>
    decreases entries.len(),
{
    if entries.len() == 0 {
        None
    } else if entries[0].0 matches Yaml::Str(k) && k@ == key {
        Some(entries[0].1)
    } else {
        entry_value(entries.drop_first(), key)
    }
}

/// The string under the key `key` of a mapping (tags set aside), if there is
/// one and it is a string.
pub open spec fn str_entry(y: Yaml, key: Seq<char>) -> Option<Seq<char>> {
    match untagged(y) {
        Yaml::Mapping(entries) => match entry_value(entries@, key) {
            Some(v) => match untagged(v) {
                Yaml::Str(s) => Some(s@),
                _ => None,
            },
            None => None,
        },
        _ => None,
    }
}

/// The tags wrapped around `y`, removed.
pub fn untag(y: &Yaml) -> (r: &Yaml)
    ensures
        *r == untagged(*y),
    decreases y,
{
    match y {
        Yaml::Tagged(_, inner) => untag(&**inner),
        _ => y,
    }
}

/// The string under the key `key` of a mapping; see `str_entry`.
pub fn str_entry_of<'a>(y: &'a Yaml, key: &str) -> (r: Option<&'a str>)
    ensures
        match r {
            Some(s) => str_entry(*y, key@) == Some(s@),
            None => str_entry(*y, key@) is None,
        },
{
    match untag(y) {
        Yaml::Mapping(entries) => {
            let mut i: usize = 0;
            assert(entries@.skip(0) =~= entries@);
            while i < entries.len()
                invariant
                    i <= entries@.len(),
                    untagged(*y) == Yaml::Mapping(*entries),
                    entry_value(entries@, key@) == entry_value(entries@.skip(i as int), key@),
                decreases entries.len() - i,
            {
                let ghost rest = entries@.skip(i as int);
                assert(rest.drop_first() =~= entries@.skip(i + 1));
                let hit = match &entries[i].0 {
                    Yaml::Str(k) => str_eq(k.as_str(), key),
                    _ => false,
                };
                if hit {
                    return match untag(&entries[i].1) {
                        Yaml::Str(s) => Some(s.as_str()),
                        _ => None,
                    };
                }
                i = i + 1;
            }
            None
        },
        _ => None,
    }
}

} // verus!

verus! {

#[verifier::external_type_specification]
#[verifier::external_body]
pub struct ExYamlValue(serde_yaml::Value);

/// What `serde_yaml::from_str::<serde_yaml::Value>` makes of `text`, as a
/// `Yaml` value: `None` when the text is not one YAML document.
pub uninterp spec fn parsed_yaml(text: Seq<char>) -> Option<Yaml>;

/// Parses `text` with `serde_yaml::from_str` into a `serde_yaml::Value` and
/// turns that into a `Yaml` of the same shape. The contract only names the
/// result (`parsed_yaml` of the text): it depends on the text alone.
#[verifier::external_body]
pub fn parse_yaml(text: &str) -> (r: Option<Yaml>)
    ensures
        r == parsed_yaml(text@),
{
    serde_yaml::from_str::<serde_yaml::Value>(text).ok().map(yaml_of)
}

/// Turns a `serde_yaml::Value` into the `Yaml` of the same shape, variant for
/// variant. Only `parse_yaml` uses it; the pair is described by `parse_yaml`.
#[verifier::external_body]
fn yaml_of(v: serde_yaml::Value) -> Yaml {
    match v {
        serde_yaml::Value::Null => Yaml::Null,
        serde_yaml::Value::Bool(b) => Yaml::Bool(b),
        serde_yaml::Value::Number(n) => Yaml::Number(n.to_string()),
        serde_yaml::Value::String(s) => Yaml::Str(s),
        serde_yaml::Value::Sequence(a) => Yaml::Sequence(a.into_iter().map(yaml_of).collect()),
        serde_yaml::Value::Mapping(m) => Yaml::Mapping(m.into_iter().map(|(k, x)| (yaml_of(k), yaml_of(x))).collect()),
        serde_yaml::Value::Tagged(t) => Yaml::Tagged(t.tag.to_string(), Box::new(yaml_of(t.value))),
    }
}

} // verus!
