//! A tuning document as plain data, and the reading of one from YAML text.

use vstd::prelude::*;

verus! {

/// One value of a document.
#[derive(Debug)]
pub enum Node {
    /// The empty value.
    Null,
    /// A truth value.
    Bool(bool),
    /// A number, in the decimal text that `serde_yaml` displays it with: an
    /// integer as its digits, with a minus sign in front where it is
    /// negative, anything else in a form that is no run of digits.
    Number(String),
    /// A string.
    Text(String),
    /// A sequence of values.
    List(Vec<Node>),
    /// A mapping, as its entries in document order: key, then value.
    Table(Vec<(Node, Node)>),
    /// A value under a tag: the tag, then the value.
    Tagged(String, Box<Node>),
}

/// `serde_yaml::Value`, carried from the parser to the copy below and never
/// looked into by verified code.
#[verifier::external_type_specification]
#[verifier::external_body]
pub struct ExValue(serde_yaml::Value);

/// `serde_yaml::Error`, of which verified code uses only that there is one.
#[verifier::external_type_specification]
#[verifier::external_body]
pub struct ExYamlError(serde_yaml::Error);

/// What a `serde_yaml::Value` holds, variant by variant.
pub uninterp spec fn value_tree(value: serde_yaml::Value) -> Node;

/// The document that `serde_yaml` reads from a text, or `None` where it
/// refuses the text.
pub uninterp spec fn yaml_tree(text: Seq<char>) -> Option<Node>;

/// Calls `serde_yaml::from_str` for a `serde_yaml::Value`. The contract claims
/// only that the outcome is a function of the text: `yaml_tree` is the name of
/// what the accepted value holds.
#[verifier::external_body]
fn read_yaml(text: &str) -> (r: Result<serde_yaml::Value, serde_yaml::Error>)
    ensures
        match r {
            Ok(value) => yaml_tree(text@) == Some(value_tree(value)),
            Err(_) => yaml_tree(text@) is None,
        },
{
    serde_yaml::from_str::<serde_yaml::Value>(text)
}

/// Copies a `serde_yaml::Value` into a `Node`, one variant to one variant. A
/// number is kept as the text that `serde_yaml::Number` displays, a tag as the
/// text that `serde_yaml::value::Tag` displays. The contract names the copy.
#[verifier::external_body]
fn node_of(value: &serde_yaml::Value) -> (node: Node)
    ensures
        node == value_tree(*value),
{
    match value {
        serde_yaml::Value::Null => Node::Null,
        serde_yaml::Value::Bool(b) => Node::Bool(*b),
        serde_yaml::Value::Number(n) => Node::Number(n.to_string()),
        serde_yaml::Value::String(s) => Node::Text(s.clone()),
        serde_yaml::Value::Sequence(items) => Node::List(items.iter().map(node_of).collect()),
        serde_yaml::Value::Mapping(m) => Node::Table(m.iter().map(|(k, v)| (node_of(k), node_of(v))).collect()),
        serde_yaml::Value::Tagged(t) => Node::Tagged(t.tag.to_string(), Box::new(node_of(&t.value))),
    }
}

/// Reads a YAML text. `None` means that the text is no single YAML document.
pub fn parse(text: &str) -> (r: Option<Node>)
    ensures
        r == yaml_tree(text@),
{
    match read_yaml(text) {
        Ok(value) => Some(node_of(&value)),
        Err(_) => None,
    }
}

/// The value under the first entry whose key is the string `key`.
pub open spec fn entry(entries: Seq<(Node, Node)>, key: Seq<char>) -> Option<Node>
    decreases entries.len(),
{
    if entries.len() == 0 {
        None
    } else if entries[0].0 matches Node::Text(name) && name@ == key {
        Some(entries[0].1)
    } else {
        entry(entries.skip(1), key)
    }
}

/// Looks a key up among the entries of a mapping.
pub fn find<'a>(entries: &'a Vec<(Node, Node)>, key: &str) -> (r: Option<&'a Node>)
    ensures
        match r {
            Some(node) => entry(entries@, key@) == Some(*node),
            None => entry(entries@, key@) is None,
        },
{
    let wanted = key.to_owned();
    let mut i: usize = 0;
    assert(entries@.skip(0) =~= entries@);
    while i < entries.len()
        invariant
            i <= entries.len(),
            wanted@ == key@,
            entry(entries@, key@) == entry(entries@.skip(i as int), key@),
        decreases entries.len() - i,
    {
        let found = match &entries[i].0 {
            Node::Text(name) => *name == wanted,
            _ => false,
        };
        proof {
            assert(entries@.skip(i as int).skip(1) =~= entries@.skip(i as int + 1));
            assert(entries@.skip(i as int)[0] == entries@[i as int]);
        }
        if found {
            return Some(&entries[i].1);
        }
        i += 1;
    }
    None
}

} // verus!
