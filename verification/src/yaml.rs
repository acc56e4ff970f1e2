//! YAML documents as the editor reads them: the entries of a top-level
//! mapping, each key and value reduced to its kind and scalar text.

use serde_yaml::Value;
use serde_yaml::Value::{Bool, Mapping, Null, Number, Sequence, Tagged};
use vstd::prelude::*;

verus! {

/// A YAML node as far as the editor looks into it.
#[derive(Debug, Clone, PartialEq, Eq)]
pub enum Node {
    Null,
    Bool(bool),
    /// A number, with its decimal text.
    Number(String),
    Str(String),
    Sequence,
    Mapping,
    Tagged,
}

/// One key/value entry of a mapping, with the debug rendering of each side
/// (used in messages about entries that are skipped).
#[derive(Debug, Clone, PartialEq, Eq)]
pub struct Entry {
    pub key: Node,
    pub key_debug: String,
    pub value: Node,
    pub value_debug: String,
}

/// A node as plain values.
pub enum NodeV {
    Null,
    Bool(bool),
    Number(Seq<char>),
    Str(Seq<char>),
    Sequence,
    Mapping,
    Tagged,
}

/// An entry as plain values: key, its debug text, value, its debug text.
pub struct EntryV {
    pub key: NodeV,
    pub key_debug: Seq<char>,
    pub value: NodeV,
    pub value_debug: Seq<char>,
}

impl View for Node {
    type V = NodeV;

    open spec fn view(&self) -> NodeV {
        match self {
            Node::Null => NodeV::Null,
            Node::Bool(b) => NodeV::Bool(*b),
            Node::Number(t) => NodeV::Number(t@),
            Node::Str(t) => NodeV::Str(t@),
            Node::Sequence => NodeV::Sequence,
            Node::Mapping => NodeV::Mapping,
            Node::Tagged => NodeV::Tagged,
        }
    }
}

impl View for Entry {
    type V = EntryV;

    open spec fn view(&self) -> EntryV {
        EntryV {
            key: self.key@,
            key_debug: self.key_debug@,
            value: self.value@,
            value_debug: self.value_debug@,
        }
    }
}

pub open spec fn entries_view(v: Seq<Entry>) -> Seq<EntryV> {
    v.map_values(|e: Entry| e@)
}

/// Whether some entry has the string key `k`.
pub open spec fn has_str_key(es: Seq<EntryV>, k: Seq<char>) -> bool {
    exists|i: int| 0 <= i < es.len() && (#[trigger] es[i]).key == NodeV::Str(k)
}

/// Whether some entry of `es` has the string key `k`.
pub fn contains_str_key(es: &Vec<Entry>, k: &String) -> (r: bool)
    ensures
        r == has_str_key(entries_view(es@), k@),
{
    let mut i: usize = 0;
    while i < es.len()
        invariant
            i <= es.len(),
            forall|j: int| 0 <= j < i ==> (#[trigger] entries_view(es@)[j]).key != NodeV::Str(k@),
        decreases es.len() - i,
    {
        match &es[i].key {
            Node::Str(s) => {
                let a = crate::text::to_chars(s.as_str());
                let b = crate::text::to_chars(k.as_str());
                if crate::text::chars_eq(a.as_slice(), b.as_slice()) {
                    assert(entries_view(es@)[i as int].key == NodeV::Str(k@));
                    return true;
                }
            },
            _ => {},
        }
        i = i + 1;
    }
    false
}


/// The root of a parsed YAML document: the entries of a mapping, or
/// another node.
pub enum Root {
    Mapping(Vec<Entry>),
    Other(Node),
}

/// A root as plain values.
pub enum RootV {
    Mapping(Seq<EntryV>),
    Other(NodeV),
}

impl View for Root {
    type V = RootV;

    open spec fn view(&self) -> RootV {
        match self {
            Root::Mapping(es) => RootV::Mapping(entries_view(es@)),
            Root::Other(n) => RootV::Other(n@),
        }
    }
}

/// What serde_yaml makes of a text: the root of the document, each node
/// reduced as [`Node`] says and each entry with the `Debug` text of its
/// key and value, or the parser's error message.
pub uninterp spec fn yaml_root(text: Seq<char>) -> Result<RootV, Seq<char>>;

/// `serde_yaml::from_str::<Value>(text)` with the value reduced to a
/// [`Root`], or the error's message; the outcome is named [`yaml_root`].
#[verifier::external_body]
pub(crate) fn parse_yaml(text: &str) -> (r: Result<Root, String>)
    ensures
        match r {
            Ok(x) => yaml_root(text@) == Ok::<RootV, Seq<char>>(x@),
            Err(e) => yaml_root(text@) == Err::<RootV, Seq<char>>(e@),
        },
{
    let node = |v: Value| match v {
        Null => Node::Null,
        Bool(b) => Node::Bool(b),
        Number(n) => Node::Number(n.to_string()),
        Value::String(t) => Node::Str(t),
        Sequence(_) => Node::Sequence,
        Mapping(_) => Node::Mapping,
        Tagged(_) => Node::Tagged,
    };
    match serde_yaml::from_str(text) {
        Ok(Mapping(m)) => Ok(Root::Mapping(m.into_iter().map(|(k, v)| Entry { key_debug: format!("{k:?}"), key: node(k), value_debug: format!("{v:?}"), value: node(v) }).collect())),
        Ok(v) => Ok(Root::Other(node(v))),
        Err(e) => Err(e.to_string()),
    }
}

/// The name of a kind of node, as messages give it.
pub open spec fn kind_name(n: NodeV) -> Seq<char> {
    match n {
        NodeV::Null => "null"@,
        NodeV::Bool(_) => "bool"@,
        NodeV::Number(_) => "number"@,
        NodeV::Str(_) => "string"@,
        NodeV::Sequence => "sequence"@,
        NodeV::Mapping => "mapping"@,
        NodeV::Tagged => "tagged"@,
    }
}

pub fn node_kind(n: &Node) -> (r: &'static str)
    ensures
        r@ == kind_name(n@),
{
    match n {
        Node::Null => "null",
        Node::Bool(_) => "bool",
        Node::Number(_) => "number",
        Node::Str(_) => "string",
        Node::Sequence => "sequence",
        Node::Mapping => "mapping",
        Node::Tagged => "tagged",
    }
}

pub open spec fn schema_root_msg() -> Seq<char> {
    "корень схемы должен быть YAML-мапой"@
}

/// The entries of a schema document, whose root must be a mapping.
pub fn schema_entries(root: Root) -> (r: Result<Vec<Entry>, String>)
    ensures
        match root {
            Root::Mapping(es) => r matches Ok(v) && v@ == es@,
            _ => r matches Err(e) && e@ == schema_root_msg(),
        },
{
    match root {
        Root::Mapping(es) => Ok(es),
        _ => Err("корень схемы должен быть YAML-мапой".to_owned()),
    }
}

/// Whether a text has nothing but white space (it is then not parsed).
pub fn is_blank(text: &str) -> (r: bool)
    ensures
        r == (crate::text::trim(text@).len() == 0),
{
    crate::text::trim_chars(crate::text::to_chars(text).as_slice()).len() == 0
}

/// The message for an input document whose root is `n`.
pub open spec fn input_root_msg(n: NodeV) -> Seq<char> {
    "корень input должен быть YAML-мапой, получено "@ + kind_name(n)
}

/// The entries of an input document of text `text`: none for a blank text
/// or a null root, those of a mapping; any other root is refused.
pub fn input_entries(text: &str, root: Root) -> (r: Result<Vec<Entry>, String>)
    ensures
        crate::text::trim(text@).len() == 0 ==> (r matches Ok(v) && v@.len() == 0),
        crate::text::trim(text@).len() > 0 ==> match root {
            Root::Mapping(es) => r matches Ok(v) && v@ == es@,
            Root::Other(Node::Null) => r matches Ok(v) && v@.len() == 0,
            Root::Other(n) => r matches Err(e) && e@ == input_root_msg(n@),
        },
{
    if is_blank(text) {
        return Ok(Vec::new());
    }
    match root {
        Root::Mapping(es) => Ok(es),
        Root::Other(Node::Null) => Ok(Vec::new()),
        Root::Other(n) => Err(crate::text::str_concat("корень input должен быть YAML-мапой, получено ", node_kind(&n))),
    }
}

/// Why an input document was refused: the text is not YAML (the parser's
/// message), or its root is not a mapping (the message to show).
#[derive(Debug, Clone, PartialEq, Eq)]
pub enum InputError {
    BadYaml(String),
    NotMapping(String),
}

/// The entries of an input document: none for a blank text (which is not
/// parsed); else those of the document's mapping root, none for a null
/// root, and an error for a text that is not YAML or another root.
pub fn parse_input(text: &str) -> (r: Result<Vec<Entry>, InputError>)
    ensures
        crate::text::trim(text@).len() == 0 ==> (r matches Ok(v) && v@.len() == 0),
        crate::text::trim(text@).len() > 0 ==> match yaml_root(text@) {
            Err(m) => r matches Err(InputError::BadYaml(x)) && x@ == m,
            Ok(RootV::Mapping(es)) => r matches Ok(v) && entries_view(v@) == es,
            Ok(RootV::Other(NodeV::Null)) => r matches Ok(v) && v@.len() == 0,
            Ok(RootV::Other(n)) => r matches Err(InputError::NotMapping(x)) && x@ == input_root_msg(n),
        },
{
    if is_blank(text) {
        return Ok(Vec::new());
    }
    match parse_yaml(text) {
        Err(m) => Err(InputError::BadYaml(m)),
        Ok(root) => match input_entries(text, root) {
            Ok(es) => Ok(es),
            Err(m) => Err(InputError::NotMapping(m)),
        },
    }
}

} // verus!
