//! Front matter as an ordered list of keyed YAML nodes.
//!
//! Text is read and written by serde_yaml; this module splits its values
//! one level into `YamlNode`s and back, and keeps the key list well formed.
use vstd::prelude::*;
use crate::error::ParseError;
use crate::text::text_eq;

verus! {

#[verifier::external_type_specification]
#[verifier::external_body]
pub struct ExYamlValue(serde_yaml::Value);

#[verifier::external_type_specification]
#[verifier::external_body]
pub struct ExYamlMapping(serde_yaml::Mapping);

#[verifier::external_type_specification]
#[verifier::external_body]
pub struct ExYamlNumber(serde_yaml::Number);

#[verifier::external_type_specification]
#[verifier::external_body]
pub struct ExYamlTagged(serde_yaml::value::TaggedValue);

#[verifier::external_type_specification]
#[verifier::external_body]
pub struct ExYamlError(serde_yaml::Error);

/// One level of a YAML value: its kind and its immediate contents.
#[derive(Debug)]
pub enum YamlNode {
    Null,
    Bool(bool),
    Number(serde_yaml::Number),
    Text(String),
    List(Vec<serde_yaml::Value>),
    Mapping(serde_yaml::Mapping),
    Tagged(Box<serde_yaml::value::TaggedValue>),
}

/// The value that serde_yaml reads from a text, if it is YAML.
pub uninterp spec fn yaml_value_of(text: Seq<char>) -> Option<serde_yaml::Value>;

/// The text that serde_yaml writes for a value, if it can.
pub uninterp spec fn yaml_text_of(v: serde_yaml::Value) -> Option<Seq<char>>;

/// The variant of a serde_yaml value, with its contents.
pub uninterp spec fn node_of(v: serde_yaml::Value) -> YamlNode;

/// The serde_yaml value of a variant and its contents.
pub uninterp spec fn value_of(n: YamlNode) -> serde_yaml::Value;

/// The entries of a serde_yaml mapping, in order.
pub uninterp spec fn mapping_pairs(m: serde_yaml::Mapping) -> Seq<(serde_yaml::Value, serde_yaml::Value)>;

/// The serde_yaml mapping built from entries, in order.
pub uninterp spec fn mapping_from(p: Seq<(serde_yaml::Value, serde_yaml::Value)>) -> serde_yaml::Mapping;

/// The value of a serde_yaml number, where it is a non-negative integer.
pub uninterp spec fn number_u64(n: serde_yaml::Number) -> Option<u64>;

/// Relies on serde_yaml::from_str to read a YAML document into a value;
/// the result depends on the text alone.
#[verifier::external_body]
fn read_value(text: &str) -> (r: Result<serde_yaml::Value, serde_yaml::Error>)
    ensures
        r matches Ok(v) ==> yaml_value_of(text@) == Some(v),
        r is Err <==> yaml_value_of(text@) is None,
{
    serde_yaml::from_str::<serde_yaml::Value>(text)
}

/// Relies on serde_yaml::to_string to write a value as a YAML document;
/// the result depends on the value alone.
#[verifier::external_body]
fn write_value(v: &serde_yaml::Value) -> (r: Result<String, serde_yaml::Error>)
    ensures
        r matches Ok(s) ==> yaml_text_of(*v) == Some(s@),
        r is Err <==> yaml_text_of(*v) is None,
{
    serde_yaml::to_string(v)
}

/// Tells the variants of serde_yaml::Value apart.
#[verifier::external_body]
fn kind_of(v: serde_yaml::Value) -> (r: YamlNode)
    ensures
        r == node_of(v),
{
    match v {
        serde_yaml::Value::Null => YamlNode::Null,
        serde_yaml::Value::Bool(b) => YamlNode::Bool(b),
        serde_yaml::Value::Number(n) => YamlNode::Number(n),
        serde_yaml::Value::String(s) => YamlNode::Text(s),
        serde_yaml::Value::Sequence(items) => YamlNode::List(items),
        serde_yaml::Value::Mapping(m) => YamlNode::Mapping(m),
        serde_yaml::Value::Tagged(t) => YamlNode::Tagged(t),
    }
}

/// Builds the serde_yaml::Value variant of a node; telling its variants
/// apart again gives the node back.
#[verifier::external_body]
fn value_of_kind(n: YamlNode) -> (r: serde_yaml::Value)
    ensures
        r == value_of(n),
        node_of(r) == n,
{
    match n {
        YamlNode::Null => serde_yaml::Value::Null,
        YamlNode::Bool(b) => serde_yaml::Value::Bool(b),
        YamlNode::Number(x) => serde_yaml::Value::Number(x),
        YamlNode::Text(s) => serde_yaml::Value::String(s),
        YamlNode::List(items) => serde_yaml::Value::Sequence(items),
        YamlNode::Mapping(m) => serde_yaml::Value::Mapping(m),
        YamlNode::Tagged(t) => serde_yaml::Value::Tagged(t),
    }
}

/// The text of a string value, nothing for any other variant (a tagged
/// string included).
#[verifier::external_body]
pub(crate) fn value_text(v: &serde_yaml::Value) -> (r: Option<String>)
    ensures
        r matches Some(s) ==> (node_of(*v) matches YamlNode::Text(t) && t@ == s@),
        r is None <==> !(node_of(*v) is Text),
{
    match v {
        serde_yaml::Value::String(s) => Some(s.clone()),
        _ => None,
    }
}

/// Relies on serde_yaml::Mapping's IntoIterator: its entries in order.
#[verifier::external_body]
fn mapping_entries(m: serde_yaml::Mapping) -> (r: Vec<(serde_yaml::Value, serde_yaml::Value)>)
    ensures
        r@ == mapping_pairs(m),
{
    m.into_iter().collect()
}

/// Relies on serde_yaml::Mapping's FromIterator: a mapping of these entries.
#[verifier::external_body]
fn mapping_of(entries: Vec<(serde_yaml::Value, serde_yaml::Value)>) -> (r: serde_yaml::Mapping)
    ensures
        r == mapping_from(entries@),
{
    entries.into_iter().collect()
}

/// Relies on serde_yaml::Number::as_u64: the value of a non-negative integer.
#[verifier::external_body]
pub(crate) fn number_as_u64(n: &serde_yaml::Number) -> (r: Option<u64>)
    ensures
        r == number_u64(*n),
{
    n.as_u64()
}

/// Relies on serde_yaml's `From<u64>` for Number, which `as_u64` reads back.
#[verifier::external_body]
pub(crate) fn number_from_u64(k: u64) -> (r: serde_yaml::Number)
    ensures
        number_u64(r) == Some(k),
{
    serde_yaml::Number::from(k)
}

/// Builds a string value.
pub(crate) fn text_value(s: String) -> (r: serde_yaml::Value)
    ensures
        node_of(r) == YamlNode::Text(s),
{
    value_of_kind(YamlNode::Text(s))
}

/// The node under `key`, looking from the front.
pub open spec fn lookup(e: Seq<(String, YamlNode)>, key: Seq<char>) -> Option<YamlNode>
    decreases e.len(),
{
    if e.len() == 0 {
        None
    } else if e[0].0@ == key {
        Some(e[0].1)
    } else {
        lookup(e.drop_first(), key)
    }
}

/// The entries of `e` whose key is not picked out by `known`, in order.
pub open spec fn without_keys(e: Seq<(String, YamlNode)>, known: spec_fn(Seq<char>) -> bool) -> Seq<
    (String, YamlNode),
>
    decreases e.len(),
{
    if e.len() == 0 {
        e
    } else if known(e[0].0@) {
        without_keys(e.drop_first(), known)
    } else {
        seq![e[0]] + without_keys(e.drop_first(), known)
    }
}

/// No two entries share a key.
pub open spec fn keys_unique(e: Seq<(String, YamlNode)>) -> bool {
    forall|i: int, j: int| 0 <= i < j < e.len() ==> e[i].0@ != e[j].0@
}

/// What `known` picks out is no key of `e`.
pub open spec fn keys_avoid(e: Seq<(String, YamlNode)>, known: spec_fn(Seq<char>) -> bool) -> bool {
    forall|i: int| 0 <= i < e.len() ==> !known(#[trigger] e[i].0@)
}

/// Keys and nodes read from text pairs: each key is a string, and no key repeats.
pub open spec fn pairs_are_entries(p: Seq<(YamlNode, YamlNode)>) -> bool {
    &&& forall|i: int| 0 <= i < p.len() ==> (#[trigger] p[i]).0 is Text
    &&& forall|i: int, j: int|
        0 <= i < j < p.len() ==> (#[trigger] p[i]).0->Text_0@ != (#[trigger] p[j]).0->Text_0@
}

pub proof fn lemma_without_keys_append(
    a: Seq<(String, YamlNode)>,
    b: Seq<(String, YamlNode)>,
    known: spec_fn(Seq<char>) -> bool,
)
    ensures
        without_keys(a + b, known) == without_keys(a, known) + without_keys(b, known),
    decreases a.len(),
{
    if a.len() == 0 {
        assert(a + b =~= b);
        assert(without_keys(a, known) + without_keys(b, known) =~= without_keys(b, known));
    } else {
        assert((a + b).drop_first() =~= a.drop_first() + b);
        lemma_without_keys_append(a.drop_first(), b, known);
        if !known(a[0].0@) {
            assert(seq![a[0]] + without_keys(a.drop_first(), known) + without_keys(b, known)
                =~= seq![a[0]] + (without_keys(a.drop_first(), known) + without_keys(b, known)));
        }
    }
}

pub proof fn lemma_without_keys_all_known(e: Seq<(String, YamlNode)>, known: spec_fn(Seq<char>) -> bool)
    requires
        forall|i: int| 0 <= i < e.len() ==> known(#[trigger] e[i].0@),
    ensures
        without_keys(e, known) == Seq::<(String, YamlNode)>::empty(),
    decreases e.len(),
{
    if e.len() > 0 {
        assert(known(e[0].0@));
        assert forall|i: int| 0 <= i < e.drop_first().len() implies known(
            #[trigger] e.drop_first()[i].0@,
        ) by {
            assert(e.drop_first()[i] == e[i + 1]);
        }
        lemma_without_keys_all_known(e.drop_first(), known);
    }
}

pub proof fn lemma_without_keys_none_known(e: Seq<(String, YamlNode)>, known: spec_fn(Seq<char>) -> bool)
    requires
        keys_avoid(e, known),
    ensures
        without_keys(e, known) == e,
    decreases e.len(),
{
    if e.len() > 0 {
        assert(!known(e[0].0@));
        assert forall|i: int| 0 <= i < e.drop_first().len() implies !known(
            #[trigger] e.drop_first()[i].0@,
        ) by {
            assert(e.drop_first()[i] == e[i + 1]);
        }
        lemma_without_keys_none_known(e.drop_first(), known);
        assert(seq![e[0]] + e.drop_first() =~= e);
    }
}

/// A front-matter block: its entries in the order they were written.
pub struct FrontMatter {
    pub entries: Vec<(String, YamlNode)>,
}

impl FrontMatter {
    pub open spec fn wf(&self) -> bool {
        keys_unique(self.entries@)
    }

    /// The position of `key` among the entries.
    pub fn position(&self, key: &str) -> (r: Option<usize>)
        ensures
            r matches Some(i) ==> i < self.entries@.len() && self.entries@[i as int].0@ == key@
                && lookup(self.entries@, key@) == Some(self.entries@[i as int].1),
            r is None ==> lookup(self.entries@, key@) is None,
    {
        let mut i: usize = 0;
        assert(self.entries@.subrange(0, self.entries@.len() as int) =~= self.entries@);
        while i < self.entries.len()
            invariant
                i <= self.entries@.len(),
                lookup(self.entries@, key@) == lookup(
                    self.entries@.subrange(i as int, self.entries@.len() as int),
                    key@,
                ),
            decreases self.entries.len() - i,
        {
            let ghost rest = self.entries@.subrange(i as int, self.entries@.len() as int);
            assert(rest[0] == self.entries@[i as int]);
            if text_eq(self.entries[i].0.as_str(), key) {
                return Some(i);
            }
            assert(rest.drop_first() =~= self.entries@.subrange(
                i + 1,
                self.entries@.len() as int,
            ));
            i = i + 1;
        }
        assert(self.entries@.subrange(i as int, self.entries@.len() as int).len() == 0);
        None
    }

    /// Entries from pairs of nodes; every key must be a string, and no key may repeat.
    pub fn from_pairs(pairs: Vec<(YamlNode, YamlNode)>) -> (r: Result<FrontMatter, ParseError>)
        ensures
            r.is_ok() == pairs_are_entries(pairs@),
            r matches Ok(fm) ==> fm.wf() && fm.entries@.len() == pairs@.len() && forall|i: int|
                0 <= i < pairs@.len() ==> (#[trigger] fm.entries@[i]) == (
                pairs@[i].0->Text_0,
                pairs@[i].1,
            ),
            r matches Err(e) ==> e == ParseError::InvalidKey,
    {
        let ghost all = pairs@;
        let mut rest = pairs;
        let mut fm = FrontMatter { entries: Vec::new() };
        let ghost mut i: int = 0;
        while rest.len() > 0
            invariant
                0 <= i <= all.len(),
                all == pairs@,
                rest@ == all.subrange(i, all.len() as int),
                fm.wf(),
                fm.entries@.len() == i,
                forall|m: int| 0 <= m < i ==> (#[trigger] all[m]).0 is Text,
                forall|m: int, n: int|
                    0 <= m < n < i ==> (#[trigger] all[m]).0->Text_0@ != (#[trigger] all[n]).0->Text_0@,
                forall|m: int| 0 <= m < i ==> (#[trigger] fm.entries@[m]) == (all[m].0->Text_0, all[m].1),
            decreases rest.len(),
        {
            let (k, v) = rest.remove(0);
            assert(all[i] == (k, v));
            match k {
                YamlNode::Text(key) => {
                    match fm.position(key.as_str()) {
                        Some(j) => {
                            proof {
                                assert(fm.entries@[j as int] == (all[j as int].0->Text_0, all[j as int].1));
                                assert(all[i].0 == YamlNode::Text(key));
                                assert(all[j as int].0->Text_0@ == all[i].0->Text_0@);
                                assert(!pairs_are_entries(all));
                            }
                            return Err(ParseError::InvalidKey);
                        },
                        None => {
                            proof {
                                assert forall|m: int| 0 <= m < i implies (#[trigger] all[m]).0->Text_0@ != key@ by {
                                    if all[m].0->Text_0@ == key@ {
                                        assert(fm.entries@[m] == (all[m].0->Text_0, all[m].1));
                                        lemma_lookup_finds(fm.entries@, m, key@);
                                    }
                                }
                                assert(all[i].0 == YamlNode::Text(key));
                            }
                            fm.entries.push((key, v));
                            proof {
                                i = i + 1;
                            }
                        },
                    }
                },
                _ => {
                    assert(!(all[i].0 is Text));
                    assert(!pairs_are_entries(all));
                    return Err(ParseError::InvalidKey);
                },
            }
        }
        assert(all.subrange(i, all.len() as int).len() == 0);
        Ok(fm)
    }

    /// Reads a YAML block. An empty block has no entries; anything but a
    /// mapping with string keys, none repeated, is refused.
    pub fn parse(text: &str) -> (r: Result<FrontMatter, ParseError>)
        ensures
            r matches Ok(fm) ==> fm.wf(),
            match front_matter_of(text@) {
                Ok(e) => r matches Ok(fm) && fm.entries@ == e,
                Err(x) => r == Err::<FrontMatter, ParseError>(x),
            },
    {
        let value = match read_value(text) {
            Ok(v) => v,
            Err(_) => return Err(ParseError::Yaml),
        };
        match kind_of(value) {
            YamlNode::Null => {
                let fm = FrontMatter { entries: Vec::new() };
                assert(fm.entries@ =~= Seq::<(String, YamlNode)>::empty());
                Ok(fm)
            },
            YamlNode::Mapping(m) => {
                let ghost all = mapping_pairs(m);
                let mut raw = mapping_entries(m);
                let mut pairs: Vec<(YamlNode, YamlNode)> = Vec::new();
                while raw.len() > 0
                    invariant
                        pairs@.len() + raw@.len() == all.len(),
                        raw@ == all.subrange(pairs@.len() as int, all.len() as int),
                        pairs@ == node_pairs(all).subrange(0, pairs@.len() as int),
                    decreases raw.len(),
                {
                    let ghost i = pairs@.len();
                    let (k, v) = raw.remove(0);
                    assert((k, v) == all[i as int]);
                    pairs.push((kind_of(k), kind_of(v)));
                    assert(pairs@ =~= node_pairs(all).subrange(0, pairs@.len() as int));
                }
                assert(pairs@ =~= node_pairs(all));
                let r = FrontMatter::from_pairs(pairs);
                proof {
                    if r is Ok {
                        assert(r->Ok_0.entries@ =~= entries_of(node_pairs(all)));
                    }
                }
                r
            },
            _ => Err(ParseError::NotAMapping),
        }
    }

    /// Writes the entries back as a YAML block, in order: a mapping from each
    /// key, as a string, to its node.
    pub fn render(self) -> (r: Result<String, ParseError>)
        ensures
            match yaml_text_of(mapping_value(self.entries@)) {
                Some(t) => r matches Ok(s) && s@ == t,
                None => r == Err::<String, ParseError>(ParseError::Yaml),
            },
    {
        let ghost all = self.entries@;
        let mut entries = self.entries;
        let mut pairs: Vec<(serde_yaml::Value, serde_yaml::Value)> = Vec::new();
        while entries.len() > 0
            invariant
                pairs@.len() + entries@.len() == all.len(),
                entries@ == all.subrange(pairs@.len() as int, all.len() as int),
                pairs@ == value_pairs(all).subrange(0, pairs@.len() as int),
            decreases entries.len(),
        {
            let ghost i = pairs@.len();
            let (k, v) = entries.remove(0);
            assert((k, v) == all[i as int]);
            pairs.push((value_of_kind(YamlNode::Text(k)), value_of_kind(v)));
            assert(pairs@ =~= value_pairs(all).subrange(0, pairs@.len() as int));
        }
        assert(pairs@ =~= value_pairs(all));
        let doc = value_of_kind(YamlNode::Mapping(mapping_of(pairs)));
        match write_value(&doc) {
            Ok(s) => Ok(s),
            Err(_) => Err(ParseError::Yaml),
        }
    }
}

/// The pairs of a mapping, each side split into its node.
pub open spec fn node_pairs(p: Seq<(serde_yaml::Value, serde_yaml::Value)>) -> Seq<(YamlNode, YamlNode)> {
    Seq::new(p.len(), |i: int| (node_of(p[i].0), node_of(p[i].1)))
}

/// Entries from node pairs, each key taken as its string.
pub open spec fn entries_of(p: Seq<(YamlNode, YamlNode)>) -> Seq<(String, YamlNode)> {
    Seq::new(p.len(), |i: int| (p[i].0->Text_0, p[i].1))
}

/// What a front-matter block reads as: its entries, or why it is refused.
pub open spec fn front_matter_of(text: Seq<char>) -> Result<Seq<(String, YamlNode)>, ParseError> {
    match yaml_value_of(text) {
        None => Err(ParseError::Yaml),
        Some(v) => match node_of(v) {
            YamlNode::Null => Ok(Seq::empty()),
            YamlNode::Mapping(m) => if pairs_are_entries(node_pairs(mapping_pairs(m))) {
                Ok(entries_of(node_pairs(mapping_pairs(m))))
            } else {
                Err(ParseError::InvalidKey)
            },
            _ => Err(ParseError::NotAMapping),
        },
    }
}

/// Entries as pairs of serde_yaml values: each key as a string value.
pub open spec fn value_pairs(e: Seq<(String, YamlNode)>) -> Seq<(serde_yaml::Value, serde_yaml::Value)> {
    Seq::new(e.len(), |i: int| (value_of(YamlNode::Text(e[i].0)), value_of(e[i].1)))
}

/// The value that entries are written as: a mapping in their order.
pub open spec fn mapping_value(e: Seq<(String, YamlNode)>) -> serde_yaml::Value {
    value_of(YamlNode::Mapping(mapping_from(value_pairs(e))))
}

pub proof fn lemma_lookup_push(e: Seq<(String, YamlNode)>, x: (String, YamlNode), key: Seq<char>)
    ensures
        lookup(e.push(x), key) == (if lookup(e, key) is Some {
            lookup(e, key)
        } else if x.0@ == key {
            Some(x.1)
        } else {
            None
        }),
    decreases e.len(),
{
    if e.len() == 0 {
        assert(e.push(x)[0] == x);
        assert(e.push(x).drop_first() =~= Seq::<(String, YamlNode)>::empty());
        assert(lookup(e.push(x).drop_first(), key) is None);
    } else {
        assert(e.push(x)[0] == e[0]);
        assert(e.push(x).drop_first() =~= e.drop_first().push(x));
        lemma_lookup_push(e.drop_first(), x, key);
    }
}

pub proof fn lemma_lookup_finds(e: Seq<(String, YamlNode)>, m: int, key: Seq<char>)
    requires
        0 <= m < e.len(),
        e[m].0@ == key,
    ensures
        lookup(e, key) is Some,
    decreases e.len(),
{
    if e[0].0@ != key {
        assert(e.drop_first()[m - 1] == e[m]);
        lemma_lookup_finds(e.drop_first(), m - 1, key);
    }
}

} // verus!
