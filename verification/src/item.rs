//! Schema nodes and literal values, with their specification-level
//! models, and the name-keyed mapping that collects parsed options.
use vstd::prelude::*;

use crate::typ::Type;

verus! {

/// Specification-level model of a literal value. Only the empty array is
/// representable, so an array value carries no further structure.
pub ghost enum ValueV {
    Int(int),
    Bool(bool),
    Str(Seq<u8>),
    Arr,
}

/// A tagged literal: integer, boolean, string, or array.
#[derive(Debug, PartialEq)]
pub enum Value {
    Integer(i64),
    Boolean(bool),
    String(Vec<u8>),
    Array(Vec<Value>),
}

impl View for Value {
    type V = ValueV;

    open spec fn view(&self) -> ValueV {
        match self {
            Value::Integer(i) => ValueV::Int(*i as int),
            Value::Boolean(b) => ValueV::Bool(*b),
            Value::String(s) => ValueV::Str(s@),
            Value::Array(_) => ValueV::Arr,
        }
    }
}

/// Only the empty array is a representable array value.
pub open spec fn value_wf(v: Value) -> bool {
    match v {
        Value::Array(items) => items@.len() == 0,
        _ => true,
    }
}

/// Specification-level model of an option's schema node.
pub ghost struct ItemV {
    pub typ: Option<Type>,
    pub description: Option<Seq<u8>>,
    pub default: Option<ValueV>,
    pub enum_values: Option<Seq<ValueV>>,
}

/// One option's schema node: its type, human-readable description,
/// default value, and enumerated allowed values. Absent fields are
/// omitted from serialized output.
#[derive(Debug, PartialEq)]
pub struct Item {
    pub typ: Option<Type>,
    pub description: Option<Vec<u8>>,
    pub default: Option<Value>,
    pub enum_values: Option<Vec<Value>>,
}

impl View for Item {
    type V = ItemV;

    open spec fn view(&self) -> ItemV {
        ItemV {
            typ: self.typ,
            description: match self.description {
                Some(d) => Some(d@),
                None => None,
            },
            default: match self.default {
                Some(v) => Some(v@),
                None => None,
            },
            enum_values: match self.enum_values {
                Some(vs) => Some(vs@.map_values(|x: Value| x@)),
                None => None,
            },
        }
    }
}

impl Default for Item {
    /// A node with every field absent.
    fn default() -> (r: Item)
        ensures
            r.typ is None,
            r.description is None,
            r.default is None,
            r.enum_values is None,
    {
        Item { typ: None, description: None, default: None, enum_values: None }
    }
}

/// Every value held by the node is itself representable.
pub open spec fn item_wf(it: Item) -> bool {
    &&& match it.default {
        Some(v) => value_wf(v),
        None => true,
    }
    &&& match it.enum_values {
        Some(vs) => forall|i: int| 0 <= i < vs@.len() ==> value_wf(#[trigger] vs@[i]),
        None => true,
    }
}

/// The mapping denoted by a sequence of key/node entries: a later entry
/// with the same key overwrites an earlier one.
pub open spec fn map_of(s: Seq<(Vec<u8>, Item)>) -> Map<Seq<u8>, ItemV>
    decreases s.len(),
{
    if s.len() == 0 {
        Map::empty()
    } else {
        map_of(s.drop_last()).insert(s.last().0@, s.last().1@)
    }
}

pub proof fn lemma_map_of_contains(s: Seq<(Vec<u8>, Item)>, k: Seq<u8>)
    ensures
        map_of(s).dom().contains(k) <==> exists|i: int| 0 <= i < s.len() && (#[trigger] s[i]).0@ == k,
    decreases s.len(),
{
    if s.len() > 0 {
        lemma_map_of_contains(s.drop_last(), k);
        if map_of(s).dom().contains(k) {
            if s.last().0@ == k {
                assert((s[s.len() - 1]).0@ == k);
            } else {
                let i = choose|i: int| 0 <= i < s.len() - 1 && (#[trigger] s.drop_last()[i]).0@
                    == k;
                assert((s[i]).0@ == k);
            }
        }
        if exists|i: int| 0 <= i < s.len() && (#[trigger] s[i]).0@ == k {
            let i = choose|i: int| 0 <= i < s.len() && (#[trigger] s[i]).0@ == k;
            if i < s.len() - 1 {
                assert((s.drop_last()[i]).0@ == k);
            }
        }
    }
}

/// An ordered collection of named schema nodes, read as a name-keyed
/// mapping in which a duplicate name overwrites silently.
#[derive(Debug)]
pub struct ItemMap {
    pub entries: Vec<(Vec<u8>, Item)>,
}

impl View for ItemMap {
    type V = Map<Seq<u8>, ItemV>;

    open spec fn view(&self) -> Map<Seq<u8>, ItemV> {
        map_of(self.entries@)
    }
}

/// Every node of an entry sequence holds only representable values.
pub open spec fn entries_wf(s: Seq<(Vec<u8>, Item)>) -> bool {
    forall|i: int| 0 <= i < s.len() ==> item_wf((#[trigger] s[i]).1)
}

/// Every node of the mapping holds only representable values.
pub open spec fn item_map_wf(m: ItemMap) -> bool {
    entries_wf(m.entries@)
}

impl ItemMap {
    pub fn new() -> (r: ItemMap)
        ensures
            r@ == Map::<Seq<u8>, ItemV>::empty(),
            r.entries@.len() == 0,
            item_map_wf(r),
    {
        ItemMap { entries: Vec::new() }
    }

    /// Adds a node under `key`; an existing node of that name is
    /// overwritten, matching the mapping's last-write-wins reading.
    pub fn insert(&mut self, key: Vec<u8>, item: Item) -> (r: ())
        ensures
            final(self)@ == old(self)@.insert(key@, item@),
            final(self).entries@ == old(self).entries@.push((key, item)),
    {
        let ghost pre = self.entries@;
        self.entries.push((key, item));
        proof {
            assert(self.entries@.drop_last() =~= pre);
        }
    }

    pub fn contains_key(&self, key: &[u8]) -> (r: bool)
        ensures
            r == self@.dom().contains(key@),
    {
        let mut i: usize = 0;
        while i < self.entries.len()
            invariant
                i <= self.entries@.len(),
                forall|j: int| 0 <= j < i ==> (#[trigger] self.entries@[j]).0@ != key@,
            decreases self.entries@.len() - i,
        {
            if crate::text::bytes_eq(self.entries[i].0.as_slice(), key) {
                proof {
                    lemma_map_of_contains(self.entries@, key@);
                }
                return true;
            }
            i = i + 1;
        }
        proof {
            lemma_map_of_contains(self.entries@, key@);
        }
        false
    }

    pub fn len(&self) -> (r: usize)
        ensures
            r == self.entries@.len(),
    {
        self.entries.len()
    }
}

} // verus!
