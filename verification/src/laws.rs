//! Laws the pipeline obeys, stated over the specification functions that
//! the executable functions are proved against.
use vstd::prelude::*;

use crate::builder::{
    annotate_spec, is_open_list, logical_lines, reconcile_spec, to_item_spec,
};
use crate::error::ErrorV;
use crate::header::{parse_header_spec, HeaderV};
use crate::item::{ItemV, ValueV};
use crate::text::{split_on, trim_spec};
use crate::typ::{type_of_name, Type};

verus! {

/// Parsing is deterministic: the same block always denotes the same
/// key, type, enum, default and description, or the same error.
pub proof fn lemma_parse_deterministic(a: Seq<u8>, b: Seq<u8>)
    requires
        a == b,
    ensures
        to_item_spec(a) == to_item_spec(b),
{
}

/// A boolean-typed option with no explicit enum segment always carries
/// the closed enum `[true, false]` in the output.
pub proof fn lemma_boolean_enum(block: Seq<u8>, k: Seq<u8>, it: ItemV, h: HeaderV)
    requires
        to_item_spec(block) == Ok::<(Seq<u8>, ItemV), ErrorV>((k, it)),
        parse_header_spec(trim_spec(logical_lines(block)[0])) == Some(h),
        h.bracket is None,
        it.typ == Some(Type::Boolean),
    ensures
        it.enum_values == Some(seq![ValueV::Bool(true), ValueV::Bool(false)]),
{
}

/// A boolean-typed option never leaves the pipeline without an enum,
/// whether or not the source text enumerated its values.
pub proof fn lemma_boolean_always_enumerated(block: Seq<u8>, k: Seq<u8>, it: ItemV)
    requires
        to_item_spec(block) == Ok::<(Seq<u8>, ItemV), ErrorV>((k, it)),
        it.typ == Some(Type::Boolean),
    ensures
        it.enum_values is Some,
{
}

/// Round trip: an option declared with an explicit `|`-delimited enum
/// produces an enum whose members are exactly those strings, in source
/// order.
pub proof fn lemma_enum_round_trip(block: Seq<u8>, k: Seq<u8>, it: ItemV, h: HeaderV, c: Seq<u8>)
    requires
        to_item_spec(block) == Ok::<(Seq<u8>, ItemV), ErrorV>((k, it)),
        parse_header_spec(trim_spec(logical_lines(block)[0])) == Some(h),
        h.bracket == Some(c),
        !is_open_list(c),
    ensures
        it.enum_values == Some(split_on(c, seq![124u8]).map_values(|m: Seq<u8>| ValueV::Str(m))),
        forall|i: int|
            0 <= i < split_on(c, seq![124u8]).len() ==> it.enum_values->Some_0[i] == ValueV::Str(
                #[trigger] split_on(c, seq![124u8])[i],
            ),
{
}

/// An option whose bracket segment is the open-list form gets type
/// `array` and no enum, and its element type was a recognized name.
pub proof fn lemma_open_list(block: Seq<u8>, k: Seq<u8>, it: ItemV, h: HeaderV, c: Seq<u8>)
    requires
        to_item_spec(block) == Ok::<(Seq<u8>, ItemV), ErrorV>((k, it)),
        parse_header_spec(trim_spec(logical_lines(block)[0])) == Some(h),
        h.bracket == Some(c),
        is_open_list(c),
    ensures
        it.typ == Some(Type::Array),
        it.enum_values is None,
        type_of_name(c.subrange(1, c.len() - 4)) is Some,
{
}

/// Reconciliation is a set difference: no key is added or removed, a key
/// present in both mappings keeps its node untouched, and a key only in
/// the experimental mapping has exactly the unstable annotation applied.
pub proof fn lemma_reconcile_set_difference(n: Map<Seq<u8>, ItemV>, s: Map<Seq<u8>, ItemV>)
    ensures
        reconcile_spec(n, s).dom() == n.dom(),
        forall|k: Seq<u8>| #![all_triggers]
            n.dom().contains(k) && s.dom().contains(k) ==> reconcile_spec(n, s)[k] == n[k],
        forall|k: Seq<u8>| #![all_triggers]
            n.dom().contains(k) && !s.dom().contains(k) ==> reconcile_spec(n, s)[k]
                == annotate_spec(n[k]),
{
    assert(reconcile_spec(n, s).dom() =~= n.dom());
}

} // verus!
