//! The pipeline: segmenting help text into option blocks, turning each
//! block into a typed schema node, collecting nodes into a name-keyed
//! mapping, and reconciling an experimental run against a stable run.
use vstd::prelude::*;

use crate::error::{ErrorV, ParseError};
use crate::header::{parse_header, parse_header_spec, HeaderV};
use crate::item::{
    item_map_wf, item_wf, map_of, Item, ItemMap, ItemV, Value, ValueV, value_wf,
};
use crate::text::{
    bytes_of_str, eq_at, lit_vec, remove_cr_spec, skip_spaces, skip_spaces_at, split_all, split_on,
    sub_at, sub_vec, trim_bytes, trim_spec,
};
use crate::typ::{coerce_spec, type_of_name, Type};

verus! {

/// The fixed first line of the help text.
pub open spec fn headline() -> Seq<u8> {
    bytes_of_str("Configuration Options:"@)
}

/// The marker appended to the description of an option that is only
/// available on the experimental channel.
pub open spec fn unstable_marker() -> Seq<u8> {
    bytes_of_str("\n\n### Unstable\nThis option requires the experimental channel."@)
}

/// The documentation-link suffix appended to every option description,
/// with the option key as the URL fragment.
pub open spec fn doc_link_prefix() -> Seq<u8> {
    bytes_of_str("\n\n[Documentation](https://rust-lang.github.io/rustfmt/#"@)
}

pub open spec fn full_description(desc: Seq<u8>, key: Seq<u8>) -> Seq<u8> {
    desc + doc_link_prefix() + key + bytes_of_str(")"@)
}

/// `s` with every leading copy of the fixed headline removed.
pub open spec fn strip_headline(s: Seq<u8>) -> Seq<u8>
    decreases s.len(),
{
    if s.len() >= 22 && sub_at(s, 0, headline()) {
        strip_headline(s.skip(22))
    } else {
        s
    }
}

/// The help text as the segmenter sees it: trimmed, the headline
/// stripped, leading whitespace dropped, carriage returns removed.
pub open spec fn normalize(s: Seq<u8>) -> Seq<u8> {
    let t = trim_spec(s);
    let u = strip_headline(t);
    let v = u.subrange(skip_spaces(u, 0), u.len() as int);
    remove_cr_spec(v)
}

#[verifier::loop_isolation(false)]
fn normalize_text(text: &[u8]) -> (r: Vec<u8>)
    ensures
        r@ == normalize(text@),
{
    proof {
        reveal_strlit("Configuration Options:");
    }
    let head = lit_vec("Configuration Options:");
    let t = trim_bytes(text);
    let mut base: usize = 0;
    proof {
        assert(t@.skip(0) =~= t@);
    }
    while t.len() - base >= 22 && eq_at(t.as_slice(), base, head.as_slice())
        invariant
            base <= t@.len(),
            head@ == headline(),
            strip_headline(t@) == strip_headline(t@.skip(base as int)),
        decreases t@.len() - base,
    {
        proof {
            assert(t@.skip(base as int).subrange(0, 22) =~= t@.subrange(
                base as int,
                base + 22,
            ));
            assert(sub_at(t@.skip(base as int), 0, headline()));
            assert(t@.skip(base as int).skip(22) =~= t@.skip(base + 22));
        }
        base = base + 22;
    }
    proof {
        if t@.skip(base as int).len() >= 22 && sub_at(t@.skip(base as int), 0, headline()) {
            assert(t@.skip(base as int).subrange(0, 22) =~= t@.subrange(
                base as int,
                base + 22,
            ));
        }
    }
    let u = sub_vec(t.as_slice(), base, t.len());
    proof {
        assert(u@ =~= t@.skip(base as int));
    }
    let lo = skip_spaces_at(u.as_slice(), 0);
    let mut out: Vec<u8> = Vec::new();
    let ghost region = u@.subrange(lo as int, u@.len() as int);
    proof {
        assert(region.take(0) =~= Seq::<u8>::empty());
    }
    let mut i: usize = lo;
    while i < u.len()
        invariant
            lo <= i <= u@.len(),
            region == u@.subrange(lo as int, u@.len() as int),
            out@ == remove_cr_spec(region.take(i - lo)),
        decreases u@.len() - i,
    {
        proof {
            assert(region.take(i - lo + 1).drop_last() =~= region.take(i - lo));
            assert(region.take(i - lo + 1).last() == u@[i as int]);
        }
        if u[i] != 13 {
            out.push(u[i]);
        }
        i = i + 1;
    }
    proof {
        assert(region.take(u@.len() - lo) =~= region);
    }
    out
}

/// The logical lines of a block: pieces between newlines, a trailing
/// final newline not opening a further empty line.
pub open spec fn logical_lines(b: Seq<u8>) -> Seq<Seq<u8>> {
    let parts = split_on(b, seq![10u8]);
    if parts.len() > 0 && parts.last().len() == 0 {
        parts.drop_last()
    } else {
        parts
    }
}

/// The type named by the header's angle-bracketed hint; a missing hint
/// defaults to `String`.
pub open spec fn resolved_type(h: HeaderV) -> Result<Type, ErrorV> {
    match h.type_hint {
        None => Ok(Type::String),
        Some(t) => match type_of_name(t) {
            Some(ty) => Ok(ty),
            None => Err(ErrorV::UnknownType { token: t }),
        },
    }
}

/// True of a bracket segment in the open-list form `<ELEMENT_TYPE>,..`.
pub open spec fn is_open_list(c: Seq<u8>) -> bool {
    c.len() >= 5 && c[0] == 60 && c.subrange(c.len() - 4, c.len() as int) == bytes_of_str(">,.."@)
}

/// How the bracket segment refines the resolved type: the open-list form
/// overrides it to `Array` (its element type must be recognized); a
/// `|`-delimited list keeps the type and yields the members, in source
/// order, as string literals.
pub open spec fn bracket_result(t0: Type, bracket: Option<Seq<u8>>) -> Result<
    (Type, Option<Seq<ValueV>>),
    ErrorV,
> {
    match bracket {
        None => Ok((t0, None)),
        Some(c) => if is_open_list(c) {
            match type_of_name(c.subrange(1, c.len() - 4)) {
                Some(_) => Ok((Type::Array, None)),
                None => Err(ErrorV::UnknownType { token: c.subrange(1, c.len() - 4) }),
            }
        } else {
            Ok((t0, Some(split_on(c, seq![124u8]).map_values(|m: Seq<u8>| ValueV::Str(m)))))
        },
    }
}

/// A boolean option with no explicit enum is always presented as the
/// closed enum `[true, false]`.
pub open spec fn with_bool_enum(t: Type, e: Option<Seq<ValueV>>) -> Option<Seq<ValueV>> {
    if e is None && t == Type::Boolean {
        Some(seq![ValueV::Bool(true), ValueV::Bool(false)])
    } else {
        e
    }
}

/// The coerced default value, under the option's resolved type.
pub open spec fn default_result(t: Type, dft: Option<Seq<u8>>) -> Result<Option<ValueV>, ErrorV> {
    match dft {
        None => Ok(None),
        Some(d) => match coerce_spec(t, d) {
            Ok(v) => Ok(Some(v)),
            Err(e) => Err(e),
        },
    }
}

/// What one option block denotes: its key and its schema node, or the
/// first error met. The block must hold exactly a header line and a
/// description line.
pub open spec fn to_item_spec(block: Seq<u8>) -> Result<(Seq<u8>, ItemV), ErrorV> {
    let lines = logical_lines(block);
    if lines.len() != 2 {
        Err(ErrorV::BlockShape { block })
    } else {
        let fst = trim_spec(lines[0]);
        let desc = trim_spec(lines[1]);
        match parse_header_spec(fst) {
            None => Err(ErrorV::Grammar { line: fst }),
            Some(h) => match resolved_type(h) {
                Err(e) => Err(e),
                Ok(t0) => match bracket_result(t0, h.bracket) {
                    Err(e) => Err(e),
                    Ok(te) => match default_result(te.0, h.default) {
                        Err(e) => Err(e),
                        Ok(d) => Ok(
                            (
                                h.key,
                                ItemV {
                                    typ: Some(te.0),
                                    description: Some(full_description(desc, h.key)),
                                    default: d,
                                    enum_values: with_bool_enum(te.0, te.1),
                                },
                            ),
                        ),
                    },
                },
            },
        }
    }
}

/// Parses one two-line option block into its key and schema node,
/// exactly as `to_item_spec` states.
#[verifier::loop_isolation(false)]
pub fn to_item(block: &[u8]) -> (r: Result<(Vec<u8>, Item), ParseError>)
    ensures
        match r {
            Ok(p) => to_item_spec(block@) == Ok::<(Seq<u8>, ItemV), ErrorV>((p.0@, p.1@))
                && item_wf(p.1),
            Err(e) => to_item_spec(block@) == Err::<(Seq<u8>, ItemV), ErrorV>(e@),
        },
{
    proof {
        reveal_strlit("\n");
    }
    let nl = lit_vec("\n");
    proof {
        assert(nl@ =~= seq![10u8]);
    }
    let mut lines = split_all(block, nl.as_slice());
    if lines.len() > 0 && lines[lines.len() - 1].len() == 0 {
        let _ = lines.pop();
    }
    proof {
        assert(lines@.map_values(|v: Vec<u8>| v@) =~= logical_lines(block@));
    }
    if lines.len() != 2 {
        return Err(ParseError::BlockShape { block: vstd::slice::slice_to_vec(block) });
    }
    proof {
        assert(lines@.map_values(|v: Vec<u8>| v@)[0] == lines@[0]@);
        assert(lines@.map_values(|v: Vec<u8>| v@)[1] == lines@[1]@);
    }
    let fst = trim_bytes(lines[0].as_slice());
    let desc = trim_bytes(lines[1].as_slice());
    let header = match parse_header(fst.as_slice()) {
        Some(h) => h,
        None => {
            return Err(ParseError::Grammar { line: fst });
        },
    };
    let typ0: Type = match header.type_hint {
        None => Type::String,
        Some(ref t) => match Type::from_name(t.as_slice()) {
            Ok(ty) => ty,
            Err(e) => {
                return Err(e);
            },
        },
    };
    let mut typ = typ0;
    let mut enum_values: Option<Vec<Value>> = None;
    match header.bracket {
        None => {},
        Some(ref c) => {
            let open_list = c.len() >= 5 && c[0] == 60 && {
                proof {
                    reveal_strlit(">,..");
                }
                let tail_lit = lit_vec(">,..");
                eq_at(c.as_slice(), c.len() - 4, tail_lit.as_slice())
            };
            proof {
                if c@.len() >= 4 {
                    assert(c@.subrange(c@.len() - 4, c@.len() as int) =~= c@.skip(c@.len() - 4));
                }
                if open_list {
                    assert(c@.subrange(c@.len() - 4, c@.len() as int) == bytes_of_str(">,.."@));
                    assert(is_open_list(c@));
                } else {
                    if c@.len() >= 5 && c@[0] == 60 && c@.subrange(c@.len() - 4, c@.len() as int)
                        == bytes_of_str(">,.."@) {
                        assert(sub_at(c@, c@.len() - 4, bytes_of_str(">,.."@)));
                    }
                    assert(!is_open_list(c@));
                }
            }
            if open_list {
                let elem = sub_vec(c.as_slice(), 1, c.len() - 4);
                match Type::from_name(elem.as_slice()) {
                    Ok(_) => {},
                    Err(e) => {
                        return Err(e);
                    },
                }
                typ = Type::Array;
            } else {
                proof {
                    reveal_strlit("|");
                }
                let bar = lit_vec("|");
                proof {
                    assert(bar@ =~= seq![124u8]);
                }
                let members = split_all(c.as_slice(), bar.as_slice());
                let mut vals: Vec<Value> = Vec::new();
                let ghost member_views = split_on(c@, seq![124u8]);
                let mut mi: usize = 0;
                while mi < members.len()
                    invariant
                        mi <= members@.len(),
                        members@.len() == member_views.len(),
                        forall|k: int|
                            0 <= k < members@.len() ==> #[trigger] members@[k]@ == member_views[k],
                        vals@.len() == mi,
                        forall|k: int|
                            0 <= k < mi ==> (#[trigger] vals@[k])@ == ValueV::Str(member_views[k])
                                && value_wf(vals@[k]),
                    decreases members@.len() - mi,
                {
                    vals.push(Value::String(vstd::slice::slice_to_vec(members[mi].as_slice())));
                    mi = mi + 1;
                }
                proof {
                    assert(vals@.map_values(|x: Value| x@) =~= member_views.map_values(
                        |m: Seq<u8>| ValueV::Str(m),
                    ));
                }
                enum_values = Some(vals);
            }
        },
    }
    let ghost e0: Option<Seq<ValueV>> = match enum_values {
        Some(ref v) => Some(v@.map_values(|x: Value| x@)),
        None => None,
    };
    if enum_values.is_none() && typ == Type::Boolean {
        let mut vals: Vec<Value> = Vec::new();
        vals.push(Value::Boolean(true));
        vals.push(Value::Boolean(false));
        proof {
            assert(vals@.map_values(|x: Value| x@) =~= seq![
                ValueV::Bool(true),
                ValueV::Bool(false),
            ]);
        }
        enum_values = Some(vals);
    }
    let default: Option<Value> = match header.default {
        None => None,
        Some(ref d) => match typ.parse(d.as_slice()) {
            Ok(v) => Some(v),
            Err(e) => {
                return Err(e);
            },
        },
    };
    let mut description = desc;
    proof {
        reveal_strlit("\n\n[Documentation](https://rust-lang.github.io/rustfmt/#");
        reveal_strlit(")");
    }
    let mut link = lit_vec("\n\n[Documentation](https://rust-lang.github.io/rustfmt/#");
    description.append(&mut link);
    let mut key_copy = sub_vec(header.key.as_slice(), 0, header.key.len());
    description.append(&mut key_copy);
    let mut close = lit_vec(")");
    description.append(&mut close);
    proof {
        assert(description@ =~= full_description(
            trim_spec(logical_lines(block@)[1]),
            header.key@,
        ));
    }
    let item = Item { typ: Some(typ), description: Some(description), default, enum_values };
    proof {
        assert(trim_spec(logical_lines(block@)[0]) == fst@);
        assert(parse_header_spec(fst@) == Some(header@));
        assert(resolved_type(header@) == Ok::<Type, ErrorV>(typ0));
        assert(bracket_result(typ0, header@.bracket) == Ok::<(Type, Option<Seq<ValueV>>), ErrorV>(
            (typ, e0),
        ));
        assert(default_result(typ, header@.default) == Ok::<Option<ValueV>, ErrorV>(
            match default {
                Some(ref v) => Some(v@),
                None => None,
            },
        ));
        assert(item@.enum_values == with_bool_enum(typ, e0));
        assert(to_item_spec(block@) == Ok::<(Seq<u8>, ItemV), ErrorV>((header.key@, item@)));
        assert(item_wf(item));
    }
    Ok((header.key, item))
}

/// The mapping denoted by a sequence of blocks, each parsed in turn; a
/// later block with the same key overwrites an earlier one, and the
/// first failing block aborts the whole construction.
pub open spec fn build_items(blocks: Seq<Seq<u8>>) -> Result<Map<Seq<u8>, ItemV>, ErrorV>
    decreases blocks.len(),
{
    if blocks.len() == 0 {
        Ok(Map::empty())
    } else {
        match build_items(blocks.drop_last()) {
            Err(e) => Err(e),
            Ok(m) => match to_item_spec(blocks.last()) {
                Err(e) => Err(e),
                Ok(p) => Ok(m.insert(p.0, p.1)),
            },
        }
    }
}

pub proof fn lemma_build_items_err_prefix(blocks: Seq<Seq<u8>>, j: int)
    requires
        0 <= j <= blocks.len(),
        build_items(blocks.take(j)) is Err,
    ensures
        build_items(blocks) == build_items(blocks.take(j)),
    decreases blocks.len() - j,
{
    if j < blocks.len() {
        assert(blocks.take(j + 1).drop_last() =~= blocks.take(j));
        lemma_build_items_err_prefix(blocks, j + 1);
    } else {
        assert(blocks.take(j) =~= blocks);
    }
}

/// What a whole help text denotes: the mapping of every option block,
/// or the first parse error.
pub open spec fn parse_output_spec(text: Seq<u8>) -> Result<Map<Seq<u8>, ItemV>, ErrorV> {
    build_items(split_on(normalize(text), bytes_of_str("\n\n"@)))
}

/// Parses one help-text blob into a name-keyed mapping of schema nodes,
/// exactly as `parse_output_spec` states: fail-fast, no partial mapping.
#[verifier::loop_isolation(false)]
pub fn parse_output(text: &[u8]) -> (r: Result<ItemMap, ParseError>)
    ensures
        match r {
            Ok(m) => parse_output_spec(text@) == Ok::<Map<Seq<u8>, ItemV>, ErrorV>(m@)
                && item_map_wf(m),
            Err(e) => parse_output_spec(text@) == Err::<Map<Seq<u8>, ItemV>, ErrorV>(e@),
        },
{
    let normalized = normalize_text(text);
    proof {
        reveal_strlit("\n\n");
    }
    let sep = lit_vec("\n\n");
    proof {
        assert(sep@ =~= bytes_of_str("\n\n"@));
    }
    let blocks = split_all(normalized.as_slice(), sep.as_slice());
    let ghost block_views = split_on(normalize(text@), bytes_of_str("\n\n"@));
    let mut map = ItemMap::new();
    let mut i: usize = 0;
    while i < blocks.len()
        invariant
            i <= blocks@.len(),
            blocks@.len() == block_views.len(),
            forall|k: int| 0 <= k < blocks@.len() ==> #[trigger] blocks@[k]@ == block_views[k],
            build_items(block_views.take(i as int)) == Ok::<Map<Seq<u8>, ItemV>, ErrorV>(map@),
            item_map_wf(map),
        decreases blocks@.len() - i,
    {
        proof {
            assert(block_views.take(i + 1).drop_last() =~= block_views.take(i as int));
            assert(block_views.take(i + 1).last() == block_views[i as int]);
        }
        match to_item(blocks[i].as_slice()) {
            Ok(p) => {
                let (key, item) = p;
                map.insert(key, item);
            },
            Err(e) => {
                proof {
                    lemma_build_items_err_prefix(block_views, i + 1);
                }
                return Err(e);
            },
        }
        i = i + 1;
    }
    proof {
        assert(block_views.take(block_views.len() as int) =~= block_views);
    }
    Ok(map)
}

/// The unstable annotation, at the model level: the marker is appended
/// to the node's description and nothing else changes.
pub open spec fn annotate_spec(it: ItemV) -> ItemV {
    ItemV {
        typ: it.typ,
        description: match it.description {
            Some(d) => Some(d + unstable_marker()),
            None => None,
        },
        default: it.default,
        enum_values: it.enum_values,
    }
}

/// Reconciliation as a set difference: a key of the experimental mapping
/// absent from the stable mapping has its node annotated; every other
/// node is left as found, and no key is added or removed.
pub open spec fn reconcile_spec(n: Map<Seq<u8>, ItemV>, s: Map<Seq<u8>, ItemV>) -> Map<
    Seq<u8>,
    ItemV,
> {
    Map::new(
        |k: Seq<u8>| n.dom().contains(k),
        |k: Seq<u8>|
            if s.dom().contains(k) {
                n[k]
            } else {
                annotate_spec(n[k])
            },
    )
}

/// Appends the unstable marker to an option's description, if it has one.
fn annotate_item(item: Item) -> (r: Item)
    ensures
        r@ == annotate_spec(item@),
        item_wf(item) ==> item_wf(r),
{
    proof {
        reveal_strlit("\n\n### Unstable\nThis option requires the experimental channel.");
    }
    let description = match item.description {
        Some(mut d) => {
            let mut marker = lit_vec(
                "\n\n### Unstable\nThis option requires the experimental channel.",
            );
            d.append(&mut marker);
            Some(d)
        },
        None => None,
    };
    Item { typ: item.typ, description, default: item.default, enum_values: item.enum_values }
}

/// Annotates every option of the experimental mapping whose key the
/// stable mapping lacks, exactly as `reconcile_spec` states.
#[verifier::loop_isolation(false)]
pub fn reconcile(nightly: ItemMap, stable: &ItemMap) -> (r: ItemMap)
    ensures
        r@ == reconcile_spec(nightly@, stable@),
        item_map_wf(nightly) ==> item_map_wf(r),
{
    let ghost n0 = nightly.entries@;
    let ghost wf0 = item_map_wf(nightly);
    let mut src = nightly;
    let mut out = ItemMap::new();
    let ghost done = Seq::<(Vec<u8>, Item)>::empty();
    proof {
        assert(done + src.entries@ =~= n0);
        assert(out@ =~= reconcile_spec(map_of(done), stable@));
    }
    while src.entries.len() > 0
        invariant
            done + src.entries@ =~= n0,
            out@ == reconcile_spec(map_of(done), stable@),
            wf0 == crate::item::entries_wf(n0),
            wf0 ==> item_map_wf(out),
        decreases src.entries@.len(),
    {
        let ghost done_pre = done;
        let ghost entry = src.entries@[0];
        let (key, item) = src.entries.remove(0);
        proof {
            assert(n0[done.len() as int] == entry);
            if wf0 {
                assert(item_wf(entry.1));
            }
        }
        let in_stable = stable.contains_key(key.as_slice());
        let item2 = if in_stable {
            item
        } else {
            annotate_item(item)
        };
        let ghost key_v = key@;
        let ghost item2_v = item2@;
        out.insert(key, item2);
        proof {
            done = done_pre.push(entry);
            assert(done.drop_last() =~= done_pre);
            assert(map_of(done) == map_of(done_pre).insert(entry.0@, entry.1@));
            assert(done + src.entries@ =~= n0);
            assert(item2_v == if stable@.dom().contains(key_v) {
                entry.1@
            } else {
                annotate_spec(entry.1@)
            });
            assert(out@ =~= reconcile_spec(map_of(done), stable@));
            if wf0 {
                assert forall|j: int| 0 <= j < out.entries@.len() implies item_wf(
                    (#[trigger] out.entries@[j]).1,
                ) by {}
            }
        }
    }
    proof {
        assert(done =~= n0);
    }
    out
}

/// The root schema document: the fixed draft identifier and metadata,
/// the root type `object`, and every parsed option under `properties`.
#[derive(Debug)]
pub struct Schema {
    pub schema_uri: Vec<u8>,
    pub title: Vec<u8>,
    pub typ: Type,
    pub description: Vec<u8>,
    pub properties: ItemMap,
}

pub open spec fn schema_uri() -> Seq<u8> {
    bytes_of_str("http://json-schema.org/draft-07/schema#"@)
}

pub open spec fn schema_title() -> Seq<u8> {
    bytes_of_str("rustfmt schema"@)
}

pub open spec fn root_description() -> Seq<u8> {
    bytes_of_str("https://rust-lang.github.io/rustfmt"@)
}

/// Wraps a finished mapping in the root document node, with the fixed
/// schema metadata.
pub fn build_schema(properties: ItemMap) -> (r: Schema)
    ensures
        r.schema_uri@ == schema_uri(),
        r.title@ == schema_title(),
        r.typ == Type::Object,
        r.description@ == root_description(),
        r.properties@ == properties@,
        r.properties.entries@ == properties.entries@,
{
    proof {
        reveal_strlit("http://json-schema.org/draft-07/schema#");
        reveal_strlit("rustfmt schema");
        reveal_strlit("https://rust-lang.github.io/rustfmt");
    }
    Schema {
        schema_uri: lit_vec("http://json-schema.org/draft-07/schema#"),
        title: lit_vec("rustfmt schema"),
        typ: Type::Object,
        description: lit_vec("https://rust-lang.github.io/rustfmt"),
        properties,
    }
}

/// What the whole run denotes: the experimental mapping reconciled
/// against the stable one, or the first parse error of either run (the
/// experimental run is parsed first).
pub open spec fn config_schema_spec(nightly: Seq<u8>, stable: Seq<u8>) -> Result<
    Map<Seq<u8>, ItemV>,
    ErrorV,
> {
    match parse_output_spec(nightly) {
        Err(e) => Err(e),
        Ok(n) => match parse_output_spec(stable) {
            Err(e) => Err(e),
            Ok(s) => Ok(reconcile_spec(n, s)),
        },
    }
}

/// The full pipeline over the two help texts: parse both runs, annotate
/// experimental-only options, and wrap the result in the root document.
pub fn build_config_schema(nightly_text: &[u8], stable_text: &[u8]) -> (r: Result<
    Schema,
    ParseError,
>)
    ensures
        match r {
            Ok(sch) => config_schema_spec(nightly_text@, stable_text@) == Ok::<
                Map<Seq<u8>, ItemV>,
                ErrorV,
            >(sch.properties@) && sch.schema_uri@ == schema_uri() && sch.title@ == schema_title()
                && sch.typ == Type::Object && sch.description@ == root_description()
                && item_map_wf(sch.properties),
            Err(e) => config_schema_spec(nightly_text@, stable_text@) == Err::<
                Map<Seq<u8>, ItemV>,
                ErrorV,
            >(e@),
        },
{
    let nightly = match parse_output(nightly_text) {
        Ok(m) => m,
        Err(e) => {
            return Err(e);
        },
    };
    let stable = match parse_output(stable_text) {
        Ok(m) => m,
        Err(e) => {
            return Err(e);
        },
    };
    let merged = reconcile(nightly, &stable);
    Ok(build_schema(merged))
}

} // verus!
