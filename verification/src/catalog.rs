//! The ware/recipe catalog: wares, their production methods, and the
//! translation locators that tie both to the localization table.
//!
//! Loading walks a parsed sub-document tree and is specified by spec
//! functions that mirror the walk exactly, at the level of views: for every
//! tree the contract pins which catalog value or which error comes out.

use vstd::prelude::*;
use crate::errors::{DataError, DataErrorV};
use crate::text::{
    all_digits, all_digits_exec, copy_range, chars_to_string, spec_parse_u32, spec_parse_ms,
    spec_trimmed, str_to_chars, parse_u32, parse_ms,
};
use crate::xml::{XmlNode, get_attr, spec_attr, find_child_tag, spec_find_child_tag};

verus! {

/// A `(page id, item id)` coordinate into the translation table.
#[derive(Debug, Clone)]
pub struct TranslationPos {
    pub page: String,
    pub id: String,
}

/// View of a translation locator: both coordinates as character sequences.
pub struct TranslationPosV {
    pub page: Seq<char>,
    pub id: Seq<char>,
}

impl View for TranslationPos {
    type V = TranslationPosV;

    open spec fn view(&self) -> TranslationPosV {
        TranslationPosV { page: self.page@, id: self.id@ }
    }
}

/// The translation locator grammar: `{` digits `,` ASCII spaces digits `}`,
/// anchored at both ends, with both digit runs non-empty.
pub open spec fn spec_locator(s: Seq<char>) -> Option<TranslationPosV> {
    let inner = s.subrange(1, s.len() - 1);
    let comma = crate::text::first_at(inner, ',', 0);
    let page = inner.subrange(0, comma);
    let rest = inner.subrange(comma + 1, inner.len() as int);
    let sp = spec_space_run(rest);
    let id = rest.subrange(sp, rest.len() as int);
    if s.len() >= 2 && s[0] == '{' && s[s.len() - 1] == '}' && comma < inner.len() && page.len()
        >= 1 && all_digits(page) && id.len() >= 1 && all_digits(id) {
        Some(TranslationPosV { page, id })
    } else {
        None
    }
}

/// An ASCII whitespace character, as the POSIX space class has it.
pub open spec fn is_ascii_space(c: char) -> bool {
    c == ' ' || c == '\t' || c == '\n' || c == '\r' || c == '\u{b}' || c == '\u{c}'
}

/// The length of the leading ASCII-whitespace run.
pub open spec fn spec_space_run(s: Seq<char>) -> int
    decreases s.len(),
{
    if s.len() == 0 || !is_ascii_space(s[0]) {
        0
    } else {
        1 + spec_space_run(s.drop_first())
    }
}

pub proof fn lemma_space_run_bounds(s: Seq<char>)
    ensures
        0 <= spec_space_run(s) <= s.len(),
        forall|j: int| 0 <= j < spec_space_run(s) ==> is_ascii_space(#[trigger] s[j]),
        spec_space_run(s) < s.len() ==> !is_ascii_space(s[spec_space_run(s)]),
    decreases s.len(),
{
    if s.len() > 0 && is_ascii_space(s[0]) {
        lemma_space_run_bounds(s.drop_first());
        assert(forall|j: int|
            1 <= j < spec_space_run(s) ==> #[trigger] s[j] == s.drop_first()[j - 1]);
    }
}

fn char_is_ascii_space(c: char) -> (b: bool)
    ensures
        b == is_ascii_space(c),
{
    c == ' ' || c == '\t' || c == '\n' || c == '\r' || c == '\u{b}' || c == '\u{c}'
}

/// Counts the leading ASCII-whitespace run.
fn space_run(v: &Vec<char>, from: usize) -> (r: usize)
    requires
        from <= v@.len(),
    ensures
        from + spec_space_run(v@.skip(from as int)) == r,
        r <= v@.len(),
{
    let mut i: usize = from;
    while i < v.len() && char_is_ascii_space(v[i])
        invariant
            from <= i <= v@.len(),
            spec_space_run(v@.skip(from as int)) == i - from + spec_space_run(
                v@.skip(i as int),
            ),
        decreases v@.len() - i,
    {
        proof {
            assert(v@.skip(i as int)[0] == v@[i as int]);
            assert(v@.skip(i as int).drop_first() =~= v@.skip(i + 1));
        }
        i = i + 1;
    }
    proof {
        if i < v@.len() {
            assert(v@.skip(i as int)[0] == v@[i as int]);
        }
    }
    i
}

/// Parses a locator out of an already-trimmed character sequence.
pub fn parse_locator(v: &Vec<char>) -> (r: Option<TranslationPos>)
    ensures
        match r {
            Some(p) => spec_locator(v@) == Some(p@),
            None => spec_locator(v@) is None,
        },
{
    if v.len() < 2 {
        return None;
    }
    if !(v[0] == '{' && v[v.len() - 1] == '}') {
        return None;
    }
    let inner = copy_range(v, 1, v.len() - 1);
    proof {
        assert(inner@ =~= v@.subrange(1, v@.len() - 1));
    }
    let comma = crate::text::find_char(&inner, ',');
    proof {
        crate::text::lemma_first_at_props(inner@, ',', 0);
    }
    if comma == inner.len() {
        return None;
    }
    let page = copy_range(&inner, 0, comma);
    let rest = copy_range(&inner, comma + 1, inner.len());
    proof {
        assert(rest@ =~= inner@.subrange(comma + 1, inner@.len() as int));
        assert(rest@ == inner@.skip(comma + 1));
    }
    let sp = space_run(&rest, 0);
    proof {
        assert(rest@.skip(0) =~= rest@);
        lemma_space_run_bounds(rest@);
    }
    let id = copy_range(&rest, sp, rest.len());
    if page.len() >= 1 && all_digits_exec(&page) && id.len() >= 1 && all_digits_exec(&id) {
        Some(TranslationPos { page: chars_to_string(&page), id: chars_to_string(&id) })
    } else {
        None
    }
}


/// One alternative recipe for producing a ware.
#[derive(Debug, Clone)]
pub struct SingleWareProduction {
    pub method: String,
    /// Cycle duration in milliseconds; the source writes seconds with an
    /// optional decimal fraction.
    pub cicle_milliseconds: u64,
    pub wares_per_cicle: usize,
    pub wares_dependencies: Vec<(String, usize)>,
    pub translation: TranslationPos,
}

pub struct SingleWareProductionV {
    pub method: Seq<char>,
    pub cicle_milliseconds: u64,
    pub wares_per_cicle: usize,
    pub wares_dependencies: Seq<(Seq<char>, usize)>,
    pub translation: TranslationPosV,
}

impl View for SingleWareProduction {
    type V = SingleWareProductionV;

    open spec fn view(&self) -> SingleWareProductionV {
        SingleWareProductionV {
            method: self.method@,
            cicle_milliseconds: self.cicle_milliseconds,
            wares_per_cicle: self.wares_per_cicle,
            wares_dependencies: pairs_view(self.wares_dependencies@),
            translation: self.translation@,
        }
    }
}

/// Static attributes of a ware.
#[derive(Debug, Clone)]
pub struct SingleWareInfo {
    pub ware_id: String,
    pub price_min: u32,
    pub price_max: u32,
    pub transport: String,
}

pub struct SingleWareInfoV {
    pub ware_id: Seq<char>,
    pub price_min: u32,
    pub price_max: u32,
    pub transport: Seq<char>,
}

impl View for SingleWareInfo {
    type V = SingleWareInfoV;

    open spec fn view(&self) -> SingleWareInfoV {
        SingleWareInfoV {
            ware_id: self.ware_id@,
            price_min: self.price_min,
            price_max: self.price_max,
            transport: self.transport@,
        }
    }
}

/// A ware with its recipes, in document order, and its optional locator.
#[derive(Debug, Clone)]
pub struct SingleWare {
    pub info: SingleWareInfo,
    pub production_methods: Vec<(String, SingleWareProduction)>,
    pub translation: Option<TranslationPos>,
}

pub struct SingleWareV {
    pub info: SingleWareInfoV,
    pub production_methods: Seq<(Seq<char>, SingleWareProductionV)>,
    pub translation: Option<TranslationPosV>,
}

pub open spec fn opt_pos_view(o: Option<TranslationPos>) -> Option<TranslationPosV> {
    match o {
        Some(p) => Some(p@),
        None => None,
    }
}

impl View for SingleWare {
    type V = SingleWareV;

    open spec fn view(&self) -> SingleWareV {
        SingleWareV {
            info: self.info@,
            production_methods: pairs_view(self.production_methods@),
            translation: opt_pos_view(self.translation),
        }
    }
}

/// The catalog: ware descriptions keyed by ware id, in document order.
#[derive(Debug, Clone)]
pub struct Wares {
    pub id_to_dsc: Vec<(String, SingleWare)>,
}

pub struct WaresV {
    pub id_to_dsc: Seq<(Seq<char>, SingleWareV)>,
}

impl View for Wares {
    type V = WaresV;

    open spec fn view(&self) -> WaresV {
        WaresV { id_to_dsc: pairs_view(self.id_to_dsc@) }
    }
}

/// The first value bound to a key in an association sequence.
pub open spec fn spec_assoc<T>(pairs: Seq<(Seq<char>, T)>, key: Seq<char>) -> Option<T>
    decreases pairs.len(),
{
    if pairs.len() == 0 {
        None
    } else if pairs[0].0 == key {
        Some(pairs[0].1)
    } else {
        spec_assoc(pairs.drop_first(), key)
    }
}

/// The spec-level outcome of reading a locator from a node's name attribute:
/// an absent attribute or a non-matching pattern is tolerated only when the
/// locator itself is optional. For a mandatory locator the item id must also
/// fit a 32-bit number, since it later serves as a sort key.
pub open spec fn spec_read_translation(n: XmlNode, required: bool, ctx: Seq<char>) -> Result<
    Option<TranslationPosV>,
    DataErrorV,
> {
    match spec_attr(n.attrs_of(), "name"@) {
        None => if required {
            Err(DataErrorV::AttributeNotFound("name"@, ctx))
        } else {
            Ok(None)
        },
        Some(raw) => {
            let t = spec_trimmed(raw@);
            match spec_locator(t) {
                Some(p) => {
                    if required && spec_parse_u32(p.id) is None {
                        Err(DataErrorV::AttributeBadValue("name"@, ctx, "{page,item}"@))
                    } else {
                        Ok(Some(p))
                    }
                },
                None => {
                    if required {
                        Err(DataErrorV::AttributeBadValue("name"@, ctx, "{page,item}"@))
                    } else {
                        Ok(None)
                    }
                },
            }
        },
    }
}

/// Reads the optional or mandatory translation locator of a node.
///
/// A mandatory locator must also carry an item id that fits a 32-bit
/// number: `gen_production_methods_list` later parses every method's item
/// id as its sort key, and an id outside that range would make the parse
/// fail where a load-time error names the offending method instead.
pub fn read_translation(n: &XmlNode, is_required: bool, ctx: &String) -> (r: Result<
    Option<TranslationPos>,
    DataError,
>)
    ensures
        match r {
            Ok(o) => spec_read_translation(*n, is_required, ctx@) == Ok::<
                Option<TranslationPosV>,
                DataErrorV,
            >(opt_pos_view(o)),
            Err(e) => spec_read_translation(*n, is_required, ctx@) == Err::<
                Option<TranslationPosV>,
                DataErrorV,
            >(e@),
        },
{
    let atr_key: String = "name".to_owned();
    match get_attr(n, &atr_key) {
        None => {
            if is_required {
                Err(DataError::AttributeNotFound(atr_key, ctx.clone()))
            } else {
                Ok(None)
            }
        },
        Some(raw) => {
            let chars = str_to_chars(raw.as_str());
            let trimmed = crate::text::trim(&chars);
            match parse_locator(&trimmed) {
                Some(p) => {
                    if is_required {
                        let idc = str_to_chars(p.id.as_str());
                        if parse_u32(&idc).is_none() {
                            return Err(
                                DataError::AttributeBadValue(
                                    atr_key,
                                    ctx.clone(),
                                    "{page,item}".to_owned(),
                                ),
                            );
                        }
                    }
                    Ok(Some(p))
                },
                None => {
                    if is_required {
                        Err(
                            DataError::AttributeBadValue(
                                atr_key,
                                ctx.clone(),
                                "{page,item}".to_owned(),
                            ),
                        )
                    } else {
                        Ok(None)
                    }
                },
            }
        },
    }
}


/// View of an association vector keyed by strings.
pub open spec fn pairs_view<T: View>(pairs: Seq<(String, T)>) -> Seq<(Seq<char>, T::V)> {
    pairs.map_values(|p: (String, T)| (p.0@, p.1@))
}

/// Whether a key is bound in an association vector.
pub fn assoc_contains_key<T: View>(v: &Vec<(String, T)>, key: &String) -> (b: bool)
    ensures
        b == (spec_assoc(pairs_view(v@), key@) is Some),
{
    proof {
        assert(pairs_view(v@).skip(0) =~= pairs_view(v@));
    }
    let mut i: usize = 0;
    while i < v.len()
        invariant
            0 <= i <= v@.len(),
            spec_assoc(pairs_view(v@), key@) == spec_assoc(
                pairs_view(v@).skip(i as int),
                key@,
            ),
        decreases v@.len() - i,
    {
        proof {
            assert(pairs_view(v@).skip(i as int)[0] == pairs_view(v@)[i as int]);
            assert(pairs_view(v@).skip(i as int).drop_first() =~= pairs_view(v@).skip(i + 1));
        }
        if v[i].0 == *key {
            return true;
        }
        i = i + 1;
    }
    false
}

/// Looks a key up in an association vector, yielding the first binding.
pub fn assoc_get<'a, T: View>(v: &'a Vec<(String, T)>, key: &String) -> (r: Option<&'a T>)
    ensures
        match r {
            Some(t) => spec_assoc(pairs_view(v@), key@) == Some(t@),
            None => spec_assoc(pairs_view(v@), key@) is None,
        },
{
    proof {
        assert(pairs_view(v@).skip(0) =~= pairs_view(v@));
    }
    let mut i: usize = 0;
    while i < v.len()
        invariant
            0 <= i <= v@.len(),
            spec_assoc(pairs_view(v@), key@) == spec_assoc(
                pairs_view(v@).skip(i as int),
                key@,
            ),
        decreases v@.len() - i,
    {
        proof {
            assert(pairs_view(v@).skip(i as int)[0] == pairs_view(v@)[i as int]);
            assert(pairs_view(v@).skip(i as int).drop_first() =~= pairs_view(v@).skip(i + 1));
        }
        if v[i].0 == *key {
            return Some(&v[i].1);
        }
        i = i + 1;
    }
    None
}

/// Spec mirror of reading one method's input list: entries tagged `ware`
/// with a referenced ware id and a per-cycle quantity; a repeated id or an
/// unreadable entry is an error (which the caller degrades to "no inputs").
pub open spec fn spec_load_inputs(
    nodes: Seq<XmlNode>,
    acc: Seq<(Seq<char>, usize)>,
    ctx: Seq<char>,
) -> Result<Seq<(Seq<char>, usize)>, DataErrorV>
    decreases nodes.len(),
{
    if nodes.len() == 0 {
        Ok(acc)
    } else if !nodes[0].is_element_named("ware"@) {
        spec_load_inputs(nodes.drop_first(), acc, ctx)
    } else {
        match spec_attr(nodes[0].attrs_of(), "ware"@) {
            None => Err(DataErrorV::AttributeNotFound("ware"@, ctx)),
            Some(key) => if spec_assoc(acc, key@) is Some {
                Err(DataErrorV::DuplicateValue(key@, ctx))
            } else {
                match spec_attr(nodes[0].attrs_of(), "amount"@) {
                    None => Err(DataErrorV::AttributeNotFound("amount"@, ctx)),
                    Some(am) => match spec_parse_u32(am@) {
                        None => Err(DataErrorV::AttributeBadValue("amount"@, ctx, "u32"@)),
                        Some(q) => spec_load_inputs(
                            nodes.drop_first(),
                            acc.push((key@, q as usize)),
                            ctx,
                        ),
                    },
                }
            },
        }
    }
}

/// Spec mirror of reading one ware's production methods, in document order.
pub open spec fn spec_load_productions(
    nodes: Seq<XmlNode>,
    acc: Seq<(Seq<char>, SingleWareProductionV)>,
    ware_ctx: Seq<char>,
) -> Result<Seq<(Seq<char>, SingleWareProductionV)>, DataErrorV>
    decreases nodes.len(),
{
    if nodes.len() == 0 {
        Ok(acc)
    } else if !nodes[0].is_element_named("production"@) {
        spec_load_productions(nodes.drop_first(), acc, ware_ctx)
    } else {
        let n = nodes[0];
        match spec_attr(n.attrs_of(), "method"@) {
            None => Err(DataErrorV::AttributeNotFound("method"@, ware_ctx)),
            Some(method) => if spec_assoc(acc, method@) is Some {
                Err(DataErrorV::DuplicateValue(method@, ware_ctx))
            } else {
                match spec_attr(n.attrs_of(), "time"@) {
                    None => Err(DataErrorV::AttributeNotFound("time"@, method@)),
                    Some(t) => match spec_parse_ms(t@) {
                        None => Err(
                            DataErrorV::AttributeBadValue("time"@, method@, "seconds"@),
                        ),
                        Some(ms) => if ms == 0 {
                            Err(DataErrorV::AttributeBadValue("time"@, method@, "seconds"@))
                        } else {
                            match spec_attr(n.attrs_of(), "amount"@) {
                                None => Err(
                                    DataErrorV::AttributeNotFound("amount"@, method@),
                                ),
                                Some(am) => match spec_parse_u32(am@) {
                                    None => Err(
                                        DataErrorV::AttributeBadValue(
                                            "amount"@,
                                            method@,
                                            "positive count"@,
                                        ),
                                    ),
                                    Some(q) => if q == 0 {
                                        Err(
                                            DataErrorV::AttributeBadValue(
                                                "amount"@,
                                                method@,
                                                "positive count"@,
                                            ),
                                        )
                                    } else {
                                        match spec_method_inputs(n, method@) {
                                            Err(e) => Err(e),
                                            Ok(deps) => match spec_read_translation(
                                                n,
                                                true,
                                                method@,
                                            ) {
                                            Err(e) => Err(e),
                                            Ok(o) => spec_load_productions(
                                                nodes.drop_first(),
                                                acc.push(
                                                    (
                                                        method@,
                                                        SingleWareProductionV {
                                                            method: method@,
                                                            cicle_milliseconds: ms,
                                                            wares_per_cicle: q as usize,
                                                            wares_dependencies: deps,
                                                            translation: o->Some_0,
                                                        },
                                                    ),
                                                ),
                                                ware_ctx,
                                            ),
                                        },
                                        }
                                    },
                                },
                            }
                        },
                    },
                }
            },
        }
    }
}

/// The input list of one production node: the entries of its `primary`
/// child. An absent child or a structurally unreadable entry degrades to
/// "no inputs"; a repeated input ware id is a data-integrity failure and
/// stays fatal.
pub open spec fn spec_method_inputs(n: XmlNode, ctx: Seq<char>) -> Result<
    Seq<(Seq<char>, usize)>,
    DataErrorV,
> {
    match spec_find_child_tag(n.children_of(), "primary"@) {
        None => Ok(Seq::empty()),
        Some(prim) => match spec_load_inputs(prim.children_of(), Seq::empty(), ctx) {
            Ok(d) => Ok(d),
            Err(e) => if e is DuplicateValue {
                Err(e)
            } else {
                Ok(Seq::empty())
            },
        },
    }
}

/// Spec mirror of loading the catalog's wares, in document order. A repeated
/// ware id is an error, as is any unreadable mandatory field.
pub open spec fn spec_load_wares(
    nodes: Seq<XmlNode>,
    acc: Seq<(Seq<char>, SingleWareV)>,
) -> Result<Seq<(Seq<char>, SingleWareV)>, DataErrorV>
    decreases nodes.len(),
{
    if nodes.len() == 0 {
        Ok(acc)
    } else if !nodes[0].is_element_named("ware"@) {
        spec_load_wares(nodes.drop_first(), acc)
    } else {
        let n = nodes[0];
        match spec_attr(n.attrs_of(), "id"@) {
            None => Err(DataErrorV::AttributeNotFound("id"@, "ware"@)),
            Some(id) => if spec_assoc(acc, id@) is Some {
                Err(DataErrorV::DuplicateValue(id@, "ware"@))
            } else {
                match spec_attr(n.attrs_of(), "transport"@) {
                    None => Err(DataErrorV::AttributeNotFound("transport"@, id@)),
                    Some(transport) => match spec_find_child_tag(n.children_of(), "price"@) {
                        None => Err(DataErrorV::TagNotFound("price"@, id@)),
                        Some(price) => match spec_attr(price.attrs_of(), "min"@) {
                            None => Err(DataErrorV::AttributeNotFound("min"@, id@)),
                            Some(minr) => match spec_parse_u32(minr@) {
                                None => Err(
                                    DataErrorV::AttributeBadValue("min"@, id@, "u32"@),
                                ),
                                Some(price_min) => match spec_attr(price.attrs_of(), "max"@) {
                                    None => Err(DataErrorV::AttributeNotFound("max"@, id@)),
                                    Some(maxr) => match spec_parse_u32(maxr@) {
                                        None => Err(
                                            DataErrorV::AttributeBadValue(
                                                "max"@,
                                                id@,
                                                "u32"@,
                                            ),
                                        ),
                                        Some(price_max) => match spec_read_translation(
                                            n,
                                            false,
                                            id@,
                                        ) {
                                            Err(e) => Err(e),
                                            Ok(tr) => match spec_load_productions(
                                                n.children_of(),
                                                Seq::empty(),
                                                id@,
                                            ) {
                                                Err(e) => Err(e),
                                                Ok(methods) => spec_load_wares(
                                                    nodes.drop_first(),
                                                    acc.push(
                                                        (
                                                            id@,
                                                            SingleWareV {
                                                                info: SingleWareInfoV {
                                                                    ware_id: id@,
                                                                    price_min,
                                                                    price_max,
                                                                    transport: transport@,
                                                                },
                                                                production_methods: methods,
                                                                translation: tr,
                                                            },
                                                        ),
                                                    ),
                                                ),
                                            },
                                        },
                                    },
                                },
                            },
                        },
                    },
                }
            },
        }
    }
}

/// Spec mirror of loading the whole catalog from the root element.
pub open spec fn spec_load_catalog(root: XmlNode) -> Result<WaresV, DataErrorV> {
    match spec_load_wares(root.children_of(), Seq::empty()) {
        Ok(pairs) => Ok(WaresV { id_to_dsc: pairs }),
        Err(e) => Err(e),
    }
}


/// Reads one method's input list from its `primary` element.
fn load_inputs(prim: &XmlNode, ctx: &String) -> (r: Result<Vec<(String, usize)>, DataError>)
    ensures
        match r {
            Ok(d) => spec_load_inputs(prim.children_of(), Seq::empty(), ctx@) == Ok::<
                Seq<(Seq<char>, usize)>,
                DataErrorV,
            >(pairs_view(d@)),
            Err(e) => spec_load_inputs(prim.children_of(), Seq::empty(), ctx@) == Err::<
                Seq<(Seq<char>, usize)>,
                DataErrorV,
            >(e@),
        },
{
    let mut acc: Vec<(String, usize)> = Vec::new();
    proof {
        assert(pairs_view(acc@) =~= Seq::<(Seq<char>, usize)>::empty());
    }
    match prim {
        XmlNode::Element { children, .. } => {
            proof {
                assert(children@.skip(0) =~= children@);
            }
            let mut i: usize = 0;
            while i < children.len()
                invariant
                    prim.children_of() == children@,
                    0 <= i <= children@.len(),
                    spec_load_inputs(children@.skip(i as int), pairs_view(acc@), ctx@)
                        == spec_load_inputs(children@, Seq::empty(), ctx@),
                decreases children@.len() - i,
            {
                proof {
                    assert(children@.skip(i as int)[0] == children@[i as int]);
                    assert(children@.skip(i as int).drop_first() =~= children@.skip(i + 1));
                }
                let ware_tag: String = "ware".to_owned();
                let node = &children[i];
                let is_ware = match node {
                    XmlNode::Element { tag, .. } => *tag == ware_tag,
                    _ => false,
                };
                if is_ware {
                    let key = match get_attr(node, &ware_tag) {
                        Some(k) => k,
                        None => {
                            return Err(
                                DataError::AttributeNotFound(ware_tag, ctx.clone()),
                            );
                        },
                    };
                    if assoc_contains_key(&acc, &key) {
                        return Err(DataError::DuplicateValue(key, ctx.clone()));
                    }
                    let amount_key: String = "amount".to_owned();
                    let amount_raw = match get_attr(node, &amount_key) {
                        Some(a) => a,
                        None => {
                            return Err(
                                DataError::AttributeNotFound(amount_key, ctx.clone()),
                            );
                        },
                    };
                    let amount_chars = str_to_chars(amount_raw.as_str());
                    let q = match parse_u32(&amount_chars) {
                        Some(q) => q,
                        None => {
                            return Err(
                                DataError::AttributeBadValue(
                                    amount_key,
                                    ctx.clone(),
                                    "u32".to_owned(),
                                ),
                            );
                        },
                    };
                    let ghost old_acc = acc@;
                    acc.push((key, q as usize));
                    proof {
                        assert(pairs_view(acc@) =~= pairs_view(old_acc).push(
                            (acc@.last().0@, acc@.last().1),
                        ));
                    }
                }
                i = i + 1;
            }
            Ok(acc)
        },
        _ => Ok(acc),
    }
}


/// Reads the production methods of one ware element, in document order.
fn load_productions(ware_node: &XmlNode, ware_id: &String) -> (r: Result<
    Vec<(String, SingleWareProduction)>,
    DataError,
>)
    ensures
        match r {
            Ok(d) => spec_load_productions(ware_node.children_of(), Seq::empty(), ware_id@)
                == Ok::<Seq<(Seq<char>, SingleWareProductionV)>, DataErrorV>(pairs_view(d@)),
            Err(e) => spec_load_productions(ware_node.children_of(), Seq::empty(), ware_id@)
                == Err::<Seq<(Seq<char>, SingleWareProductionV)>, DataErrorV>(e@),
        },
{
    let mut acc: Vec<(String, SingleWareProduction)> = Vec::new();
    proof {
        assert(pairs_view(acc@) =~= Seq::<(Seq<char>, SingleWareProductionV)>::empty());
    }
    match ware_node {
        XmlNode::Element { children, .. } => {
            proof {
                assert(children@.skip(0) =~= children@);
            }
            let mut i: usize = 0;
            while i < children.len()
                invariant
                    ware_node.children_of() == children@,
                    0 <= i <= children@.len(),
                    spec_load_productions(children@.skip(i as int), pairs_view(acc@), ware_id@)
                        == spec_load_productions(children@, Seq::empty(), ware_id@),
                decreases children@.len() - i,
            {
                proof {
                    assert(children@.skip(i as int)[0] == children@[i as int]);
                    assert(children@.skip(i as int).drop_first() =~= children@.skip(i + 1));
                }
                let ghost pre_acc = acc@;
                let production_tag: String = "production".to_owned();
                let node = &children[i];
                let is_production = match node {
                    XmlNode::Element { tag, .. } => *tag == production_tag,
                    _ => false,
                };
                if is_production {
                    let method_key: String = "method".to_owned();
                    let method = match get_attr(node, &method_key) {
                        Some(m) => m,
                        None => {
                            return Err(
                                DataError::AttributeNotFound(method_key, ware_id.clone()),
                            );
                        },
                    };
                    if assoc_contains_key(&acc, &method) {
                        return Err(DataError::DuplicateValue(method, ware_id.clone()));
                    }
                    let time_key: String = "time".to_owned();
                    let time_raw = match get_attr(node, &time_key) {
                        Some(t) => t,
                        None => {
                            return Err(
                                DataError::AttributeNotFound(time_key, method.clone()),
                            );
                        },
                    };
                    let time_chars = str_to_chars(time_raw.as_str());
                    let ms = match parse_ms(&time_chars) {
                        Some(ms) => ms,
                        None => {
                            return Err(
                                DataError::AttributeBadValue(
                                    time_key,
                                    method.clone(),
                                    "seconds".to_owned(),
                                ),
                            );
                        },
                    };
                    if ms == 0 {
                        return Err(
                            DataError::AttributeBadValue(
                                time_key,
                                method.clone(),
                                "seconds".to_owned(),
                            ),
                        );
                    }
                    let amount_key: String = "amount".to_owned();
                    let amount_raw = match get_attr(node, &amount_key) {
                        Some(a) => a,
                        None => {
                            return Err(
                                DataError::AttributeNotFound(amount_key, method.clone()),
                            );
                        },
                    };
                    let amount_chars = str_to_chars(amount_raw.as_str());
                    let q = match parse_u32(&amount_chars) {
                        Some(q) if q > 0 => q,
                        _ => {
                            return Err(
                                DataError::AttributeBadValue(
                                    amount_key,
                                    method.clone(),
                                    "positive count".to_owned(),
                                ),
                            );
                        },
                    };
                    let primary_tag: String = "primary".to_owned();
                    let wares_dependencies: Vec<(String, usize)> =
                        match find_child_tag(node, &primary_tag) {
                        Some(prim) => match load_inputs(prim, &method) {
                            Ok(d) => d,
                            Err(e) => match e {
                                DataError::DuplicateValue(a, b) => {
                                    return Err(DataError::DuplicateValue(a, b));
                                },
                                _ => Vec::new(),
                            },
                        },
                        None => Vec::new(),
                    };
                    proof {
                        if wares_dependencies@.len() == 0 {
                            assert(pairs_view(wares_dependencies@)
                                =~= Seq::<(Seq<char>, usize)>::empty());
                        }
                        assert(spec_method_inputs(children@[i as int], method@) == Ok::<
                            Seq<(Seq<char>, usize)>,
                            DataErrorV,
                        >(pairs_view(wares_dependencies@)));
                    }
                    let translation = match read_translation(node, true, &method) {
                        Ok(o) => o,
                        Err(e) => {
                            return Err(e);
                        },
                    };
                    let pos = match translation {
                        Some(p) => p,
                        None => TranslationPos { page: String::new(), id: String::new() },
                    };
                    proof {
                        assert(opt_pos_view(translation) is Some);
                    }
                    let ghost old_acc = acc@;
                    let new_value = SingleWareProduction {
                        method: method.clone(),
                        cicle_milliseconds: ms,
                        wares_per_cicle: q as usize,
                        wares_dependencies,
                        translation: pos,
                    };
                    acc.push((method, new_value));
                    proof {
                        assert(pairs_view(acc@) =~= pairs_view(old_acc).push(
                            (acc@.last().0@, acc@.last().1@),
                        ));
                        assert(spec_load_productions(
                            children@.skip(i as int),
                            pairs_view(pre_acc),
                            ware_id@,
                        ) == spec_load_productions(
                            children@.skip(i + 1),
                            pairs_view(acc@),
                            ware_id@,
                        ));
                    }
                } else {
                    proof {
                        assert(spec_load_productions(
                            children@.skip(i as int),
                            pairs_view(pre_acc),
                            ware_id@,
                        ) == spec_load_productions(
                            children@.skip(i + 1),
                            pairs_view(acc@),
                            ware_id@,
                        ));
                    }
                }
                i = i + 1;
            }
            Ok(acc)
        },
        _ => Ok(acc),
    }
}


impl Wares {
    /// Looks a ware up by id.
    pub fn get<'a>(&'a self, the_key: &String) -> (r: Result<&'a SingleWare, DataError>)
        ensures
            match r {
                Ok(w) => spec_assoc(self@.id_to_dsc, the_key@) == Some(w@),
                Err(e) => spec_assoc(self@.id_to_dsc, the_key@) is None && e@
                    == DataErrorV::UnknownWare(the_key@),
            },
    {
        match assoc_get(&self.id_to_dsc, the_key) {
            Some(w) => Ok(w),
            None => Err(DataError::UnknownWare(the_key.clone())),
        }
    }

    /// Loads the catalog from the root element of the wares sub-document:
    /// every child tagged `ware`, in document order.
    pub fn load_from_xml(root: &XmlNode) -> (r: Result<Wares, DataError>)
        ensures
            match r {
                Ok(w) => spec_load_catalog(*root) == Ok::<WaresV, DataErrorV>(w@),
                Err(e) => spec_load_catalog(*root) == Err::<WaresV, DataErrorV>(e@),
            },
    {
        let mut acc: Vec<(String, SingleWare)> = Vec::new();
        proof {
            assert(pairs_view(acc@) =~= Seq::<(Seq<char>, SingleWareV)>::empty());
        }
        match root {
            XmlNode::Element { children, .. } => {
                proof {
                    assert(children@.skip(0) =~= children@);
                }
                let mut i: usize = 0;
                while i < children.len()
                    invariant
                        root.children_of() == children@,
                        0 <= i <= children@.len(),
                        spec_load_wares(children@.skip(i as int), pairs_view(acc@))
                            == spec_load_wares(children@, Seq::empty()),
                    decreases children@.len() - i,
                {
                    proof {
                        assert(children@.skip(i as int)[0] == children@[i as int]);
                        assert(children@.skip(i as int).drop_first() =~= children@.skip(
                            i + 1,
                        ));
                    }
                    let ware_tag: String = "ware".to_owned();
                    let node = &children[i];
                    let is_ware = match node {
                        XmlNode::Element { tag, .. } => *tag == ware_tag,
                        _ => false,
                    };
                    if is_ware {
                        let id_key: String = "id".to_owned();
                        let ware_id = match get_attr(node, &id_key) {
                            Some(w) => w,
                            None => {
                                return Err(
                                    DataError::AttributeNotFound(id_key, ware_tag),
                                );
                            },
                        };
                        if assoc_contains_key(&acc, &ware_id) {
                            return Err(DataError::DuplicateValue(ware_id, ware_tag));
                        }
                        let transport_key: String = "transport".to_owned();
                        let transport = match get_attr(node, &transport_key) {
                            Some(t) => t,
                            None => {
                                return Err(
                                    DataError::AttributeNotFound(
                                        transport_key,
                                        ware_id,
                                    ),
                                );
                            },
                        };
                        let price_tag: String = "price".to_owned();
                        let price_node = match find_child_tag(node, &price_tag) {
                            Some(p) => p,
                            None => {
                                return Err(DataError::TagNotFound(price_tag, ware_id));
                            },
                        };
                        let price_min = match read_u32_attr(price_node, "min", &ware_id) {
                            Ok(v) => v,
                            Err(e) => {
                                return Err(e);
                            },
                        };
                        let price_max = match read_u32_attr(price_node, "max", &ware_id) {
                            Ok(v) => v,
                            Err(e) => {
                                return Err(e);
                            },
                        };
                        let translation = match read_translation(node, false, &ware_id) {
                            Ok(o) => o,
                            Err(e) => {
                                return Err(e);
                            },
                        };
                        let production_methods = match load_productions(node, &ware_id) {
                            Ok(m) => m,
                            Err(e) => {
                                return Err(e);
                            },
                        };
                        let info = SingleWareInfo {
                            ware_id: ware_id.clone(),
                            price_min,
                            price_max,
                            transport,
                        };
                        let new_ware = SingleWare { info, production_methods, translation };
                        let ghost old_acc = acc@;
                        acc.push((ware_id, new_ware));
                        proof {
                            assert(pairs_view(acc@) =~= pairs_view(old_acc).push(
                                (acc@.last().0@, acc@.last().1@),
                            ));
                        }
                    }
                    i = i + 1;
                }
                Ok(Wares { id_to_dsc: acc })
            },
            _ => Ok(Wares { id_to_dsc: acc }),
        }
    }
}

/// Reads a mandatory `u32` attribute of a node.
fn read_u32_attr(n: &XmlNode, key: &str, ctx: &String) -> (r: Result<u32, DataError>)
    ensures
        match r {
            Ok(v) => {
                &&& spec_attr(n.attrs_of(), key@) matches Some(raw)
                &&& spec_parse_u32(raw@) == Some(v)
            },
            Err(e) => match spec_attr(n.attrs_of(), key@) {
                None => e@ == DataErrorV::AttributeNotFound(key@, ctx@),
                Some(raw) => spec_parse_u32(raw@) is None && e@
                    == DataErrorV::AttributeBadValue(key@, ctx@, "u32"@),
            },
        },
{
    let key_string: String = key.to_owned();
    match get_attr(n, &key_string) {
        None => Err(DataError::AttributeNotFound(key_string, ctx.clone())),
        Some(raw) => {
            let chars = str_to_chars(raw.as_str());
            match parse_u32(&chars) {
                Some(v) => Ok(v),
                None => Err(
                    DataError::AttributeBadValue(key_string, ctx.clone(), "u32".to_owned()),
                ),
            }
        },
    }
}


/// Views of a vector of strings.
pub open spec fn strings_view(v: Seq<String>) -> Seq<Seq<char>> {
    v.map_values(|s: String| s@)
}

/// Whether a string with this view occurs in the vector.
pub fn vec_contains_string(v: &Vec<String>, x: &String) -> (b: bool)
    ensures
        b == strings_view(v@).contains(x@),
{
    let mut i: usize = 0;
    while i < v.len()
        invariant
            0 <= i <= v@.len(),
            forall|j: int| 0 <= j < i ==> strings_view(v@)[j] != x@,
        decreases v@.len() - i,
    {
        if v[i] == *x {
            proof {
                assert(strings_view(v@)[i as int] == x@);
            }
            return true;
        }
        i = i + 1;
    }
    proof {
        if strings_view(v@).contains(x@) {
            let j = choose|j: int|
                0 <= j < strings_view(v@).len() && strings_view(v@)[j] == x@;
            assert(false);
        }
    }
    false
}

/// The first prioritized name that the ware offers, scanned in list order.
pub open spec fn spec_priority_pick(
    methods: Seq<(Seq<char>, SingleWareProductionV)>,
    pl: Seq<Seq<char>>,
) -> Option<SingleWareProductionV>
    decreases pl.len(),
{
    if pl.len() == 0 {
        None
    } else {
        match spec_assoc(methods, pl[0]) {
            Some(m) => Some(m),
            None => spec_priority_pick(methods, pl.drop_first()),
        }
    }
}

/// The first method, in catalog order, whose name is not blacklisted.
pub open spec fn spec_first_unblacklisted(
    methods: Seq<(Seq<char>, SingleWareProductionV)>,
    bl: Seq<Seq<char>>,
) -> Option<SingleWareProductionV>
    decreases methods.len(),
{
    if methods.len() == 0 {
        None
    } else if !bl.contains(methods[0].0) {
        Some(methods[0].1)
    } else {
        spec_first_unblacklisted(methods.drop_first(), bl)
    }
}

/// The selection policy: a ware without methods cannot be produced; else the
/// first priority-list name the ware offers wins; else the first method not
/// blacklisted; else every method is blacklisted.
pub open spec fn spec_find_desired(
    methods: Seq<(Seq<char>, SingleWareProductionV)>,
    pl: Seq<Seq<char>>,
    bl: Seq<Seq<char>>,
    ware_id: Seq<char>,
) -> Result<SingleWareProductionV, DataErrorV> {
    if methods.len() == 0 {
        Err(DataErrorV::NoProductionMethods(ware_id))
    } else {
        match spec_priority_pick(methods, pl) {
            Some(m) => Ok(m),
            None => match spec_first_unblacklisted(methods, bl) {
                Some(m) => Ok(m),
                None => Err(DataErrorV::AllMethodsBlacklisted(ware_id)),
            },
        }
    }
}

impl SingleWare {
    /// Selects the recipe to use under the priority/blacklist policy.
    pub fn find_desired_method<'a>(
        &'a self,
        prioritylist: &Vec<String>,
        blacklist: &Vec<String>,
    ) -> (r: Result<&'a SingleWareProduction, DataError>)
        ensures
            match r {
                Ok(m) => spec_find_desired(
                    self@.production_methods,
                    strings_view(prioritylist@),
                    strings_view(blacklist@),
                    self@.info.ware_id,
                ) == Ok::<SingleWareProductionV, DataErrorV>(m@),
                Err(e) => spec_find_desired(
                    self@.production_methods,
                    strings_view(prioritylist@),
                    strings_view(blacklist@),
                    self@.info.ware_id,
                ) == Err::<SingleWareProductionV, DataErrorV>(e@),
            },
    {
        let methods = &self.production_methods;
        if methods.len() == 0 {
            proof {
                assert(self@.production_methods.len() == 0);
            }
            return Err(DataError::NoProductionMethods(self.info.ware_id.clone()));
        }
        proof {
            assert(strings_view(prioritylist@).skip(0) =~= strings_view(prioritylist@));
        }
        let mut i: usize = 0;
        while i < prioritylist.len()
            invariant
                self.production_methods == *methods,
                0 <= i <= prioritylist@.len(),
                spec_priority_pick(pairs_view(methods@), strings_view(prioritylist@))
                    == spec_priority_pick(
                    pairs_view(methods@),
                    strings_view(prioritylist@).skip(i as int),
                ),
            decreases prioritylist@.len() - i,
        {
            proof {
                assert(strings_view(prioritylist@).skip(i as int)[0] == strings_view(
                    prioritylist@,
                )[i as int]);
                assert(strings_view(prioritylist@).skip(i as int).drop_first()
                    =~= strings_view(prioritylist@).skip(i + 1));
            }
            match assoc_get(methods, &prioritylist[i]) {
                Some(m) => {
                    return Ok(m);
                },
                None => {},
            }
            i = i + 1;
        }
        proof {
            assert(pairs_view(methods@).skip(0) =~= pairs_view(methods@));
        }
        let mut k: usize = 0;
        while k < methods.len()
            invariant
                self.production_methods == *methods,
                0 <= k <= methods@.len(),
                spec_priority_pick(pairs_view(methods@), strings_view(prioritylist@))
                    is None,
                methods@.len() > 0,
                spec_first_unblacklisted(pairs_view(methods@), strings_view(blacklist@))
                    == spec_first_unblacklisted(
                    pairs_view(methods@).skip(k as int),
                    strings_view(blacklist@),
                ),
            decreases methods@.len() - k,
        {
            proof {
                assert(pairs_view(methods@).skip(k as int)[0] == pairs_view(methods@)[
                    k as int]);
                assert(pairs_view(methods@).skip(k as int).drop_first() =~= pairs_view(
                    methods@,
                ).skip(k + 1));
            }
            if !vec_contains_string(blacklist, &methods[k].0) {
                return Ok(&methods[k].1);
            }
            k = k + 1;
        }
        Err(DataError::AllMethodsBlacklisted(self.info.ware_id.clone()))
    }
}


/// Dedups one ware's method names into the accumulator, first occurrence
/// first, each paired with its parsed translation item id (the sort key).
pub open spec fn spec_collect_from_methods(
    methods: Seq<(Seq<char>, SingleWareProductionV)>,
    acc: Seq<(Seq<char>, u32)>,
) -> Seq<(Seq<char>, u32)>
    decreases methods.len(),
{
    if methods.len() == 0 {
        acc
    } else {
        let name = methods[0].0;
        let acc2 = if spec_assoc(acc, name) is Some {
            acc
        } else {
            acc.push((name, spec_parse_u32(methods[0].1.translation.id)->Some_0))
        };
        spec_collect_from_methods(methods.drop_first(), acc2)
    }
}

/// All distinct method names of the catalog, in document order.
pub open spec fn spec_collect_methods(
    wares: Seq<(Seq<char>, SingleWareV)>,
    acc: Seq<(Seq<char>, u32)>,
) -> Seq<(Seq<char>, u32)>
    decreases wares.len(),
{
    if wares.len() == 0 {
        acc
    } else {
        spec_collect_methods(
            wares.drop_first(),
            spec_collect_from_methods(wares[0].1.production_methods, acc),
        )
    }
}

/// Stable insertion into a sequence sorted by the numeric key: the new
/// element goes before the first strictly greater key.
pub open spec fn spec_insert_sorted(
    s: Seq<(Seq<char>, u32)>,
    x: (Seq<char>, u32),
) -> Seq<(Seq<char>, u32)>
    decreases s.len(),
{
    if s.len() == 0 {
        seq![x]
    } else if s[0].1 > x.1 {
        seq![x] + s
    } else {
        seq![s[0]] + spec_insert_sorted(s.drop_first(), x)
    }
}

/// Stable sort by the numeric key, by repeated insertion.
pub open spec fn spec_sort_by_id(
    items: Seq<(Seq<char>, u32)>,
    acc: Seq<(Seq<char>, u32)>,
) -> Seq<(Seq<char>, u32)>
    decreases items.len(),
{
    if items.len() == 0 {
        acc
    } else {
        spec_sort_by_id(items.drop_first(), spec_insert_sorted(acc, items[0]))
    }
}

/// The catalog-wide method-name list: distinct names in document order,
/// sorted stably by their translation item ids.
pub open spec fn spec_gen_methods_list(wares: Seq<(Seq<char>, SingleWareV)>) -> Seq<
    Seq<char>,
> {
    spec_sort_by_id(spec_collect_methods(wares, Seq::empty()), Seq::empty()).map_values(
        |p: (Seq<char>, u32)| p.0,
    )
}

/// Every method's translation item id parses as a 32-bit number.
pub open spec fn methods_ids_parse(wares: Seq<(Seq<char>, SingleWareV)>) -> bool {
    forall|i: int, k: int|
        0 <= i < wares.len() && 0 <= k < wares[i].1.production_methods.len()
            ==> spec_parse_u32(
            #[trigger] wares[i].1.production_methods[k].1.translation.id,
        ) is Some
}

pub proof fn lemma_insert_sorted_at(s: Seq<(Seq<char>, u32)>, x: (Seq<char>, u32), pos: int)
    requires
        0 <= pos <= s.len(),
        forall|j: int| 0 <= j < pos ==> (#[trigger] s[j]).1 <= x.1,
        pos < s.len() ==> s[pos].1 > x.1,
    ensures
        spec_insert_sorted(s, x) == s.subrange(0, pos) + seq![x] + s.subrange(
            pos,
            s.len() as int,
        ),
    decreases s.len(),
{
    if pos == 0 {
        if s.len() == 0 {
            assert(spec_insert_sorted(s, x) =~= s.subrange(0, 0) + seq![x] + s.subrange(
                0,
                0,
            ));
        } else {
            assert(spec_insert_sorted(s, x) =~= s.subrange(0, 0) + seq![x] + s.subrange(
                0,
                s.len() as int,
            ));
        }
    } else {
        lemma_insert_sorted_at(s.drop_first(), x, pos - 1);
        assert(s.drop_first().subrange(0, pos - 1) =~= s.subrange(1, pos));
        assert(s.drop_first().subrange(pos - 1, s.drop_first().len() as int) =~= s.subrange(
            pos,
            s.len() as int,
        ));
        assert(spec_insert_sorted(s, x) =~= s.subrange(0, pos) + seq![x] + s.subrange(
            pos,
            s.len() as int,
        ));
    }
}

impl Wares {
    /// The catalog-wide method-name universe, deduplicated and ordered by
    /// translation item id.
    pub fn gen_production_methods_list(&self) -> (r: Vec<String>)
        requires
            methods_ids_parse(self@.id_to_dsc),
        ensures
            strings_view(r@) == spec_gen_methods_list(self@.id_to_dsc),
    {
        let mut collected: Vec<(String, u32)> = Vec::new();
        proof {
            assert(pairs_view(collected@) =~= Seq::<(Seq<char>, u32)>::empty());
            assert(self@.id_to_dsc.skip(0) =~= self@.id_to_dsc);
        }
        let mut i: usize = 0;
        while i < self.id_to_dsc.len()
            invariant
                methods_ids_parse(self@.id_to_dsc),
                0 <= i <= self@.id_to_dsc.len(),
                spec_collect_methods(self@.id_to_dsc.skip(i as int), pairs_view(collected@))
                    == spec_collect_methods(self@.id_to_dsc, Seq::empty()),
            decreases self@.id_to_dsc.len() - i,
        {
            proof {
                assert(self@.id_to_dsc.skip(i as int)[0] == self@.id_to_dsc[i as int]);
                assert(self@.id_to_dsc.skip(i as int).drop_first() =~= self@.id_to_dsc.skip(
                    i + 1,
                ));
            }
            let ware = &self.id_to_dsc[i].1;
            let ghost inner_start = pairs_view(collected@);
            proof {
                assert(ware@.production_methods.skip(0) =~= ware@.production_methods);
            }
            let mut k: usize = 0;
            while k < ware.production_methods.len()
                invariant
                    methods_ids_parse(self@.id_to_dsc),
                    0 <= i < self@.id_to_dsc.len(),
                    0 <= k <= ware@.production_methods.len(),
                    *ware == self.id_to_dsc[i as int].1,
                    ware@ == self@.id_to_dsc[i as int].1,
                    spec_collect_from_methods(
                        ware@.production_methods.skip(k as int),
                        pairs_view(collected@),
                    ) == spec_collect_from_methods(ware@.production_methods, inner_start),
                decreases ware@.production_methods.len() - k,
            {
                proof {
                    assert(ware@.production_methods.skip(k as int)[0]
                        == ware@.production_methods[k as int]);
                    assert(ware@.production_methods.skip(k as int).drop_first()
                        =~= ware@.production_methods.skip(k + 1));
                }
                let name = &ware.production_methods[k].0;
                if !assoc_contains_key(&collected, name) {
                    let idc = str_to_chars(
                        ware.production_methods[k].1.translation.id.as_str(),
                    );
                    let id: u32 = match parse_u32(&idc) {
                        Some(v) => v,
                        None => 0,
                    };
                    proof {
                        assert(spec_parse_u32(
                            self@.id_to_dsc[i as int].1.production_methods[k as int]
                                .1.translation.id,
                        ) is Some);
                    }
                    let ghost old_collected = collected@;
                    collected.push((name.clone(), id));
                    proof {
                        assert(pairs_view(collected@) =~= pairs_view(old_collected).push(
                            (collected@.last().0@, collected@.last().1),
                        ));
                    }
                }
                k = k + 1;
            }
            i = i + 1;
        }
        // Stable insertion sort by the numeric key.
        let mut sorted: Vec<(String, u32)> = Vec::new();
        proof {
            assert(pairs_view(sorted@) =~= Seq::<(Seq<char>, u32)>::empty());
            assert(pairs_view(collected@).skip(0) =~= pairs_view(collected@));
        }
        let mut j: usize = 0;
        while j < collected.len()
            invariant
                0 <= j <= collected@.len(),
                spec_sort_by_id(
                    pairs_view(collected@).skip(j as int),
                    pairs_view(sorted@),
                ) == spec_sort_by_id(pairs_view(collected@), Seq::empty()),
            decreases collected@.len() - j,
        {
            proof {
                assert(pairs_view(collected@).skip(j as int)[0] == pairs_view(collected@)[
                    j as int]);
                assert(pairs_view(collected@).skip(j as int).drop_first() =~= pairs_view(
                    collected@,
                ).skip(j + 1));
            }
            let x_key = collected[j].1;
            let mut pos: usize = 0;
            while pos < sorted.len() && sorted[pos].1 <= x_key
                invariant
                    0 <= pos <= sorted@.len(),
                    forall|m: int|
                        0 <= m < pos ==> (#[trigger] pairs_view(sorted@)[m]).1 <= x_key,
                decreases sorted@.len() - pos,
            {
                proof {
                    assert(pairs_view(sorted@)[pos as int].1 == sorted@[pos as int].1);
                }
                pos = pos + 1;
            }
            let ghost old_sorted = pairs_view(sorted@);
            let x = (collected[j].0.clone(), collected[j].1);
            sorted.insert(pos, x);
            proof {
                assert(pairs_view(sorted@) =~= old_sorted.insert(
                    pos as int,
                    (collected@[j as int].0@, collected@[j as int].1),
                ));
                lemma_insert_sorted_at(
                    old_sorted,
                    (collected@[j as int].0@, collected@[j as int].1),
                    pos as int,
                );
                assert(old_sorted.insert(
                    pos as int,
                    (collected@[j as int].0@, collected@[j as int].1),
                ) =~= old_sorted.subrange(0, pos as int) + seq![
                    (collected@[j as int].0@, collected@[j as int].1),
                ] + old_sorted.subrange(pos as int, old_sorted.len() as int));
                assert(pairs_view(collected@)[j as int] == (
                    collected@[j as int].0@,
                    collected@[j as int].1,
                ));
            }
            j = j + 1;
        }
        let mut r: Vec<String> = Vec::new();
        proof {
            assert(strings_view(r@) =~= Seq::<Seq<char>>::empty());
        }
        let mut m: usize = 0;
        while m < sorted.len()
            invariant
                0 <= m <= sorted@.len(),
                r@.len() == m,
                forall|t: int| 0 <= t < m ==> (#[trigger] r@[t])@ == sorted@[t].0@,
            decreases sorted@.len() - m,
        {
            r.push(sorted[m].0.clone());
            m = m + 1;
        }
        proof {
            assert(strings_view(r@) =~= spec_gen_methods_list(self@.id_to_dsc));
        }
        r
    }
}


/// Bounds that every loaded production method satisfies: a positive cycle no
/// longer than the largest representable duration, a positive per-cycle
/// output that fits 32 bits, input quantities that fit 32 bits, and a
/// translation item id that parses as a 32-bit number.
pub open spec fn method_wf(m: SingleWareProductionV) -> bool {
    &&& 1 <= m.cicle_milliseconds <= 4_294_967_295_999
    &&& 1 <= m.wares_per_cicle <= u32::MAX
    &&& forall|d: int|
        0 <= d < m.wares_dependencies.len() ==> (#[trigger] m.wares_dependencies[d]).1
            <= u32::MAX
    &&& spec_parse_u32(m.translation.id) is Some
}

pub open spec fn ware_wf(w: SingleWareV) -> bool {
    forall|k: int|
        0 <= k < w.production_methods.len() ==> (#[trigger] w.production_methods[k]).0
            == w.production_methods[k].1.method && method_wf(w.production_methods[k].1)
}

/// What every loaded catalog satisfies.
pub open spec fn wares_wf(wares: Seq<(Seq<char>, SingleWareV)>) -> bool {
    forall|i: int|
        0 <= i < wares.len() ==> (#[trigger] wares[i]).0 == wares[i].1.info.ware_id
            && ware_wf(wares[i].1)
}

/// A parsed 32-bit number never exceeds its bound.
pub proof fn lemma_parse_u32_bound(s: Seq<char>)
    requires
        spec_parse_u32(s) is Some,
    ensures
        0 <= spec_parse_u32(s)->Some_0 <= u32::MAX,
{
}

/// A parsed duration in milliseconds stays below the largest representable
/// duration.
pub proof fn lemma_parse_ms_bound(s: Seq<char>)
    requires
        spec_parse_ms(s) is Some,
    ensures
        spec_parse_ms(s)->Some_0 <= 4_294_967_295_999,
{
    let p = crate::text::first_at(s, '.', 0);
    if p != s.len() {
        let frac = s.subrange(p + 1, s.len() as int);
        crate::text::lemma_digits_value_nonneg(frac);
        crate::text::lemma_digits_value_small(frac);
        assert(crate::text::pow10(0) == 1);
        assert(crate::text::pow10(1) == 10);
        assert(crate::text::pow10(2) == 100);
        assert(crate::text::pow10(3) == 1000);
        let dv = crate::text::digits_value(frac);
        let sc = crate::text::pow10(3 - frac.len());
        assert(dv * sc <= 1000 * 100) by (nonlinear_arith)
            requires
                0 <= dv < 1000,
                0 <= sc <= 100,
        ;
    }
}

pub proof fn lemma_load_inputs_amounts(
    nodes: Seq<XmlNode>,
    acc: Seq<(Seq<char>, usize)>,
    ctx: Seq<char>,
)
    requires
        forall|d: int| 0 <= d < acc.len() ==> (#[trigger] acc[d]).1 <= u32::MAX,
        spec_load_inputs(nodes, acc, ctx) is Ok,
    ensures
        forall|d: int|
            0 <= d < spec_load_inputs(nodes, acc, ctx)->Ok_0.len() ==> (
            #[trigger] spec_load_inputs(nodes, acc, ctx)->Ok_0[d]).1 <= u32::MAX,
    decreases nodes.len(),
{
    if nodes.len() == 0 {
    } else if !nodes[0].is_element_named("ware"@) {
        lemma_load_inputs_amounts(nodes.drop_first(), acc, ctx);
    } else {
        match spec_attr(nodes[0].attrs_of(), "ware"@) {
            None => {},
            Some(key) => {
                if spec_assoc(acc, key@) is Some {
                } else {
                    match spec_attr(nodes[0].attrs_of(), "amount"@) {
                        None => {},
                        Some(am) => match spec_parse_u32(am@) {
                            None => {},
                            Some(q) => {
                                lemma_load_inputs_amounts(
                                    nodes.drop_first(),
                                    acc.push((key@, q as usize)),
                                    ctx,
                                );
                            },
                        },
                    }
                }
            },
        }
    }
}

pub proof fn lemma_load_productions_wf(
    nodes: Seq<XmlNode>,
    acc: Seq<(Seq<char>, SingleWareProductionV)>,
    ware_ctx: Seq<char>,
)
    requires
        forall|k: int|
            0 <= k < acc.len() ==> (#[trigger] acc[k]).0 == acc[k].1.method && method_wf(
                acc[k].1,
            ),
        spec_load_productions(nodes, acc, ware_ctx) is Ok,
    ensures
        forall|k: int|
            0 <= k < spec_load_productions(nodes, acc, ware_ctx)->Ok_0.len() ==> (
            #[trigger] spec_load_productions(nodes, acc, ware_ctx)->Ok_0[k]).0
                == spec_load_productions(nodes, acc, ware_ctx)->Ok_0[k].1.method
                && method_wf(spec_load_productions(nodes, acc, ware_ctx)->Ok_0[k].1),
    decreases nodes.len(),
{
    if nodes.len() == 0 {
    } else if !nodes[0].is_element_named("production"@) {
        lemma_load_productions_wf(nodes.drop_first(), acc, ware_ctx);
    } else {
        let n = nodes[0];
        match spec_attr(n.attrs_of(), "method"@) {
            None => {},
            Some(method) => {
                if spec_assoc(acc, method@) is Some {
                } else {
                    match spec_attr(n.attrs_of(), "time"@) {
                        None => {},
                        Some(t) => match spec_parse_ms(t@) {
                            None => {},
                            Some(ms) => {
                                if ms != 0 {
                                    match spec_attr(n.attrs_of(), "amount"@) {
                                        None => {},
                                        Some(am) => match spec_parse_u32(am@) {
                                            None => {},
                                            Some(q) => {
                                                if q != 0 {
                                                    lemma_parse_ms_bound(t@);
                                                    lemma_parse_u32_bound(am@);
                                                    match spec_method_inputs(n, method@) {
                                                        Err(_) => {},
                                                        Ok(deps) => {
                                                    lemma_method_inputs_amounts(
                                                        n,
                                                        method@,
                                                    );
                                                    match spec_read_translation(
                                                        n,
                                                        true,
                                                        method@,
                                                    ) {
                                                        Err(_) => {},
                                                        Ok(o) => {
                                                            lemma_load_productions_wf(
                                                                nodes.drop_first(),
                                                                acc.push(
                                                                    (
                                                                        method@,
                                                                        SingleWareProductionV {
                                                                            method: method@,
                                                                            cicle_milliseconds:
                                                                                ms,
                                                                            wares_per_cicle:
                                                                                q as usize,
                                                                            wares_dependencies:
                                                                                deps,
                                                                            translation:
                                                                                o->Some_0,
                                                                        },
                                                                    ),
                                                                ),
                                                                ware_ctx,
                                                            );
                                                        },
                                                    }
                                                        },
                                                    }
                                                }
                                            },
                                        },
                                    }
                                }
                            },
                        },
                    }
                }
            },
        }
    }
}

pub proof fn lemma_method_inputs_amounts(n: XmlNode, ctx: Seq<char>)
    requires
        spec_method_inputs(n, ctx) is Ok,
    ensures
        forall|d: int|
            0 <= d < spec_method_inputs(n, ctx)->Ok_0.len() ==> (
            #[trigger] spec_method_inputs(n, ctx)->Ok_0[d]).1 <= u32::MAX,
{
    match spec_find_child_tag(n.children_of(), "primary"@) {
        None => {},
        Some(prim) => {
            if spec_load_inputs(prim.children_of(), Seq::empty(), ctx) is Ok {
                lemma_load_inputs_amounts(prim.children_of(), Seq::empty(), ctx);
            }
        },
    }
}

pub proof fn lemma_load_wares_wf(nodes: Seq<XmlNode>, acc: Seq<(Seq<char>, SingleWareV)>)
    requires
        wares_wf(acc),
        spec_load_wares(nodes, acc) is Ok,
    ensures
        wares_wf(spec_load_wares(nodes, acc)->Ok_0),
    decreases nodes.len(),
{
    if nodes.len() == 0 {
    } else if !nodes[0].is_element_named("ware"@) {
        lemma_load_wares_wf(nodes.drop_first(), acc);
    } else {
        let n = nodes[0];
        if spec_load_wares(nodes, acc) is Ok {
            let id = spec_attr(n.attrs_of(), "id"@)->Some_0;
            if spec_load_productions(n.children_of(), Seq::empty(), id@) is Ok {
                lemma_load_productions_wf(n.children_of(), Seq::empty(), id@);
            }
            match spec_attr(n.attrs_of(), "id"@) {
                None => {},
                Some(id2) => {
                    if spec_assoc(acc, id2@) is None {
                        match spec_attr(n.attrs_of(), "transport"@) {
                            None => {},
                            Some(transport) => match spec_find_child_tag(
                                n.children_of(),
                                "price"@,
                            ) {
                                None => {},
                                Some(price) => match spec_attr(price.attrs_of(), "min"@) {
                                    None => {},
                                    Some(minr) => match spec_parse_u32(minr@) {
                                        None => {},
                                        Some(price_min) => match spec_attr(
                                            price.attrs_of(),
                                            "max"@,
                                        ) {
                                            None => {},
                                            Some(maxr) => match spec_parse_u32(maxr@) {
                                                None => {},
                                                Some(price_max) => match
                                                    spec_read_translation(n, false, id2@) {
                                                    Err(_) => {},
                                                    Ok(tr) => match spec_load_productions(
                                                        n.children_of(),
                                                        Seq::empty(),
                                                        id2@,
                                                    ) {
                                                        Err(_) => {},
                                                        Ok(methods) => {
                                                            lemma_load_wares_wf(
                                                                nodes.drop_first(),
                                                                acc.push(
                                                                    (
                                                                        id2@,
                                                                        SingleWareV {
                                                                            info:
                                                                                SingleWareInfoV {
                                                                                ware_id: id2@,
                                                                                price_min,
                                                                                price_max,
                                                                                transport:
                                                                                    transport@,
                                                                            },
                                                                            production_methods:
                                                                                methods,
                                                                            translation: tr,
                                                                        },
                                                                    ),
                                                                ),
                                                            );
                                                        },
                                                    },
                                                },
                                            },
                                        },
                                    },
                                },
                            },
                        }
                    }
                },
            }
        }
    }
}

/// Every catalog the loader accepts is well-formed.
pub proof fn lemma_load_catalog_wf(root: XmlNode)
    requires
        spec_load_catalog(root) is Ok,
    ensures
        wares_wf(spec_load_catalog(root)->Ok_0.id_to_dsc),
{
    lemma_load_wares_wf(root.children_of(), Seq::empty());
}

/// The selected method is one of the ware's methods, so it inherits the
/// catalog's bounds.
pub proof fn lemma_find_desired_is_method(
    methods: Seq<(Seq<char>, SingleWareProductionV)>,
    pl: Seq<Seq<char>>,
    bl: Seq<Seq<char>>,
    ware_id: Seq<char>,
)
    requires
        spec_find_desired(methods, pl, bl, ware_id) is Ok,
    ensures
        exists|k: int|
            0 <= k < methods.len() && (#[trigger] methods[k]).1 == spec_find_desired(
                methods,
                pl,
                bl,
                ware_id,
            )->Ok_0,
{
    let m = spec_find_desired(methods, pl, bl, ware_id)->Ok_0;
    match spec_priority_pick(methods, pl) {
        Some(_) => {
            lemma_priority_pick_is_method(methods, pl);
        },
        None => {
            lemma_first_unblacklisted_is_method(methods, bl);
        },
    }
}

pub proof fn lemma_priority_pick_is_method(
    methods: Seq<(Seq<char>, SingleWareProductionV)>,
    pl: Seq<Seq<char>>,
)
    requires
        spec_priority_pick(methods, pl) is Some,
    ensures
        exists|k: int|
            0 <= k < methods.len() && (#[trigger] methods[k]).1 == spec_priority_pick(
                methods,
                pl,
            )->Some_0,
    decreases pl.len(),
{
    if pl.len() > 0 {
        match spec_assoc(methods, pl[0]) {
            Some(_) => {
                lemma_assoc_is_element(methods, pl[0]);
            },
            None => {
                lemma_priority_pick_is_method(methods, pl.drop_first());
            },
        }
    }
}

pub proof fn lemma_assoc_is_element<T>(pairs: Seq<(Seq<char>, T)>, key: Seq<char>)
    requires
        spec_assoc(pairs, key) is Some,
    ensures
        exists|k: int|
            0 <= k < pairs.len() && (#[trigger] pairs[k]).1 == spec_assoc(pairs, key)->Some_0
                && pairs[k].0 == key,
    decreases pairs.len(),
{
    if pairs.len() > 0 {
        if pairs[0].0 == key {
            assert(pairs[0].1 == spec_assoc(pairs, key)->Some_0 && pairs[0].0 == key);
        } else {
            lemma_assoc_is_element(pairs.drop_first(), key);
            let k = choose|k: int|
                0 <= k < pairs.drop_first().len() && (#[trigger] pairs.drop_first()[k]).1
                    == spec_assoc(pairs.drop_first(), key)->Some_0 && pairs.drop_first()[
                k].0 == key;
            assert(pairs[k + 1].1 == spec_assoc(pairs, key)->Some_0 && pairs[k + 1].0
                == key);
        }
    }
}

pub proof fn lemma_first_unblacklisted_is_method(
    methods: Seq<(Seq<char>, SingleWareProductionV)>,
    bl: Seq<Seq<char>>,
)
    requires
        spec_first_unblacklisted(methods, bl) is Some,
    ensures
        exists|k: int|
            0 <= k < methods.len() && (#[trigger] methods[k]).1 == spec_first_unblacklisted(
                methods,
                bl,
            )->Some_0,
    decreases methods.len(),
{
    if methods.len() > 0 {
        if !bl.contains(methods[0].0) {
            assert(methods[0].1 == spec_first_unblacklisted(methods, bl)->Some_0);
        } else {
            lemma_first_unblacklisted_is_method(methods.drop_first(), bl);
            let k = choose|k: int|
                0 <= k < methods.drop_first().len() && (#[trigger] methods.drop_first()[
                k]).1 == spec_first_unblacklisted(methods.drop_first(), bl)->Some_0;
            assert(methods[k + 1].1 == spec_first_unblacklisted(methods, bl)->Some_0);
        }
    }
}


/// Ware ids of the catalog are pairwise distinct.
pub open spec fn wares_ids_unique(wares: Seq<(Seq<char>, SingleWareV)>) -> bool {
    forall|i: int, j: int|
        0 <= i < j < wares.len() ==> (#[trigger] wares[i]).0 != (#[trigger] wares[j]).0
}

pub proof fn lemma_assoc_none_means_absent<T>(pairs: Seq<(Seq<char>, T)>, key: Seq<char>)
    requires
        spec_assoc(pairs, key) is None,
    ensures
        forall|i: int| 0 <= i < pairs.len() ==> (#[trigger] pairs[i]).0 != key,
    decreases pairs.len(),
{
    if pairs.len() > 0 {
        lemma_assoc_none_means_absent(pairs.drop_first(), key);
        assert(forall|i: int|
            1 <= i < pairs.len() ==> (#[trigger] pairs[i]) == pairs.drop_first()[i - 1]);
    }
}

pub proof fn lemma_load_wares_unique(nodes: Seq<XmlNode>, acc: Seq<(Seq<char>, SingleWareV)>)
    requires
        wares_ids_unique(acc),
        spec_load_wares(nodes, acc) is Ok,
    ensures
        wares_ids_unique(spec_load_wares(nodes, acc)->Ok_0),
    decreases nodes.len(),
{
    if nodes.len() == 0 {
    } else if !nodes[0].is_element_named("ware"@) {
        lemma_load_wares_unique(nodes.drop_first(), acc);
    } else {
        let n = nodes[0];
        match spec_attr(n.attrs_of(), "id"@) {
            None => {},
            Some(id) => {
                if spec_assoc(acc, id@) is None {
                    match spec_attr(n.attrs_of(), "transport"@) {
                        None => {},
                        Some(transport) => match spec_find_child_tag(
                            n.children_of(),
                            "price"@,
                        ) {
                            None => {},
                            Some(price) => match spec_attr(price.attrs_of(), "min"@) {
                                None => {},
                                Some(minr) => match spec_parse_u32(minr@) {
                                    None => {},
                                    Some(price_min) => match spec_attr(
                                        price.attrs_of(),
                                        "max"@,
                                    ) {
                                        None => {},
                                        Some(maxr) => match spec_parse_u32(maxr@) {
                                            None => {},
                                            Some(price_max) => match spec_read_translation(
                                                n,
                                                false,
                                                id@,
                                            ) {
                                                Err(_) => {},
                                                Ok(tr) => match spec_load_productions(
                                                    n.children_of(),
                                                    Seq::empty(),
                                                    id@,
                                                ) {
                                                    Err(_) => {},
                                                    Ok(methods) => {
                                                        lemma_assoc_none_means_absent(
                                                            acc,
                                                            id@,
                                                        );
                                                        let pushed = acc.push(
                                                            (
                                                                id@,
                                                                SingleWareV {
                                                                    info: SingleWareInfoV {
                                                                        ware_id: id@,
                                                                        price_min,
                                                                        price_max,
                                                                        transport: transport@,
                                                                    },
                                                                    production_methods:
                                                                        methods,
                                                                    translation: tr,
                                                                },
                                                            ),
                                                        );
                                                        assert(wares_ids_unique(pushed));
                                                        lemma_load_wares_unique(
                                                            nodes.drop_first(),
                                                            pushed,
                                                        );
                                                    },
                                                },
                                            },
                                        },
                                    },
                                },
                            },
                        },
                    }
                }
            },
        }
    }
}

/// Every catalog the loader accepts has pairwise distinct ware ids.
pub proof fn lemma_load_catalog_unique(root: XmlNode)
    requires
        spec_load_catalog(root) is Ok,
    ensures
        wares_ids_unique(spec_load_catalog(root)->Ok_0.id_to_dsc),
{
    lemma_load_wares_unique(root.children_of(), Seq::empty());
}

} // verus!
