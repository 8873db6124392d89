//! The translation table: canonical language code to item id to localized
//! text, cross-referencing the catalog's locators against the translation
//! sub-documents.
//!
//! Cell text is post-processed: at most one leading parenthetical annotation
//! is stripped, and every `{page,item}` reference is replaced by the
//! recursively resolved text of that cell. A reference that cannot be
//! resolved, or a reference chain deeper than the fixed bound (which only a
//! cycle in the source data can produce), discards the whole text:
//! translations are complete or absent, never partially substituted.

use vstd::prelude::*;
use crate::catalog::{TranslationPos, Wares};
use crate::text::{
    chars_to_string, copy_range, spec_trimmed, str_to_chars, trim, first_at, is_digit,
    lemma_first_at_props,
};
use crate::xml::{XmlNode, get_attr, spec_attr};

verus! {

/// How deep a chain of `{page,item}` references may reach before it is
/// treated as unresolvable.
pub const TRANSLATION_DEPTH_LIMIT: u64 = 32;

/// The text roxmltree reports for an element: the text of its first child,
/// when that child is a text node.
pub open spec fn spec_first_text(n: XmlNode) -> Option<Seq<char>> {
    if n.children_of().len() > 0 && n.children_of()[0] is Text {
        Some(n.children_of()[0]->Text_text@)
    } else {
        None
    }
}

fn first_text(n: &XmlNode) -> (r: Option<String>)
    ensures
        match r {
            Some(t) => spec_first_text(*n) == Some(t@),
            None => spec_first_text(*n) is None,
        },
{
    match n {
        XmlNode::Element { children, .. } => {
            if children.len() > 0 {
                match &children[0] {
                    XmlNode::Text { text } => Some(text.clone()),
                    _ => None,
                }
            } else {
                None
            }
        },
        _ => None,
    }
}

/// A character of the leading parenthetical annotation: an ASCII word
/// character, a space, a hyphen or an underscore.
pub open spec fn is_paren_char(c: char) -> bool {
    ('a' <= c && c <= 'z') || ('A' <= c && c <= 'Z') || ('0' <= c && c <= '9') || c == '_'
        || c == ' ' || c == '-'
}

fn char_is_paren(c: char) -> (b: bool)
    ensures
        b == is_paren_char(c),
{
    ('a' <= c && c <= 'z') || ('A' <= c && c <= 'Z') || ('0' <= c && c <= '9') || c == '_'
        || c == ' ' || c == '-'
}

/// Strips at most one leading parenthetical annotation: an opening
/// parenthesis at the very start, one or more annotation characters, and the
/// first closing parenthesis.
pub open spec fn spec_strip_paren(s: Seq<char>) -> Seq<char> {
    let e = first_at(s, ')', 0);
    if s.len() >= 3 && s[0] == '(' && e < s.len() && e >= 2 && (forall|j: int|
        1 <= j < e ==> is_paren_char(#[trigger] s[j])) {
        s.subrange(e + 1, s.len() as int)
    } else {
        s
    }
}

fn strip_paren(v: &Vec<char>) -> (r: Vec<char>)
    ensures
        r@ == spec_strip_paren(v@),
{
    proof {
        lemma_first_at_props(v@, ')', 0);
    }
    if v.len() < 3 || !(v[0] == '(') {
        return copy_whole(v);
    }
    let e = crate::text::find_char(v, ')');
    if e == v.len() || e < 2 {
        return copy_whole(v);
    }
    let mut j: usize = 1;
    while j < e
        invariant
            1 <= j <= e < v@.len(),
            3 <= v@.len(),
            v@[0] == '(',
            2 <= e,
            e == first_at(v@, ')', 0),
            forall|m: int| 1 <= m < j ==> is_paren_char(#[trigger] v@[m]),
        decreases e - j,
    {
        if !char_is_paren(v[j]) {
            return copy_whole(v);
        }
        j = j + 1;
    }
    copy_range(v, e + 1, v.len())
}

fn copy_whole(v: &Vec<char>) -> (r: Vec<char>)
    ensures
        r@ == v@,
{
    let r = copy_range(v, 0, v.len());
    proof {
        assert(v@.subrange(0, v@.len() as int) =~= v@);
    }
    r
}

/// The length of the digit run starting at `i`.
pub open spec fn spec_digit_run(s: Seq<char>, i: int) -> int
    decreases s.len() - i,
{
    if i < 0 || i >= s.len() || !is_digit(s[i]) {
        0
    } else {
        1 + spec_digit_run(s, i + 1)
    }
}

fn digit_run(v: &Vec<char>, i: usize) -> (r: usize)
    requires
        i <= v@.len(),
    ensures
        i + spec_digit_run(v@, i as int) == r,
        i <= r <= v@.len(),
{
    let mut p: usize = i;
    while p < v.len() && '0' <= v[p] && v[p] <= '9'
        invariant
            i <= p <= v@.len(),
            spec_digit_run(v@, i as int) == p - i + spec_digit_run(v@, p as int),
        decreases v@.len() - p,
    {
        p = p + 1;
    }
    p
}

/// A `{page,item}` reference starting exactly at `i`: the page digits, the
/// item digits and the position one past the closing brace.
pub open spec fn spec_ref_at(s: Seq<char>, i: int) -> Option<(Seq<char>, Seq<char>, int)> {
    let pstart = i + 1;
    let pend = pstart + spec_digit_run(s, pstart);
    let istart = pend + 1 + spec_space_run_from(s, pend + 1);
    let iend = istart + spec_digit_run(s, istart);
    if 0 <= i && i < s.len() && s[i] == '{' && pend > pstart && pend < s.len() && s[pend]
        == ',' && iend > istart && iend < s.len() && s[iend] == '}' {
        Some((s.subrange(pstart, pend), s.subrange(istart, iend), iend + 1))
    } else {
        None
    }
}

/// The length of the ASCII-whitespace run starting at `i`.
pub open spec fn spec_space_run_from(s: Seq<char>, i: int) -> int
    decreases s.len() - i,
{
    if i < 0 || i >= s.len() || !crate::catalog::is_ascii_space(s[i]) {
        0
    } else {
        1 + spec_space_run_from(s, i + 1)
    }
}

fn space_run_from(v: &Vec<char>, i: usize) -> (r: usize)
    requires
        i <= v@.len(),
    ensures
        i + spec_space_run_from(v@, i as int) == r,
        i <= r <= v@.len(),
{
    let mut p: usize = i;
    while p < v.len() && (v[p] == ' ' || v[p] == '\t' || v[p] == '\n' || v[p] == '\r' || v[p]
        == '\u{b}' || v[p] == '\u{c}')
        invariant
            i <= p <= v@.len(),
            spec_space_run_from(v@, i as int) == p - i + spec_space_run_from(v@, p as int),
        decreases v@.len() - p,
    {
        p = p + 1;
    }
    p
}

/// Parses a reference at position `i`.
fn ref_at(v: &Vec<char>, i: usize) -> (r: Option<(Vec<char>, Vec<char>, usize)>)
    requires
        i < v@.len(),
    ensures
        match r {
            Some((page, item, end)) => spec_ref_at(v@, i as int) == Some(
                (page@, item@, end as int),
            ) && i < end <= v@.len(),
            None => spec_ref_at(v@, i as int) is None,
        },
{
    let n = v.len();
    if !(v[i] == '{') {
        return None;
    }
    let pstart = i + 1;
    let pend = digit_run(v, pstart);
    if pend == pstart || pend >= v.len() || !(v[pend] == ',') {
        return None;
    }
    let istart = space_run_from(v, pend + 1);
    let iend = digit_run(v, istart);
    if iend == istart || iend >= v.len() || !(v[iend] == '}') {
        return None;
    }
    let page = copy_range(v, pstart, pend);
    let item = copy_range(v, istart, iend);
    Some((page, item, iend + 1))
}

/// The first `page` child with the given id, then its first `t` child with
/// the given id.
pub open spec fn spec_find_elem_with_id(
    children: Seq<XmlNode>,
    tag: Seq<char>,
    idval: Seq<char>,
) -> Option<XmlNode>
    decreases children.len(),
{
    if children.len() == 0 {
        None
    } else if children[0].is_element_named(tag) && (spec_attr(children[0].attrs_of(), "id"@)
        matches Some(a) && a@ == idval) {
        Some(children[0])
    } else {
        spec_find_elem_with_id(children.drop_first(), tag, idval)
    }
}

fn find_elem_with_id<'a>(n: &'a XmlNode, tag: &str, idval: &Vec<char>) -> (r: Option<
    &'a XmlNode,
>)
    ensures
        match r {
            Some(c) => spec_find_elem_with_id(n.children_of(), tag@, idval@) == Some(*c),
            None => spec_find_elem_with_id(n.children_of(), tag@, idval@) is None,
        },
{
    let tag_string: String = tag.to_owned();
    let id_key: String = "id".to_owned();
    let idv = chars_to_string(idval);
    match n {
        XmlNode::Element { children, .. } => {
            proof {
                assert(children@.skip(0) =~= children@);
            }
            let mut i: usize = 0;
            while i < children.len()
                invariant
                    n.children_of() == children@,
                    0 <= i <= children@.len(),
                    tag_string@ == tag@,
                    idv@ == idval@,
                    id_key@ == "id"@,
                    spec_find_elem_with_id(children@, tag@, idval@) == spec_find_elem_with_id(
                        children@.skip(i as int),
                        tag@,
                        idval@,
                    ),
                decreases children@.len() - i,
            {
                proof {
                    assert(children@.skip(i as int)[0] == children@[i as int]);
                    assert(children@.skip(i as int).drop_first() =~= children@.skip(i + 1));
                }
                let is_named = match &children[i] {
                    XmlNode::Element { tag: t, .. } => *t == tag_string,
                    _ => false,
                };
                if is_named {
                    let matches_id = match get_attr(&children[i], &id_key) {
                        Some(a) => a == idv,
                        None => false,
                    };
                    if matches_id {
                        return Some(&children[i]);
                    }
                }
                i = i + 1;
            }
            None
        },
        _ => None,
    }
}

/// The `t` cell a reference points at, if any.
pub open spec fn spec_find_page_item(
    xml: XmlNode,
    page: Seq<char>,
    item: Seq<char>,
) -> Option<XmlNode> {
    match spec_find_elem_with_id(xml.children_of(), "page"@, page) {
        None => None,
        Some(p) => spec_find_elem_with_id(p.children_of(), "t"@, item),
    }
}

fn find_page_item<'a>(xml: &'a XmlNode, page: &Vec<char>, item: &Vec<char>) -> (r: Option<
    &'a XmlNode,
>)
    ensures
        match r {
            Some(c) => spec_find_page_item(*xml, page@, item@) == Some(*c),
            None => spec_find_page_item(*xml, page@, item@) is None,
        },
{
    match find_elem_with_id(xml, "page", page) {
        None => None,
        Some(p) => find_elem_with_id(p, "t", item),
    }
}

/// The resolved text of one cell: the cell's own text, trimmed, with one
/// leading parenthetical stripped, and every reference substituted by the
/// recursively resolved text of the referenced cell; absent when the cell
/// has no text, a reference points nowhere, or the chain exceeds `depth`.
pub open spec fn spec_read_tr_value(xml: XmlNode, node: XmlNode, depth: nat) -> Option<
    Seq<char>,
>
    decreases depth, 1nat, 0nat,
{
    match spec_first_text(node) {
        None => None,
        Some(text) => spec_subst(xml, spec_strip_paren(spec_trimmed(text)), 0, depth),
    }
}

/// Substitution from position `i` on: characters are copied until a
/// reference pattern begins, each reference is replaced by its resolved
/// text, and any failure discards the whole result.
pub open spec fn spec_subst(xml: XmlNode, s: Seq<char>, i: int, depth: nat) -> Option<
    Seq<char>,
>
    decreases depth, 0nat, s.len() - i,
{
    if i < 0 || i >= s.len() {
        Some(Seq::empty())
    } else {
        match spec_ref_at(s, i) {
            Some((page, item, end)) => {
                if end <= i {
                    None
                } else {
                    match spec_find_page_item(xml, page, item) {
                        None => None,
                        Some(tnode) => {
                            if depth == 0 {
                                None
                            } else {
                                match spec_read_tr_value(xml, tnode, (depth - 1) as nat) {
                                    None => None,
                                    Some(rep) => match spec_subst(xml, s, end, depth) {
                                        None => None,
                                        Some(rest) => Some(rep + rest),
                                    },
                                }
                            }
                        },
                    }
                }
            },
            None => match spec_subst(xml, s, i + 1, depth) {
                None => None,
                Some(rest) => Some(seq![s[i]] + rest),
            },
        }
    }
}

/// Resolves one cell's text against its language document.
pub fn read_translation_value(xml: &XmlNode, node: &XmlNode, depth: u64) -> (r: Option<
    String,
>)
    ensures
        match r {
            Some(t) => spec_read_tr_value(*xml, *node, depth as nat) == Some(t@),
            None => spec_read_tr_value(*xml, *node, depth as nat) is None,
        },
    decreases depth, 1nat,
{
    let text = match first_text(node) {
        Some(t) => t,
        None => {
            return None;
        },
    };
    let chars = str_to_chars(text.as_str());
    let trimmed = trim(&chars);
    let stripped = strip_paren(&trimmed);
    match subst(xml, &stripped, depth) {
        Some(out) => Some(chars_to_string(&out)),
        None => None,
    }
}

/// Substitutes every reference in `s`, or reports failure.
fn subst(xml: &XmlNode, s: &Vec<char>, depth: u64) -> (r: Option<Vec<char>>)
    ensures
        match r {
            Some(out) => spec_subst(*xml, s@, 0, depth as nat) == Some(out@),
            None => spec_subst(*xml, s@, 0, depth as nat) is None,
        },
    decreases depth, 0nat,
{
    let mut out: Vec<char> = Vec::new();
    let mut i: usize = 0;
    proof {
        assert(out@ =~= Seq::<char>::empty());
    }
    while i < s.len()
        invariant
            0 <= i <= s@.len(),
            match spec_subst(*xml, s@, i as int, depth as nat) {
                Some(rest) => spec_subst(*xml, s@, 0, depth as nat) == Some(out@ + rest),
                None => spec_subst(*xml, s@, 0, depth as nat) is None,
            },
        decreases s@.len() - i,
    {
        match ref_at(s, i) {
            Some((page, item, end)) => {
                let tnode = match find_page_item(xml, &page, &item) {
                    Some(t) => t,
                    None => {
                        return None;
                    },
                };
                if depth == 0 {
                    return None;
                }
                let rep = match read_translation_value(xml, tnode, depth - 1) {
                    Some(rp) => rp,
                    None => {
                        return None;
                    },
                };
                let rep_chars = str_to_chars(rep.as_str());
                let ghost pre_out = out@;
                let mut t: usize = 0;
                while t < rep_chars.len()
                    invariant
                        0 <= t <= rep_chars@.len(),
                        out@ == pre_out + rep_chars@.subrange(0, t as int),
                    decreases rep_chars@.len() - t,
                {
                    out.push(rep_chars[t]);
                    proof {
                        assert(out@ =~= pre_out + rep_chars@.subrange(0, t + 1));
                    }
                    t = t + 1;
                }
                proof {
                    assert(rep_chars@.subrange(0, rep_chars@.len() as int) =~= rep_chars@);
                    assert(out@ =~= pre_out + rep_chars@);
                    match spec_subst(*xml, s@, end as int, depth as nat) {
                        Some(rest) => {
                            assert((pre_out + rep_chars@) + rest =~= pre_out + (rep_chars@
                                + rest));
                        },
                        None => {},
                    }
                }
                i = end;
            },
            None => {
                let ghost pre_out = out@;
                out.push(s[i]);
                proof {
                    assert(out@ =~= pre_out + seq![s@[i as int]]);
                    match spec_subst(*xml, s@, i + 1, depth as nat) {
                        Some(rest) => {
                            assert((pre_out + seq![s@[i as int]]) + rest =~= pre_out + (seq![
                                s@[i as int],
                            ] + rest));
                        },
                        None => {},
                    }
                }
                i = i + 1;
            },
        }
    }
    proof {
        assert(out@ + Seq::<char>::empty() =~= out@);
    }
    Some(out)
}


/// The translation table: language code to item id to localized text, plus
/// the currently desired display language.
#[derive(Debug, Clone)]
pub struct Translations {
    pub desired_unicode_id: String,
    pub unicode_id_to_item_id_to_translation: Vec<(String, Vec<(String, String)>)>,
}

/// View of one language's item map.
pub open spec fn items_view(v: Seq<(String, String)>) -> Seq<(Seq<char>, Seq<char>)> {
    v.map_values(|p: (String, String)| (p.0@, p.1@))
}

/// View of the whole table.
pub open spec fn table_view(v: Seq<(String, Vec<(String, String)>)>) -> Seq<
    (Seq<char>, Seq<(Seq<char>, Seq<char>)>),
> {
    v.map_values(|p: (String, Vec<(String, String)>)| (p.0@, items_view(p.1@)))
}

pub struct TranslationsV {
    pub desired_unicode_id: Seq<char>,
    pub table: Seq<(Seq<char>, Seq<(Seq<char>, Seq<char>)>)>,
}

impl View for Translations {
    type V = TranslationsV;

    open spec fn view(&self) -> TranslationsV {
        TranslationsV {
            desired_unicode_id: self.desired_unicode_id@,
            table: table_view(self.unicode_id_to_item_id_to_translation@),
        }
    }
}

/// The first language binding for a code.
pub open spec fn spec_table_lang(
    table: Seq<(Seq<char>, Seq<(Seq<char>, Seq<char>)>)>,
    code: Seq<char>,
) -> Option<Seq<(Seq<char>, Seq<char>)>>
    decreases table.len(),
{
    if table.len() == 0 {
        None
    } else if table[0].0 == code {
        Some(table[0].1)
    } else {
        spec_table_lang(table.drop_first(), code)
    }
}

/// The first text bound to an item id within one language.
pub open spec fn spec_items_get(
    items: Seq<(Seq<char>, Seq<char>)>,
    item: Seq<char>,
) -> Option<Seq<char>>
    decreases items.len(),
{
    if items.len() == 0 {
        None
    } else if items[0].0 == item {
        Some(items[0].1)
    } else {
        spec_items_get(items.drop_first(), item)
    }
}

/// A lookup in the desired language, falling back to the fixed default
/// language when the desired one has no entry for the item.
pub open spec fn spec_tr_get(t: TranslationsV, item: Seq<char>) -> Option<Seq<char>> {
    let first = match spec_table_lang(t.table, t.desired_unicode_id) {
        Some(items) => spec_items_get(items, item),
        None => None,
    };
    match first {
        Some(x) => Some(x),
        None => match spec_table_lang(t.table, "en"@) {
            Some(items) => spec_items_get(items, item),
            None => None,
        },
    }
}

impl Translations {
    /// Selects the desired display language.
    pub fn set_desired_unicode_id(&mut self, desired_unicode_id: String)
        ensures
            final(self)@.desired_unicode_id == desired_unicode_id@,
            final(self)@.table == old(self)@.table,
    {
        self.desired_unicode_id = desired_unicode_id;
    }

    /// Looks an item's localized text up, with the default-language
    /// fallback.
    pub fn get(&self, item_id: &String) -> (r: Option<String>)
        ensures
            match r {
                Some(t) => spec_tr_get(self@, item_id@) == Some(t@),
                None => spec_tr_get(self@, item_id@) is None,
            },
    {
        match self.get_in_lang(&self.desired_unicode_id, item_id) {
            Some(t) => Some(t),
            None => {
                let en: String = "en".to_owned();
                self.get_in_lang(&en, item_id)
            },
        }
    }

    fn get_in_lang(&self, code: &String, item_id: &String) -> (r: Option<String>)
        ensures
            ({
                let spec_r = match spec_table_lang(self@.table, code@) {
                    Some(items) => spec_items_get(items, item_id@),
                    None => None,
                };
                match r {
                    Some(t) => spec_r == Some(t@),
                    None => spec_r is None,
                }
            }),
    {
        let table = &self.unicode_id_to_item_id_to_translation;
        proof {
            assert(table_view(table@).skip(0) =~= table_view(table@));
        }
        let mut i: usize = 0;
        while i < table.len()
            invariant
                table == &self.unicode_id_to_item_id_to_translation,
                0 <= i <= table@.len(),
                spec_table_lang(table_view(table@), code@) == spec_table_lang(
                    table_view(table@).skip(i as int),
                    code@,
                ),
            decreases table@.len() - i,
        {
            proof {
                assert(table_view(table@).skip(i as int)[0] == table_view(table@)[i as int]);
                assert(table_view(table@).skip(i as int).drop_first() =~= table_view(
                    table@,
                ).skip(i + 1));
            }
            if table[i].0 == *code {
                let items = &table[i].1;
                proof {
                    assert(items_view(items@).skip(0) =~= items_view(items@));
                }
                let mut k: usize = 0;
                while k < items.len()
                    invariant
                        items == &self.unicode_id_to_item_id_to_translation@[i as int].1,
                        spec_table_lang(self@.table, code@) == Some(items_view(items@)),
                        0 <= k <= items@.len(),
                        spec_items_get(items_view(items@), item_id@) == spec_items_get(
                            items_view(items@).skip(k as int),
                            item_id@,
                        ),
                    decreases items@.len() - k,
                {
                    proof {
                        assert(items_view(items@).skip(k as int)[0] == items_view(items@)[
                            k as int]);
                        assert(items_view(items@).skip(k as int).drop_first() =~= items_view(
                            items@,
                        ).skip(k + 1));
                    }
                    if items[k].0 == *item_id {
                        return Some(items[k].1.clone());
                    }
                    k = k + 1;
                }
                return None;
            }
            i = i + 1;
        }
        None
    }

    /// Replaces the string with its localized text when one exists.
    pub fn replace_if_exists(&self, item_id: &mut String) -> (r: bool)
        ensures
            match spec_tr_get(self@, old(item_id)@) {
                Some(t) => r == true && final(item_id)@ == t,
                None => r == false && final(item_id)@ == old(item_id)@,
            },
    {
        match self.get(item_id) {
            Some(translation) => {
                *item_id = translation;
                true
            },
            None => false,
        }
    }
}


/// One item-collection step: an item already mapped is kept as is; else the
/// locator is followed and the resolved text, if any, is recorded.
pub open spec fn spec_item_step(
    lang: XmlNode,
    key: Seq<char>,
    pos: crate::catalog::TranslationPosV,
    acc: Seq<(Seq<char>, Seq<char>)>,
) -> Seq<(Seq<char>, Seq<char>)> {
    if spec_items_get(acc, key) is Some {
        acc
    } else {
        match spec_find_page_item(lang, pos.page, pos.id) {
            None => acc,
            Some(tnode) => match spec_read_tr_value(
                lang,
                tnode,
                TRANSLATION_DEPTH_LIMIT as nat,
            ) {
                None => acc,
                Some(text) => acc.push((key, text)),
            },
        }
    }
}

/// Collects the items of one ware's methods, in catalog order.
pub open spec fn spec_collect_methods_items(
    lang: XmlNode,
    methods: Seq<(Seq<char>, crate::catalog::SingleWareProductionV)>,
    acc: Seq<(Seq<char>, Seq<char>)>,
) -> Seq<(Seq<char>, Seq<char>)>
    decreases methods.len(),
{
    if methods.len() == 0 {
        acc
    } else {
        spec_collect_methods_items(
            lang,
            methods.drop_first(),
            spec_item_step(lang, methods[0].1.method, methods[0].1.translation, acc),
        )
    }
}

/// Collects every item of the catalog: per ware its methods first, then the
/// ware's own locator when present.
pub open spec fn spec_collect_wares_items(
    lang: XmlNode,
    wares: Seq<(Seq<char>, crate::catalog::SingleWareV)>,
    acc: Seq<(Seq<char>, Seq<char>)>,
) -> Seq<(Seq<char>, Seq<char>)>
    decreases wares.len(),
{
    if wares.len() == 0 {
        acc
    } else {
        let w = wares[0].1;
        let acc2 = spec_collect_methods_items(lang, w.production_methods, acc);
        let acc3 = match w.translation {
            Some(pos) => spec_item_step(lang, w.info.ware_id, pos, acc2),
            None => acc2,
        };
        spec_collect_wares_items(lang, wares.drop_first(), acc3)
    }
}

/// Builds the table language by language: a language whose id occurs in no
/// sub-document, or which yields no items, contributes nothing; a code seen
/// before keeps its earlier entries.
pub open spec fn spec_load_tr_langs(
    docs: Seq<XmlNode>,
    wares: Seq<(Seq<char>, crate::catalog::SingleWareV)>,
    lang_ids: Seq<(Seq<char>, Seq<char>)>,
    acc: Seq<(Seq<char>, Seq<(Seq<char>, Seq<char>)>)>,
) -> Seq<(Seq<char>, Seq<(Seq<char>, Seq<char>)>)>
    decreases lang_ids.len(),
{
    if lang_ids.len() == 0 {
        acc
    } else {
        let (code, x4id) = lang_ids[0];
        let map = match spec_find_elem_with_id(docs, "language"@, x4id) {
            None => Seq::empty(),
            Some(lang) => spec_collect_wares_items(lang, wares, Seq::empty()),
        };
        let acc2 = if map.len() > 0 && spec_table_lang(acc, code) is None {
            acc.push((code, map))
        } else {
            acc
        };
        spec_load_tr_langs(docs, wares, lang_ids.drop_first(), acc2)
    }
}

pub fn items_contains(v: &Vec<(String, String)>, key: &String) -> (b: bool)
    ensures
        b == (spec_items_get(items_view(v@), key@) is Some),
{
    proof {
        assert(items_view(v@).skip(0) =~= items_view(v@));
    }
    let mut i: usize = 0;
    while i < v.len()
        invariant
            0 <= i <= v@.len(),
            spec_items_get(items_view(v@), key@) == spec_items_get(
                items_view(v@).skip(i as int),
                key@,
            ),
        decreases v@.len() - i,
    {
        proof {
            assert(items_view(v@).skip(i as int)[0] == items_view(v@)[i as int]);
            assert(items_view(v@).skip(i as int).drop_first() =~= items_view(v@).skip(i + 1));
        }
        if v[i].0 == *key {
            return true;
        }
        i = i + 1;
    }
    false
}

fn table_contains(v: &Vec<(String, Vec<(String, String)>)>, key: &String) -> (b: bool)
    ensures
        b == (spec_table_lang(table_view(v@), key@) is Some),
{
    proof {
        assert(table_view(v@).skip(0) =~= table_view(v@));
    }
    let mut i: usize = 0;
    while i < v.len()
        invariant
            0 <= i <= v@.len(),
            spec_table_lang(table_view(v@), key@) == spec_table_lang(
                table_view(v@).skip(i as int),
                key@,
            ),
        decreases v@.len() - i,
    {
        proof {
            assert(table_view(v@).skip(i as int)[0] == table_view(v@)[i as int]);
            assert(table_view(v@).skip(i as int).drop_first() =~= table_view(v@).skip(i + 1));
        }
        if v[i].0 == *key {
            return true;
        }
        i = i + 1;
    }
    false
}

/// Follows one locator and records the resolved text, if any.
fn item_step(
    lang: &XmlNode,
    key: &String,
    pos: &TranslationPos,
    map: &mut Vec<(String, String)>,
) 
    ensures
        items_view(final(map)@) == spec_item_step(*lang, key@, pos@, items_view(old(map)@)),
{
    if items_contains(map, key) {
        return ;
    }
    let page_chars = str_to_chars(pos.page.as_str());
    let id_chars = str_to_chars(pos.id.as_str());
    let tnode = match find_page_item(lang, &page_chars, &id_chars) {
        Some(t) => t,
        None => {
            return ;
        },
    };
    match read_translation_value(lang, tnode, TRANSLATION_DEPTH_LIMIT) {
        Some(text) => {
            let ghost pre = map@;
            map.push((key.clone(), text));
            proof {
                assert(items_view(map@) =~= items_view(pre).push(
                    (map@.last().0@, map@.last().1@),
                ));
            }
        },
        None => {},
    }
}

fn find_doc_with_id<'a>(docs: &'a Vec<XmlNode>, x4id: &String) -> (r: Option<&'a XmlNode>)
    ensures
        match r {
            Some(d) => spec_find_elem_with_id(docs@, "language"@, x4id@) == Some(*d),
            None => spec_find_elem_with_id(docs@, "language"@, x4id@) is None,
        },
{
    let lang_tag: String = "language".to_owned();
    let id_key: String = "id".to_owned();
    proof {
        assert(docs@.skip(0) =~= docs@);
    }
    let mut i: usize = 0;
    while i < docs.len()
        invariant
            0 <= i <= docs@.len(),
            lang_tag@ == "language"@,
            id_key@ == "id"@,
            spec_find_elem_with_id(docs@, "language"@, x4id@) == spec_find_elem_with_id(
                docs@.skip(i as int),
                "language"@,
                x4id@,
            ),
        decreases docs@.len() - i,
    {
        proof {
            assert(docs@.skip(i as int)[0] == docs@[i as int]);
            assert(docs@.skip(i as int).drop_first() =~= docs@.skip(i + 1));
        }
        let is_named = match &docs[i] {
            XmlNode::Element { tag, .. } => *tag == lang_tag,
            _ => false,
        };
        if is_named {
            let matches_id = match get_attr(&docs[i], &id_key) {
                Some(a) => a == *x4id,
                None => false,
            };
            if matches_id {
                return Some(&docs[i]);
            }
        }
        i = i + 1;
    }
    None
}

impl Translations {
    /// Builds the table from the translation sub-documents, the catalog's
    /// locators and the language table. The desired display language starts
    /// at the fixed default.
    pub fn load_from_xml_all(
        all_xml: &Vec<XmlNode>,
        wares: &Wares,
        lang_ids: &Vec<(String, String)>,
    ) -> (r: Translations)
        ensures
            r@.desired_unicode_id == "en"@,
            r@.table == spec_load_tr_langs(
                all_xml@,
                wares@.id_to_dsc,
                crate::langs::langs_view(lang_ids@),
                Seq::empty(),
            ),
    {
        let ghost docsv = all_xml@;
        let ghost waresv = wares@.id_to_dsc;
        let ghost lv = crate::langs::langs_view(lang_ids@);
        let mut table: Vec<(String, Vec<(String, String)>)> = Vec::new();
        proof {
            assert(table_view(table@) =~= Seq::<
                (Seq<char>, Seq<(Seq<char>, Seq<char>)>),
            >::empty());
            assert(lv.skip(0) =~= lv);
        }
        let mut i: usize = 0;
        while i < lang_ids.len()
            invariant
                docsv == all_xml@,
                waresv == wares@.id_to_dsc,
                lv == crate::langs::langs_view(lang_ids@),
                0 <= i <= lang_ids@.len(),
                spec_load_tr_langs(docsv, waresv, lv.skip(i as int), table_view(table@))
                    == spec_load_tr_langs(docsv, waresv, lv, Seq::empty()),
            decreases lang_ids@.len() - i,
        {
            proof {
                assert(lv.skip(i as int)[0] == lv[i as int]);
                assert(lv.skip(i as int).drop_first() =~= lv.skip(i + 1));
            }
            let code = &lang_ids[i].0;
            let x4id = &lang_ids[i].1;
            let mut map: Vec<(String, String)> = Vec::new();
            proof {
                assert(items_view(map@) =~= Seq::<(Seq<char>, Seq<char>)>::empty());
            }
            match find_doc_with_id(all_xml, x4id) {
                None => {},
                Some(lang) => {
                    proof {
                        assert(waresv.skip(0) =~= waresv);
                    }
                    let mut j: usize = 0;
                    while j < wares.id_to_dsc.len()
                        invariant
                            waresv == wares@.id_to_dsc,
                            0 <= j <= waresv.len(),
                            spec_collect_wares_items(
                                *lang,
                                waresv.skip(j as int),
                                items_view(map@),
                            ) == spec_collect_wares_items(*lang, waresv, Seq::empty()),
                        decreases waresv.len() - j,
                    {
                        proof {
                            assert(waresv.skip(j as int)[0] == waresv[j as int]);
                            assert(waresv.skip(j as int).drop_first() =~= waresv.skip(j + 1));
                        }
                        let ware = &wares.id_to_dsc[j].1;
                        let ghost methodsv = ware@.production_methods;
                        let ghost items_start = items_view(map@);
                        proof {
                            assert(methodsv.skip(0) =~= methodsv);
                        }
                        let mut k: usize = 0;
                        while k < ware.production_methods.len()
                            invariant
                                waresv == wares@.id_to_dsc,
                                0 <= j < waresv.len(),
                                *ware == wares.id_to_dsc[j as int].1,
                                ware@ == waresv[j as int].1,
                                methodsv == ware@.production_methods,
                                0 <= k <= methodsv.len(),
                                spec_collect_methods_items(
                                    *lang,
                                    methodsv.skip(k as int),
                                    items_view(map@),
                                ) == spec_collect_methods_items(
                                    *lang,
                                    methodsv,
                                    items_start,
                                ),
                            decreases methodsv.len() - k,
                        {
                            proof {
                                assert(methodsv.skip(k as int)[0] == methodsv[k as int]);
                                assert(methodsv.skip(k as int).drop_first() =~= methodsv.skip(
                                    k + 1,
                                ));
                            }
                            let m = &ware.production_methods[k].1;
                            item_step(lang, &m.method, &m.translation, &mut map);
                            k = k + 1;
                        }
                        match &ware.translation {
                            Some(pos) => {
                                item_step(lang, &ware.info.ware_id, pos, &mut map);
                            },
                            None => {},
                        }
                        j = j + 1;
                    }
                },
            }
            if map.len() > 0 {
                if !table_contains(&table, code) {
                    let ghost pre = table@;
                    table.push((code.clone(), map));
                    proof {
                        assert(table_view(table@) =~= table_view(pre).push(
                            (table@.last().0@, items_view(table@.last().1@)),
                        ));
                    }
                }
            }
            i = i + 1;
        }
        Translations {
            desired_unicode_id: "en".to_owned(),
            unicode_id_to_item_id_to_translation: table,
        }
    }
}

} // verus!
