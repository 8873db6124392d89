//! The language table: canonical language code paired with the document's
//! internal numeric language id.
//!
//! Display-name attributes in the source are corrupted, so each language
//! element is paired with the text of the immediately preceding comment node
//! (skipping at most one intervening text node), and a fixed table maps the
//! known comment strings to canonical codes; unknown comment text passes
//! through verbatim.

use vstd::prelude::*;
use crate::errors::{DataError, DataErrorV};
use crate::text::{spec_find_at, spec_trimmed, str_to_chars, chars_to_string, trim};
use crate::xml::{XmlNode, get_attr, spec_attr, parse_xml, xml_parse_of};

verus! {

/// The canonical code for a known comment string; anything else passes
/// through unchanged. Both source variants of Chinese collapse to one code.
pub open spec fn spec_lang_code(s: Seq<char>) -> Seq<char> {
    if s == "English"@ {
        "en"@
    } else if s == "German"@ {
        "de"@
    } else if s == "French"@ {
        "fr"@
    } else if s == "Italian"@ {
        "it"@
    } else if s == "Russian"@ {
        "ru"@
    } else if s == "Spanish"@ {
        "sp"@
    } else if s == "Portuguese (Brazil)"@ {
        "pt"@
    } else if s == "Polish"@ {
        "pl"@
    } else if s == "Simplified Chinese"@ {
        "ch"@
    } else if s == "Traditional Chinese"@ {
        "ch"@
    } else if s == "Korean"@ {
        "kr"@
    } else if s == "Japanese"@ {
        "jp"@
    } else {
        s
    }
}

/// Maps a comment string to the canonical language code.
pub fn try_name_to_unicode_id(input: String) -> (r: String)
    ensures
        r@ == spec_lang_code(input@),
{
    if input == "English".to_owned() {
        "en".to_owned()
    } else if input == "German".to_owned() {
        "de".to_owned()
    } else if input == "French".to_owned() {
        "fr".to_owned()
    } else if input == "Italian".to_owned() {
        "it".to_owned()
    } else if input == "Russian".to_owned() {
        "ru".to_owned()
    } else if input == "Spanish".to_owned() {
        "sp".to_owned()
    } else if input == "Portuguese (Brazil)".to_owned() {
        "pt".to_owned()
    } else if input == "Polish".to_owned() {
        "pl".to_owned()
    } else if input == "Simplified Chinese".to_owned() {
        "ch".to_owned()
    } else if input == "Traditional Chinese".to_owned() {
        "ch".to_owned()
    } else if input == "Korean".to_owned() {
        "kr".to_owned()
    } else if input == "Japanese".to_owned() {
        "jp".to_owned()
    } else {
        input
    }
}

/// The comment/element pairs of a sibling sequence, scanning from `i`: a
/// comment pairs with an immediately following element, or with an element
/// separated from it by one text node only.
pub open spec fn spec_comment_pairs(nodes: Seq<XmlNode>, i: int) -> Seq<(Seq<char>, XmlNode)>
    decreases nodes.len() - i,
{
    if i < 0 || i >= nodes.len() {
        Seq::empty()
    } else if nodes[i] is Comment {
        if i + 1 >= nodes.len() {
            Seq::empty()
        } else if nodes[i + 1] is Element {
            seq![(nodes[i]->Comment_text@, nodes[i + 1])] + spec_comment_pairs(nodes, i + 2)
        } else if nodes[i + 1] is Text {
            if i + 2 < nodes.len() && nodes[i + 2] is Element {
                seq![(nodes[i]->Comment_text@, nodes[i + 2])] + spec_comment_pairs(
                    nodes,
                    i + 3,
                )
            } else {
                spec_comment_pairs(nodes, i + 2)
            }
        } else {
            spec_comment_pairs(nodes, i + 1)
        }
    } else {
        spec_comment_pairs(nodes, i + 1)
    }
}

/// Spec mirror of collecting the language table from comment/element pairs:
/// only `language` elements count; a repeated code is fatal except for the
/// one code both Chinese variants share, where the first occurrence is kept.
pub open spec fn spec_collect_langs(
    pairs: Seq<(Seq<char>, XmlNode)>,
    acc: Seq<(Seq<char>, Seq<char>)>,
) -> Result<Seq<(Seq<char>, Seq<char>)>, DataErrorV>
    decreases pairs.len(),
{
    if pairs.len() == 0 {
        Ok(acc)
    } else {
        let (ctext, el) = pairs[0];
        if !el.is_element_named("language"@) {
            spec_collect_langs(pairs.drop_first(), acc)
        } else {
            let key = spec_lang_code(spec_trimmed(ctext));
            if spec_assoc_chars(acc, key) is Some {
                if key != "ch"@ {
                    Err(DataErrorV::DuplicateValue(key, "language"@))
                } else {
                    spec_collect_langs(pairs.drop_first(), acc)
                }
            } else {
                match spec_attr(el.attrs_of(), "id"@) {
                    None => Err(DataErrorV::AttributeNotFound("id"@, "language"@)),
                    Some(idv) => spec_collect_langs(
                        pairs.drop_first(),
                        acc.push((key, idv@)),
                    ),
                }
            }
        }
    }
}

/// The first value bound to a key among view-level pairs.
pub open spec fn spec_assoc_chars(
    pairs: Seq<(Seq<char>, Seq<char>)>,
    key: Seq<char>,
) -> Option<Seq<char>>
    decreases pairs.len(),
{
    if pairs.len() == 0 {
        None
    } else if pairs[0].0 == key {
        Some(pairs[0].1)
    } else {
        spec_assoc_chars(pairs.drop_first(), key)
    }
}

/// View of a language table.
pub open spec fn langs_view(v: Seq<(String, String)>) -> Seq<(Seq<char>, Seq<char>)> {
    v.map_values(|p: (String, String)| (p.0@, p.1@))
}

/// Whether a code is already in the table being built.
fn langs_contains_key(v: &Vec<(String, String)>, key: &String) -> (b: bool)
    ensures
        b == (spec_assoc_chars(langs_view(v@), key@) is Some),
{
    proof {
        assert(langs_view(v@).skip(0) =~= langs_view(v@));
    }
    let mut i: usize = 0;
    while i < v.len()
        invariant
            0 <= i <= v@.len(),
            spec_assoc_chars(langs_view(v@), key@) == spec_assoc_chars(
                langs_view(v@).skip(i as int),
                key@,
            ),
        decreases v@.len() - i,
    {
        proof {
            assert(langs_view(v@).skip(i as int)[0] == langs_view(v@)[i as int]);
            assert(langs_view(v@).skip(i as int).drop_first() =~= langs_view(v@).skip(i + 1));
        }
        if v[i].0 == *key {
            return true;
        }
        i = i + 1;
    }
    false
}

/// Collects the language table from the children of one node.
pub fn collect_lang_from_pairs(parent: &XmlNode) -> (r: Result<
    Vec<(String, String)>,
    DataError,
>)
    ensures
        match r {
            Ok(v) => spec_collect_langs(
                spec_comment_pairs(parent.children_of(), 0),
                Seq::empty(),
            ) == Ok::<Seq<(Seq<char>, Seq<char>)>, DataErrorV>(langs_view(v@)),
            Err(e) => spec_collect_langs(
                spec_comment_pairs(parent.children_of(), 0),
                Seq::empty(),
            ) == Err::<Seq<(Seq<char>, Seq<char>)>, DataErrorV>(e@),
        },
{
    let mut acc: Vec<(String, String)> = Vec::new();
    proof {
        assert(langs_view(acc@) =~= Seq::<(Seq<char>, Seq<char>)>::empty());
    }
    match parent {
        XmlNode::Element { children, .. } => {
            let ghost nodes = children@;
            let mut i: usize = 0;
            while i < children.len()
                invariant
                    parent.children_of() == children@,
                    nodes == children@,
                    0 <= i <= children@.len(),
                    spec_collect_langs(spec_comment_pairs(nodes, i as int), langs_view(acc@))
                        == spec_collect_langs(
                        spec_comment_pairs(nodes, 0),
                        Seq::empty(),
                    ),
                decreases children@.len() - i,
            {
                let node = &children[i];
                let is_comment = match node {
                    XmlNode::Comment { .. } => true,
                    _ => false,
                };
                if !is_comment {
                    i = i + 1;
                    continue;
                }
                // A comment with no following node yields nothing more.
                if i + 1 >= children.len() {
                    proof {
                        assert(spec_comment_pairs(nodes, i as int) =~= Seq::<
                            (Seq<char>, XmlNode),
                        >::empty());
                    }
                    return Ok(acc);
                }
                let next_is_element = match &children[i + 1] {
                    XmlNode::Element { .. } => true,
                    _ => false,
                };
                let next_is_text = match &children[i + 1] {
                    XmlNode::Text { .. } => true,
                    _ => false,
                };
                let (el_ix, next_i): (usize, usize) = if next_is_element {
                    (i + 1, i + 2)
                } else if next_is_text {
                    if i + 2 < children.len() {
                        let nn_is_element = match &children[i + 2] {
                            XmlNode::Element { .. } => true,
                            _ => false,
                        };
                        if nn_is_element {
                            (i + 2, i + 3)
                        } else {
                            i = i + 2;
                            continue;
                        }
                    } else {
                        i = i + 2;
                        continue;
                    }
                } else {
                    i = i + 1;
                    continue;
                };
                proof {
                    let pair = (nodes[i as int]->Comment_text@, nodes[el_ix as int]);
                    let rest = spec_comment_pairs(nodes, next_i as int);
                    assert(spec_comment_pairs(nodes, i as int) =~= seq![pair] + rest);
                    assert((seq![pair] + rest)[0] == pair);
                    assert((seq![pair] + rest).drop_first() =~= rest);
                }
                let el = &children[el_ix];
                let is_language = match el {
                    XmlNode::Element { tag, .. } => *tag == "language".to_owned(),
                    _ => false,
                };
                if is_language {
                    let ctext = match node {
                        XmlNode::Comment { text } => text.clone(),
                        _ => String::new(),
                    };
                    let cchars = str_to_chars(ctext.as_str());
                    let trimmed = trim(&cchars);
                    let key = try_name_to_unicode_id(chars_to_string(&trimmed));
                    if langs_contains_key(&acc, &key) {
                        if !(key == "ch".to_owned()) {
                            return Err(
                                DataError::DuplicateValue(key, "language".to_owned()),
                            );
                        }
                    } else {
                        let id_key: String = "id".to_owned();
                        match get_attr(el, &id_key) {
                            None => {
                                return Err(
                                    DataError::AttributeNotFound(
                                        id_key,
                                        "language".to_owned(),
                                    ),
                                );
                            },
                            Some(idv) => {
                                let ghost old_acc = acc@;
                                acc.push((key, idv));
                                proof {
                                    assert(langs_view(acc@) =~= langs_view(old_acc).push(
                                        (acc@.last().0@, acc@.last().1@),
                                    ));
                                }
                            },
                        }
                    }
                }
                i = next_i;
            }
            Ok(acc)
        },
        _ => Ok(acc),
    }
}

/// Spec mirror of the recursive language-table search: the level itself is
/// tried first; a collection failure there (a duplicate code, a language
/// without an id) is fatal, while a level that merely yields no pairs sends
/// the search into each child subtree in turn, keeping the most recent
/// failure.
pub open spec fn spec_find_langs_rec(node: XmlNode) -> Result<
    Seq<(Seq<char>, Seq<char>)>,
    DataErrorV,
>
    decreases node, 1nat, 0nat,
{
    match node {
        XmlNode::Element { tag, attrs, children } => {
            let here = spec_collect_langs(spec_comment_pairs(children@, 0), Seq::empty());
            match here {
                Ok(v) => {
                    if v.len() > 0 {
                        Ok(v)
                    } else {
                        spec_find_langs_children(children@, 0, None, tag@)
                    }
                },
                Err(e) => Err(e),
            }
        },
        _ => Err(DataErrorV::NoChildren(Seq::empty())),
    }
}

pub open spec fn spec_find_langs_children(
    children: Seq<XmlNode>,
    j: int,
    prev: Option<DataErrorV>,
    ctx: Seq<char>,
) -> Result<Seq<(Seq<char>, Seq<char>)>, DataErrorV>
    decreases children, 0nat, children.len() - j,
{
    if j < 0 || j >= children.len() {
        match prev {
            Some(e) => Err(e),
            None => Err(DataErrorV::NoChildren(ctx)),
        }
    } else {
        match spec_find_langs_rec(children[j]) {
            Ok(v) => Ok(v),
            Err(e) => spec_find_langs_children(children, j + 1, Some(e), ctx),
        }
    }
}

/// Searches a subtree for the language table.
pub fn find_langs_rec(node: &XmlNode) -> (r: Result<Vec<(String, String)>, DataError>)
    ensures
        match r {
            Ok(v) => spec_find_langs_rec(*node) == Ok::<
                Seq<(Seq<char>, Seq<char>)>,
                DataErrorV,
            >(langs_view(v@)),
            Err(e) => spec_find_langs_rec(*node) == Err::<
                Seq<(Seq<char>, Seq<char>)>,
                DataErrorV,
            >(e@),
        },
    decreases *node, 0nat, 0nat,
{
    let ghost ctx = node.tag_of();
    match node {
        XmlNode::Element { tag, children, .. } => {
            match collect_lang_from_pairs(node) {
                Err(e) => {
                    return Err(e);
                },
                Ok(v) => {
                    if v.len() > 0 {
                        proof {
                            assert(node.children_of() == children@);
                            assert(spec_collect_langs(
                                spec_comment_pairs(children@, 0),
                                Seq::empty(),
                            ) == Ok::<Seq<(Seq<char>, Seq<char>)>, DataErrorV>(
                                langs_view(v@),
                            ));
                            assert(langs_view(v@).len() == v@.len());
                            assert(spec_find_langs_rec(*node) == Ok::<
                                Seq<(Seq<char>, Seq<char>)>,
                                DataErrorV,
                            >(langs_view(v@)));
                        }
                        return Ok(v);
                    }
                },
            }
            let mut prev: Option<DataError> = None;
            let mut j: usize = 0;
            while j < children.len()
                invariant
                    node.children_of() == children@,
                    ctx == node.tag_of(),
                    0 <= j <= children@.len(),
                    spec_find_langs_rec(*node) == spec_find_langs_children(
                        children@,
                        0,
                        None,
                        ctx,
                    ),
                    spec_find_langs_children(children@, 0, None, ctx)
                        == spec_find_langs_children(
                        children@,
                        j as int,
                        match prev {
                            Some(e) => Some(e@),
                            None => None,
                        },
                        ctx,
                    ),
                decreases children@.len() - j,
            {
                match find_langs_rec(&children[j]) {
                    Ok(v) => {
                        return Ok(v);
                    },
                    Err(e) => {
                        prev = Some(e);
                    },
                }
                j = j + 1;
            }
            match prev {
                Some(e) => Err(e),
                None => Err(DataError::NoChildren(tag.clone())),
            }
        },
        _ => Err(DataError::NoChildren(String::new())),
    }
}


/// The language table of the whole document: the region between the
/// `<languages>` markers, parsed, searched recursively. `Err(None)` stands
/// for a region the XML parser refuses; the exec error then carries the
/// parser's diagnostic.
pub open spec fn spec_find_langs(s: Seq<char>) -> Result<
    Seq<(Seq<char>, Seq<char>)>,
    Option<DataErrorV>,
> {
    match spec_find_at(s, "<languages>"@, 0) {
        None => Err(Some(DataErrorV::SubstrNotFound("<languages>"@))),
        Some(k1) => match spec_find_at(s, "</languages>"@, k1 + "<languages>"@.len()) {
            None => Err(Some(DataErrorV::SubstrNotFound("</languages>"@))),
            Some(k2) => {
                let slice = spec_trimmed(
                    s.subrange(k1, k2 + "</languages>"@.len()),
                );
                if slice.len() == 0 {
                    Err(Some(DataErrorV::EmptyResultForItem("languages"@)))
                } else {
                    match xml_parse_of(slice) {
                        None => Err(None),
                        Some(root) => match spec_find_langs_rec(root) {
                            Ok(v) => Ok(v),
                            Err(e) => Err(Some(e)),
                        },
                    }
                }
            },
        },
    }
}

/// Locates and loads the language table out of the raw document text.
pub fn find_langs(input: &Vec<char>, dbg_path: &String) -> (r: Result<
    Vec<(String, String)>,
    DataError,
>)
    ensures
        match r {
            Ok(v) => spec_find_langs(input@) == Ok::<
                Seq<(Seq<char>, Seq<char>)>,
                Option<DataErrorV>,
            >(langs_view(v@)),
            Err(e) => match spec_find_langs(input@) {
                Ok(_) => false,
                Err(Some(ev)) => e@ == ev,
                Err(None) => e@ matches DataErrorV::InvalidXml(o, _) && o == dbg_path@,
            },
        },
{
    proof {
        reveal_strlit("<languages>");
        reveal_strlit("</languages>");
    }
    let open_pat = str_to_chars("<languages>");
    let close_pat = str_to_chars("</languages>");
    let k1 = match crate::text::find_from(input, &open_pat, 0) {
        Some(k) => k,
        None => {
            return Err(DataError::SubstrNotFound("<languages>".to_owned()));
        },
    };
    let k2 = match crate::text::find_from(input, &close_pat, k1 + open_pat.len()) {
        Some(k) => k,
        None => {
            return Err(DataError::SubstrNotFound("</languages>".to_owned()));
        },
    };
    let raw = crate::text::copy_range(input, k1, k2 + close_pat.len());
    let slice = trim(&raw);
    if slice.len() == 0 {
        return Err(DataError::EmptyResultForItem("languages".to_owned()));
    }
    match parse_xml(&slice) {
        Err(diag) => Err(crate::xml::xml_error(dbg_path, diag)),
        Ok(root) => find_langs_rec(&root),
    }
}

} // verus!
