//! Document extraction: locating named sub-regions of a large, only
//! partially well-formed text by matched start/end markers, and parsing each
//! located slice as an independent tree.
//!
//! The recipe section's marker also occurs elsewhere in the source with
//! different content, so that scan additionally requires the opening marker
//! to be followed (after whitespace) by a specific nested marker.

use vstd::prelude::*;
use crate::errors::{DataError, DataErrorV};
use crate::text::{
    find_from, match_at, spec_find_at, spec_lead_spaces, str_to_chars, copy_range,
    lemma_lead_spaces, char_is_space,
};
use crate::xml::{XmlNode, parse_xml, xml_error, xml_parse_of};

verus! {

/// The first translation sub-document at or after `from`: the region from a
/// `<language` marker to the next `</language>` close, both inclusive.
pub open spec fn spec_find_translation_slice(s: Seq<char>, from: int) -> Option<(int, int)> {
    match spec_find_at(s, "<language"@, from) {
        None => None,
        Some(k1) => match spec_find_at(s, "</language>"@, k1 + "<language"@.len()) {
            None => None,
            Some(k2) => Some((k1, k2 + "</language>"@.len())),
        },
    }
}

/// Finds the next translation sub-document slice, as a half-open range.
pub fn find_translation_xml_slice(input: &Vec<char>, from: usize) -> (r: Option<
    (usize, usize),
>)
    requires
        from <= input@.len(),
    ensures
        match r {
            Some((st, en)) => {
                &&& spec_find_translation_slice(input@, from as int) == Some(
                    (st as int, en as int),
                )
                &&& from <= st < en <= input@.len()
            },
            None => spec_find_translation_slice(input@, from as int) is None,
        },
{
    proof {
        reveal_strlit("<language");
        reveal_strlit("</language>");
    }
    let k1 = match find_pat_here(input, "<language", from) {
        Some(k) => k,
        None => {
            return None;
        },
    };
    let open_len: usize = str_to_chars("<language").len();
    match find_pat_here(input, "</language>", k1 + open_len) {
        Some(k2) => {
            let close_len: usize = str_to_chars("</language>").len();
            Some((k1, k2 + close_len))
        },
        None => None,
    }
}

/// Finds a pattern given as a string literal, from a position.
fn find_pat_here(hay: &Vec<char>, pat: &str, from: usize) -> (r: Option<usize>)
    requires
        from <= hay@.len(),
        1 <= pat@.len(),
    ensures
        hay@.len() <= usize::MAX,
        match r {
            Some(i) => spec_find_at(hay@, pat@, from as int) == Some(i as int) && from <= i
                && i + pat@.len() <= hay@.len(),
            None => spec_find_at(hay@, pat@, from as int) is None,
        },
{
    let p = str_to_chars(pat);
    find_from(hay, &p, from)
}

/// The first recipe sub-document at or after `from`: a `<wares>` marker
/// immediately followed, after whitespace, by `<production>`, up to the next
/// `</wares>` close. An opening marker without the nested marker is skipped.
pub open spec fn spec_find_wares_slice(s: Seq<char>, from: int) -> Option<(int, int)>
    decreases s.len() - from
        via spec_find_wares_slice_dec
{
    match spec_find_at(s, "<wares>"@, from) {
        None => None,
        Some(k1) => {
            let a = k1 + "<wares>"@.len();
            let p = a + spec_lead_spaces(s.skip(a));
            if match_at(s, "<production>"@, p) {
                match spec_find_at(s, "</wares>"@, a) {
                    None => None,
                    Some(k2) => Some((k1, k2 + "</wares>"@.len())),
                }
            } else {
                spec_find_wares_slice(s, a)
            }
        },
    }
}

#[via_fn]
proof fn spec_find_wares_slice_dec(s: Seq<char>, from: int) {
    reveal_strlit("<wares>");
    if 0 <= from {
        crate::text::lemma_find_at_props(s, "<wares>"@, from);
    }
}

/// Finds the recipe sub-document slice, as a half-open range.
pub fn find_wares_xml_slice(input: &Vec<char>, from: usize) -> (r: Option<(usize, usize)>)
    requires
        from <= input@.len(),
    ensures
        match r {
            Some((st, en)) => {
                &&& spec_find_wares_slice(input@, from as int) == Some((st as int, en as int))
                &&& from <= st < en <= input@.len()
            },
            None => spec_find_wares_slice(input@, from as int) is None,
        },
{
    let mut pos: usize = from;
    loop
        invariant
            from <= pos <= input@.len(),
            spec_find_wares_slice(input@, from as int) == spec_find_wares_slice(
                input@,
                pos as int,
            ),
        decreases input@.len() - pos,
    {
        proof {
            reveal_strlit("<wares>");
            reveal_strlit("<production>");
            reveal_strlit("</wares>");
        }
        let open_len: usize = str_to_chars("<wares>").len();
        let prod = str_to_chars("<production>");
        let close_len: usize = str_to_chars("</wares>").len();
        let k1 = match find_pat_here(input, "<wares>", pos) {
            Some(k) => k,
            None => {
                return None;
            },
        };
        let a = k1 + open_len;
        let mut p: usize = a;
        while p < input.len() && char_is_space(input[p])
            invariant
                a <= p <= input@.len(),
                forall|j: int| a <= j < p ==> crate::text::is_space(#[trigger] input@[j]),
            decreases input@.len() - p,
        {
            p = p + 1;
        }
        proof {
            lemma_lead_spaces(input@.skip(a as int));
            assert(forall|j: int|
                0 <= j < input@.skip(a as int).len() ==> #[trigger] input@.skip(a as int)[j]
                    == input@[a + j]);
            assert(p - a == spec_lead_spaces(input@.skip(a as int))) by {
                let lead = spec_lead_spaces(input@.skip(a as int));
                if p - a < lead {
                    assert(crate::text::is_space(input@.skip(a as int)[p - a]));
                }
                if lead < p - a {
                    assert(crate::text::is_space(input@[a + lead]));
                }
            }
        }
        if crate::text::starts_with_at(input, &prod, p) {
            match find_pat_here(input, "</wares>", a) {
                Some(k2) => {
                    return Some((k1, k2 + close_len));
                },
                None => {
                    return None;
                },
            }
        }
        pos = a;
    }
}

/// The parsed recipe sub-document of the whole text, or the reason there is
/// none: no slice with the nested marker (`Err(Some(..))`), or a slice the
/// XML parser refuses (`Err(None)`; the exec error then carries the parser's
/// diagnostic, which no spec function names).
pub open spec fn spec_extract_wares(s: Seq<char>) -> Result<XmlNode, Option<DataErrorV>> {
    match spec_find_wares_slice(s, 0) {
        None => Err(Some(DataErrorV::XmlPartNotFound("wares"@))),
        Some((st, en)) => match xml_parse_of(s.subrange(st, en)) {
            None => Err(None),
            Some(root) => Ok(root),
        },
    }
}

/// Locates and parses the recipe sub-document.
pub fn extract_wares_document(input: &Vec<char>, dbg_path: &String) -> (r: Result<
    XmlNode,
    DataError,
>)
    ensures
        match r {
            Ok(root) => spec_extract_wares(input@) == Ok::<XmlNode, Option<DataErrorV>>(root),
            Err(e) => match spec_extract_wares(input@) {
                Ok(_) => false,
                Err(Some(ev)) => e@ == ev,
                Err(None) => e@ matches DataErrorV::InvalidXml(o, _) && o == dbg_path@,
            },
        },
{
    match find_wares_xml_slice(input, 0) {
        None => Err(DataError::XmlPartNotFound("wares".to_owned())),
        Some((st, en)) => {
            let slice = copy_range(input, st, en);
            match parse_xml(&slice) {
                Ok(root) => Ok(root),
                Err(diag) => Err(xml_error(dbg_path, diag)),
            }
        },
    }
}

/// The parsed translation sub-documents of the whole text, every slice in
/// order, or the reason extraction failed: no slice at all (`Err(Some(..))`)
/// or an unparseable slice (`Err(None)`).
pub open spec fn spec_extract_translations(
    s: Seq<char>,
    from: int,
    acc: Seq<XmlNode>,
) -> Result<Seq<XmlNode>, Option<DataErrorV>>
    decreases s.len() - from,
{
    if from < 0 || from > s.len() {
        Err(Some(DataErrorV::XmlPartNotFound("translations"@)))
    } else {
        match spec_find_translation_slice(s, from) {
            None => {
                if acc.len() == 0 {
                    Err(Some(DataErrorV::XmlPartNotFound("translations"@)))
                } else {
                    Ok(acc)
                }
            },
            Some((st, en)) => {
                if en <= from || en > s.len() {
                    Err(Some(DataErrorV::XmlPartNotFound("translations"@)))
                } else {
                    match xml_parse_of(s.subrange(st, en)) {
                        None => Err(None),
                        Some(root) => spec_extract_translations(s, en, acc.push(root)),
                    }
                }
            },
        }
    }
}

/// Locates and parses every translation sub-document, in order.
pub fn extract_translation_documents(input: &Vec<char>, dbg_path: &String) -> (r: Result<
    Vec<XmlNode>,
    DataError,
>)
    ensures
        match r {
            Ok(docs) => spec_extract_translations(input@, 0, Seq::empty()) == Ok::<
                Seq<XmlNode>,
                Option<DataErrorV>,
            >(docs@),
            Err(e) => match spec_extract_translations(input@, 0, Seq::empty()) {
                Ok(_) => false,
                Err(Some(ev)) => e@ == ev,
                Err(None) => e@ matches DataErrorV::InvalidXml(o, _) && o == dbg_path@,
            },
        },
{
    let mut docs: Vec<XmlNode> = Vec::new();
    let mut pos: usize = 0;
    loop
        invariant
            0 <= pos <= input@.len(),
            spec_extract_translations(input@, pos as int, docs@) == spec_extract_translations(
                input@,
                0,
                Seq::empty(),
            ),
        decreases input@.len() - pos + 1,
    {
        match find_translation_xml_slice(input, pos) {
            None => {
                if docs.len() == 0 {
                    return Err(DataError::XmlPartNotFound("translations".to_owned()));
                } else {
                    return Ok(docs);
                }
            },
            Some((st, en)) => {
                let slice = copy_range(input, st, en);
                match parse_xml(&slice) {
                    Ok(root) => {
                        docs.push(root);
                    },
                    Err(diag) => {
                        return Err(xml_error(dbg_path, diag));
                    },
                }
                pos = en;
            },
        }
    }
}

} // verus!
