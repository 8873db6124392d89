//! The loaded game data and the top-level demand resolution: catalog plus
//! translation table, reverse name resolution, request validation, and the
//! final per-ware report.

use vstd::prelude::*;
use crate::catalog::{
    SingleWare, SingleWareInfo, SingleWareProduction, SingleWareV, Wares, WaresV, methods_ids_parse, pairs_view, spec_assoc, spec_gen_methods_list,
    spec_load_catalog, strings_view, vec_contains_string, wares_wf, lemma_load_catalog_wf, TranslationPos,
};
use crate::counts::{CountsInput, CountsOutput, CountsOutputV};
use crate::engine::{
    AccEntryV, Fabrics, acc_view, spec_add_fabrics, spec_add_wares,
};
use crate::errors::{DataError, DataErrorV};
use crate::extract::{
    extract_translation_documents, extract_wares_document, spec_extract_translations,
    spec_extract_wares,
};
use crate::langs::{find_langs, langs_view, spec_find_langs};
use crate::rates::Rate;
use crate::text::str_to_chars;
use crate::translations::{
    Translations, TranslationsV, spec_items_get, spec_load_tr_langs, spec_tr_get, items_view,
    table_view,
};

verus! {

/// The outcome of loading the catalog and the language table out of one raw
/// document: the recipe sub-document is located and parsed, the language
/// section is located and read, and the catalog is built. `Err(None)` stands
/// for an unparseable slice, whose diagnostic no spec function names.
pub open spec fn spec_load_wares_and_langs(s: Seq<char>) -> Result<
    (WaresV, Seq<(Seq<char>, Seq<char>)>),
    Option<DataErrorV>,
> {
    match spec_extract_wares(s) {
        Err(x) => Err(x),
        Ok(root) => match spec_find_langs(s) {
            Err(x) => Err(x),
            Ok(langs) => match spec_load_catalog(root) {
                Err(e) => Err(Some(e)),
                Ok(w) => Ok((w, langs)),
            },
        },
    }
}

impl Wares {
    /// Loads the catalog and the language table from the raw recipe
    /// document text.
    pub fn load_wares_translationids_and_productionmethods_from_string(
        content: String,
        dbg_path: String,
    ) -> (r: Result<(Wares, Vec<(String, String)>), DataError>)
        ensures
            match r {
                Ok((w, langs)) => {
                    &&& spec_load_wares_and_langs(content@) == Ok::<
                        (WaresV, Seq<(Seq<char>, Seq<char>)>),
                        Option<DataErrorV>,
                    >((w@, langs_view(langs@)))
                    &&& wares_wf(w@.id_to_dsc)
                    &&& crate::catalog::wares_ids_unique(w@.id_to_dsc)
                },
                Err(e) => match spec_load_wares_and_langs(content@) {
                    Ok(_) => false,
                    Err(Some(ev)) => e@ == ev,
                    Err(None) => e@ matches DataErrorV::InvalidXml(o, _) && o == dbg_path@,
                },
            },
    {
        let chars = str_to_chars(content.as_str());
        let root = match extract_wares_document(&chars, &dbg_path) {
            Ok(root) => root,
            Err(e) => {
                return Err(e);
            },
        };
        let translations_ids = match find_langs(&chars, &dbg_path) {
            Ok(t) => t,
            Err(e) => {
                return Err(e);
            },
        };
        match Wares::load_from_xml(&root) {
            Ok(me) => {
                proof {
                    lemma_load_catalog_wf(root);
                    crate::catalog::lemma_load_catalog_unique(root);
                }
                Ok((me, translations_ids))
            },
            Err(e) => Err(e),
        }
    }
}

/// The outcome of loading the translation table out of the raw translation
/// document: every translation sub-document, cross-referenced against the
/// catalog and the language table.
pub open spec fn spec_load_translations(
    s: Seq<char>,
    wares: WaresV,
    lang_ids: Seq<(Seq<char>, Seq<char>)>,
) -> Result<TranslationsV, Option<DataErrorV>> {
    match spec_extract_translations(s, 0, Seq::empty()) {
        Err(x) => Err(x),
        Ok(docs) => Ok(
            TranslationsV {
                desired_unicode_id: "en"@,
                table: spec_load_tr_langs(docs, wares.id_to_dsc, lang_ids, Seq::empty()),
            },
        ),
    }
}

impl Translations {
    /// Loads the table from the raw translation document text.
    pub fn load_from_string(
        content: String,
        wares: &Wares,
        lang_ids: &Vec<(String, String)>,
        dbg_path: String,
    ) -> (r: Result<Translations, DataError>)
        ensures
            match r {
                Ok(t) => spec_load_translations(content@, wares@, langs_view(lang_ids@))
                    == Ok::<TranslationsV, Option<DataErrorV>>(t@),
                Err(e) => match spec_load_translations(
                    content@,
                    wares@,
                    langs_view(lang_ids@),
                ) {
                    Ok(_) => false,
                    Err(Some(ev)) => e@ == ev,
                    Err(None) => e@ matches DataErrorV::InvalidXml(o, _) && o == dbg_path@,
                },
            },
    {
        let chars = str_to_chars(content.as_str());
        let docs = match extract_translation_documents(&chars, &dbg_path) {
            Ok(d) => d,
            Err(e) => {
                return Err(e);
            },
        };
        Ok(Translations::load_from_xml_all(&docs, wares, lang_ids))
    }
}

/// Exactly when loading the two texts fails, and with which error: one of
/// the two stage mirrors errs, and the returned error is the one it names.
/// An unparseable sub-document carries the local origin marker and the
/// parser's diagnostic, which no spec function names.
pub open spec fn spec_load_data_err(
    wares_s: Seq<char>,
    translation_s: Seq<char>,
    e: DataErrorV,
) -> bool {
    match spec_load_wares_and_langs(wares_s) {
        Err(Some(ev)) => e == ev,
        Err(None) => e matches DataErrorV::InvalidXml(o, _) && o == "<local>"@,
        Ok((w, langs)) => match spec_load_translations(translation_s, w, langs) {
            Err(Some(ev)) => e == ev,
            Err(None) => e matches DataErrorV::InvalidXml(o, _) && o == "<local>"@,
            Ok(_) => false,
        },
    }
}

/// The loaded game data: the catalog and the translation table.
#[derive(Debug, Clone)]
pub struct Data {
    pub wares: Wares,
    pub translations: Translations,
}

pub struct DataV {
    pub wares: WaresV,
    pub translations: TranslationsV,
}

impl View for Data {
    type V = DataV;

    open spec fn view(&self) -> DataV {
        DataV { wares: self.wares@, translations: self.translations@ }
    }
}

/// The first name of `xs` that also occurs in `ys`.
pub open spec fn spec_first_in(xs: Seq<Seq<char>>, ys: Seq<Seq<char>>) -> Option<Seq<char>>
    decreases xs.len(),
{
    if xs.len() == 0 {
        None
    } else if ys.contains(xs[0]) {
        Some(xs[0])
    } else {
        spec_first_in(xs.drop_first(), ys)
    }
}

/// The first name of `xs` that does not occur in `ys`.
pub open spec fn spec_first_not_in(xs: Seq<Seq<char>>, ys: Seq<Seq<char>>) -> Option<
    Seq<char>,
>
    decreases xs.len(),
{
    if xs.len() == 0 {
        None
    } else if !ys.contains(xs[0]) {
        Some(xs[0])
    } else {
        spec_first_not_in(xs.drop_first(), ys)
    }
}

/// Finds the first string of `xs` that is (`want` true) or is not (`want`
/// false) contained in `ys`.
fn first_by_containment<'a>(xs: &'a Vec<String>, ys: &Vec<String>, want: bool) -> (r: Option<
    &'a String,
>)
    ensures
        ({
            let spec_r = if want {
                spec_first_in(strings_view(xs@), strings_view(ys@))
            } else {
                spec_first_not_in(strings_view(xs@), strings_view(ys@))
            };
            match r {
                Some(x) => spec_r == Some(x@),
                None => spec_r is None,
            }
        }),
{
    proof {
        assert(strings_view(xs@).skip(0) =~= strings_view(xs@));
    }
    let mut i: usize = 0;
    while i < xs.len()
        invariant
            0 <= i <= xs@.len(),
            ({
                let sv = strings_view(xs@);
                let yv = strings_view(ys@);
                if want {
                    spec_first_in(sv, yv) == spec_first_in(sv.skip(i as int), yv)
                } else {
                    spec_first_not_in(sv, yv) == spec_first_not_in(sv.skip(i as int), yv)
                }
            }),
        decreases xs@.len() - i,
    {
        proof {
            assert(strings_view(xs@).skip(i as int)[0] == strings_view(xs@)[i as int]);
            assert(strings_view(xs@).skip(i as int).drop_first() =~= strings_view(xs@).skip(
                i + 1,
            ));
        }
        let contained = vec_contains_string(ys, &xs[i]);
        if contained == want {
            return Some(&xs[i]);
        }
        i = i + 1;
    }
    None
}

/// The reverse resolution of one localized name: languages are scanned in
/// table order, each language's items in map order, and the first item
/// whose text equals the name wins.
pub open spec fn spec_reverse_find(
    table: Seq<(Seq<char>, Seq<(Seq<char>, Seq<char>)>)>,
    usr: Seq<char>,
) -> Option<Seq<char>>
    decreases table.len(),
{
    if table.len() == 0 {
        None
    } else {
        match spec_reverse_find_in(table[0].1, usr) {
            Some(item) => Some(item),
            None => spec_reverse_find(table.drop_first(), usr),
        }
    }
}

pub open spec fn spec_reverse_find_in(
    items: Seq<(Seq<char>, Seq<char>)>,
    usr: Seq<char>,
) -> Option<Seq<char>>
    decreases items.len(),
{
    if items.len() == 0 {
        None
    } else if items[0].1 == usr {
        Some(items[0].0)
    } else {
        spec_reverse_find_in(items.drop_first(), usr)
    }
}

/// The reverse resolution of a batch of localized names: duplicates resolve
/// once; a name no language knows is fatal.
pub open spec fn spec_reverse_map(
    table: Seq<(Seq<char>, Seq<(Seq<char>, Seq<char>)>)>,
    inputs: Seq<Seq<char>>,
    acc: Seq<(Seq<char>, Seq<char>)>,
) -> Result<Seq<(Seq<char>, Seq<char>)>, DataErrorV>
    decreases inputs.len(),
{
    if inputs.len() == 0 {
        Ok(acc)
    } else {
        let u = inputs[0];
        if spec_items_get(acc, u) is Some {
            spec_reverse_map(table, inputs.drop_first(), acc)
        } else {
            match spec_reverse_find(table, u) {
                None => Err(DataErrorV::ReverseTranslationNotFound(u)),
                Some(item) => spec_reverse_map(table, inputs.drop_first(), acc.push((u, item))),
            }
        }
    }
}

fn reverse_find(
    table: &Vec<(String, Vec<(String, String)>)>,
    usr: &String,
) -> (r: Option<String>)
    ensures
        match r {
            Some(item) => spec_reverse_find(table_view(table@), usr@) == Some(item@),
            None => spec_reverse_find(table_view(table@), usr@) is None,
        },
{
    proof {
        assert(table_view(table@).skip(0) =~= table_view(table@));
    }
    let mut i: usize = 0;
    while i < table.len()
        invariant
            0 <= i <= table@.len(),
            spec_reverse_find(table_view(table@), usr@) == spec_reverse_find(
                table_view(table@).skip(i as int),
                usr@,
            ),
        decreases table@.len() - i,
    {
        proof {
            assert(table_view(table@).skip(i as int)[0] == table_view(table@)[i as int]);
            assert(table_view(table@).skip(i as int).drop_first() =~= table_view(table@).skip(
                i + 1,
            ));
        }
        let items = &table[i].1;
        proof {
            assert(items_view(items@).skip(0) =~= items_view(items@));
        }
        let mut k: usize = 0;
        while k < items.len()
            invariant
                items == &table@[i as int].1,
                0 <= i < table@.len(),
                0 <= k <= items@.len(),
                spec_reverse_find(table_view(table@), usr@) == spec_reverse_find(
                    table_view(table@).skip(i as int),
                    usr@,
                ),
                spec_reverse_find_in(items_view(items@), usr@) == spec_reverse_find_in(
                    items_view(items@).skip(k as int),
                    usr@,
                ),
            decreases items@.len() - k,
        {
            proof {
                assert(items_view(items@).skip(k as int)[0] == items_view(items@)[k as int]);
                assert(items_view(items@).skip(k as int).drop_first() =~= items_view(
                    items@,
                ).skip(k + 1));
            }
            if items[k].1 == *usr {
                proof {
                    assert(table_view(table@).skip(i as int)[0] == table_view(table@)[
                        i as int]);
                }
                return Some(items[k].0.clone());
            }
            k = k + 1;
        }
        i = i + 1;
    }
    None
}

impl Data {
    /// Selects the desired display language.
    pub fn set_desired_unicode_id(&mut self, desired_unicode_id: String)
        ensures
            final(self)@.translations.desired_unicode_id == desired_unicode_id@,
            final(self)@.translations.table == old(self)@.translations.table,
            final(self)@.wares == old(self)@.wares,
            final(self).wares == old(self).wares,
    {
        self.translations.set_desired_unicode_id(desired_unicode_id);
    }

    /// Selects the fallback display language for later lookups.
    pub fn change_default_lang(&mut self, desired_unicode_id: String)
        ensures
            final(self)@.translations.desired_unicode_id == desired_unicode_id@,
            final(self)@.translations.table == old(self)@.translations.table,
            final(self)@.wares == old(self)@.wares,
            final(self).wares == old(self).wares,
    {
        self.translations.set_desired_unicode_id(desired_unicode_id);
    }

    /// Loads catalog and translations from the two raw document texts.
    pub fn load_data_str(wares_xml_str: String, translation_xml_str: String) -> (r: Result<
        Data,
        DataError,
    >)
        ensures
            match r {
                Ok(d) => {
                    &&& spec_load_wares_and_langs(wares_xml_str@) matches Ok((w, langs))
                        && d@.wares == w && spec_load_translations(
                        translation_xml_str@,
                        w,
                        langs,
                    ) == Ok::<TranslationsV, Option<DataErrorV>>(d@.translations)
                    &&& wares_wf(d@.wares.id_to_dsc)
                    &&& crate::catalog::wares_ids_unique(d@.wares.id_to_dsc)
                },
                Err(e) => spec_load_data_err(
                    wares_xml_str@,
                    translation_xml_str@,
                    e@,
                ),
            },
    {
        let (wares, lang_ids_map) =
            match Wares::load_wares_translationids_and_productionmethods_from_string(
            wares_xml_str,
            "<local>".to_owned(),
        ) {
            Ok(p) => p,
            Err(e) => {
                return Err(e);
            },
        };
        let translations = match Translations::load_from_string(
            translation_xml_str,
            &wares,
            &lang_ids_map,
            "<local>".to_owned(),
        ) {
            Ok(t) => t,
            Err(e) => {
                return Err(e);
            },
        };
        Ok(Data { wares, translations })
    }

    /// The catalog-wide method-name universe.
    pub fn gen_production_methods_list(&self) -> (r: Vec<String>)
        requires
            wares_wf(self@.wares.id_to_dsc),
        ensures
            strings_view(r@) == spec_gen_methods_list(self@.wares.id_to_dsc),
    {
        proof {
            assert(methods_ids_parse(self@.wares.id_to_dsc));
        }
        self.wares.gen_production_methods_list()
    }

    /// The language codes the translation table knows, in table order.
    pub fn gen_lang_list(&self) -> (r: Vec<String>)
        ensures
            strings_view(r@) == self@.translations.table.map_values(
                |p: (Seq<char>, Seq<(Seq<char>, Seq<char>)>)| p.0,
            ),
    {
        let table = &self.translations.unicode_id_to_item_id_to_translation;
        let mut r: Vec<String> = Vec::new();
        let mut i: usize = 0;
        while i < table.len()
            invariant
                table == &self.translations.unicode_id_to_item_id_to_translation,
                0 <= i <= table@.len(),
                r@.len() == i,
                forall|t: int| 0 <= t < i ==> (#[trigger] r@[t])@ == table@[t].0@,
            decreases table@.len() - i,
        {
            r.push(table[i].0.clone());
            i = i + 1;
        }
        proof {
            assert(strings_view(r@) =~= self@.translations.table.map_values(
                |p: (Seq<char>, Seq<(Seq<char>, Seq<char>)>)| p.0,
            ));
        }
        r
    }

    /// Resolves a batch of user-supplied localized names to item ids.
    pub fn make_translation_to_item_map(&self, usr_items: &Vec<String>) -> (r: Result<
        Vec<(String, String)>,
        DataError,
    >)
        ensures
            match r {
                Ok(m) => spec_reverse_map(
                    self@.translations.table,
                    strings_view(usr_items@),
                    Seq::empty(),
                ) == Ok::<Seq<(Seq<char>, Seq<char>)>, DataErrorV>(items_view(m@)),
                Err(e) => spec_reverse_map(
                    self@.translations.table,
                    strings_view(usr_items@),
                    Seq::empty(),
                ) == Err::<Seq<(Seq<char>, Seq<char>)>, DataErrorV>(e@),
            },
    {
        let ghost tv = self@.translations.table;
        let ghost uv = strings_view(usr_items@);
        let mut result: Vec<(String, String)> = Vec::new();
        proof {
            assert(items_view(result@) =~= Seq::<(Seq<char>, Seq<char>)>::empty());
            assert(uv.skip(0) =~= uv);
        }
        let mut i: usize = 0;
        while i < usr_items.len()
            invariant
                tv == self@.translations.table,
                uv == strings_view(usr_items@),
                0 <= i <= usr_items@.len(),
                spec_reverse_map(tv, uv.skip(i as int), items_view(result@))
                    == spec_reverse_map(tv, uv, Seq::empty()),
            decreases usr_items@.len() - i,
        {
            proof {
                assert(uv.skip(i as int)[0] == uv[i as int]);
                assert(uv.skip(i as int).drop_first() =~= uv.skip(i + 1));
            }
            let usr = &usr_items[i];
            if !crate::translations::items_contains(&result, usr) {
                match reverse_find(
                    &self.translations.unicode_id_to_item_id_to_translation,
                    usr,
                ) {
                    None => {
                        return Err(DataError::ReverseTranslationNotFound(usr.clone()));
                    },
                    Some(item) => {
                        let ghost pre = result@;
                        result.push((usr.clone(), item));
                        proof {
                            assert(items_view(result@) =~= items_view(pre).push(
                                (result@.last().0@, result@.last().1@),
                            ));
                        }
                    },
                }
            }
            i = i + 1;
        }
        Ok(result)
    }

    /// Checks that the two method-name lists are disjoint and only name
    /// methods the catalog knows.
    pub fn check_production_prioritylist_blacklsit(
        &self,
        prioritylist: &Vec<String>,
        blacklist: &Vec<String>,
    ) -> (r: Result<(), DataError>)
        requires
            wares_wf(self@.wares.id_to_dsc),
        ensures
            ({
                let plv = strings_view(prioritylist@);
                let blv = strings_view(blacklist@);
                let spec_r = spec_check_lists(self@.wares.id_to_dsc, plv, blv);
                match r {
                    Ok(_) => spec_r is Ok,
                    Err(e) => spec_r == Err::<(), DataErrorV>(e@),
                }
            }),
    {
        match first_by_containment(prioritylist, blacklist, true) {
            Some(bad) => {
                return Err(DataError::PriorityBlackListsIntersection(bad.clone()));
            },
            None => {},
        }
        match first_by_containment(blacklist, prioritylist, true) {
            Some(bad) => {
                return Err(DataError::PriorityBlackListsIntersection(bad.clone()));
            },
            None => {},
        }
        let all_methods = self.gen_production_methods_list();
        match first_by_containment(prioritylist, &all_methods, false) {
            Some(bad) => {
                return Err(DataError::UnknownProductionMethod(bad.clone()));
            },
            None => {},
        }
        match first_by_containment(blacklist, &all_methods, false) {
            Some(bad) => {
                return Err(DataError::UnknownProductionMethod(bad.clone()));
            },
            None => {},
        }
        Ok(())
    }
}

/// The list validation: the lists must be disjoint, and every name in
/// either list must be a known method name somewhere in the catalog.
pub open spec fn spec_check_lists(
    wares: Seq<(Seq<char>, SingleWareV)>,
    pl: Seq<Seq<char>>,
    bl: Seq<Seq<char>>,
) -> Result<(), DataErrorV> {
    match spec_first_in(pl, bl) {
        Some(x) => Err(DataErrorV::PriorityBlackListsIntersection(x)),
        None => match spec_first_in(bl, pl) {
            Some(x) => Err(DataErrorV::PriorityBlackListsIntersection(x)),
            None => {
                let all = spec_gen_methods_list(wares);
                match spec_first_not_in(pl, all) {
                    Some(x) => Err(DataErrorV::UnknownProductionMethod(x)),
                    None => match spec_first_not_in(bl, all) {
                        Some(x) => Err(DataErrorV::UnknownProductionMethod(x)),
                        None => Ok(()),
                    },
                }
            },
        },
    }
}


/// View of the demand list.
pub open spec fn demands_view(v: Seq<(String, CountsInput)>) -> Seq<(Seq<char>, CountsInput)> {
    v.map_values(|p: (String, CountsInput)| (p.0@, p.1))
}

/// View of the final report rows.
pub open spec fn rows_view(v: Seq<(String, Rate, CountsOutput, SingleWare)>) -> Seq<
    (Seq<char>, Rate, CountsOutputV, SingleWareV),
> {
    v.map_values(|p: (String, Rate, CountsOutput, SingleWare)| (p.0@, p.1, p.2@, p.3@))
}

/// Translating one batch of names through the reverse map; a name the map
/// does not bind cannot arise from a map built over these very names.
pub open spec fn spec_lookup_all(
    map: Seq<(Seq<char>, Seq<char>)>,
    xs: Seq<Seq<char>>,
) -> Result<Seq<Seq<char>>, DataErrorV>
    decreases xs.len(),
{
    if xs.len() == 0 {
        Ok(Seq::empty())
    } else {
        match spec_items_get(map, xs[0]) {
            None => Err(DataErrorV::InconsistentRequest("untranslated name"@)),
            Some(item) => match spec_lookup_all(map, xs.drop_first()) {
                Err(e) => Err(e),
                Ok(rest) => Ok(seq![item] + rest),
            },
        }
    }
}

pub open spec fn spec_lookup_pairs(
    map: Seq<(Seq<char>, Seq<char>)>,
    xs: Seq<(Seq<char>, CountsInput)>,
) -> Result<Seq<(Seq<char>, CountsInput)>, DataErrorV>
    decreases xs.len(),
{
    if xs.len() == 0 {
        Ok(Seq::empty())
    } else {
        match spec_items_get(map, xs[0].0) {
            None => Err(DataErrorV::InconsistentRequest("untranslated name"@)),
            Some(item) => match spec_lookup_pairs(map, xs.drop_first()) {
                Err(e) => Err(e),
                Ok(rest) => Ok(seq![(item, xs[0].1)] + rest),
            },
        }
    }
}

/// The validated and untranslated request: every localized name resolved to
/// its internal id, and the two lists checked.
pub open spec fn spec_validate(
    d: DataV,
    desired: Seq<(Seq<char>, CountsInput)>,
    pl: Seq<Seq<char>>,
    bl: Seq<Seq<char>>,
) -> Result<
    (Seq<(Seq<char>, CountsInput)>, Seq<Seq<char>>, Seq<Seq<char>>),
    DataErrorV,
> {
    let names = desired.map_values(|p: (Seq<char>, CountsInput)| p.0) + pl + bl;
    match spec_reverse_map(d.translations.table, names, Seq::empty()) {
        Err(e) => Err(e),
        Ok(map) => match spec_lookup_pairs(map, desired) {
            Err(e) => Err(e),
            Ok(items) => match spec_lookup_all(map, pl) {
                Err(e) => Err(e),
                Ok(tpl) => match spec_lookup_all(map, bl) {
                    Err(e) => Err(e),
                    Ok(tbl) => match spec_check_lists(d.wares.id_to_dsc, tpl, tbl) {
                        Err(e) => Err(e),
                        Ok(_) => Ok((items, tpl, tbl)),
                    },
                },
            },
        },
    }
}

/// Feeding the validated demands into the accumulator, in request order.
pub open spec fn spec_run_demands(
    wares: Seq<(Seq<char>, SingleWareV)>,
    acc: Seq<AccEntryV>,
    demands: Seq<(Seq<char>, CountsInput)>,
    pl: Seq<Seq<char>>,
    bl: Seq<Seq<char>>,
) -> Result<Seq<AccEntryV>, DataErrorV>
    decreases demands.len(),
{
    if demands.len() == 0 {
        Ok(acc)
    } else {
        let (id, kind) = demands[0];
        let step = match kind {
            CountsInput::Fabrics(n) => spec_add_fabrics(
                wares,
                acc,
                id,
                n as nat,
                pl,
                bl,
                wares.len() as nat,
            ),
            CountsInput::WaresPerMinute(r) => spec_add_wares(
                wares,
                acc,
                id,
                r,
                pl,
                bl,
                wares.len() as nat,
            ),
        };
        match step {
            Err(e) => Err(e),
            Ok(acc2) => spec_run_demands(wares, acc2, demands.drop_first(), pl, bl),
        }
    }
}

/// Re-expressing the accumulator as the final report: display names applied
/// with the internal id as fallback, and the full ware detail attached.
pub open spec fn spec_report(
    wares: Seq<(Seq<char>, SingleWareV)>,
    tr: TranslationsV,
    entries: Seq<AccEntryV>,
    acc: Seq<(Seq<char>, Rate, CountsOutputV, SingleWareV)>,
) -> Result<Seq<(Seq<char>, Rate, CountsOutputV, SingleWareV)>, DataErrorV>
    decreases entries.len(),
{
    if entries.len() == 0 {
        Ok(acc)
    } else {
        let e = entries[0];
        match spec_assoc(wares, e.info.ware_id) {
            None => Err(DataErrorV::UnknownWare(e.info.ware_id)),
            Some(ware) => {
                let name = match spec_tr_get(tr, e.ware_id) {
                    Some(t) => t,
                    None => e.ware_id,
                };
                let out = match e.production {
                    None => CountsOutputV::Import,
                    Some((c, prod)) => CountsOutputV::Produce(
                        match spec_tr_get(tr, prod.method) {
                            Some(t) => t,
                            None => prod.method,
                        },
                        c,
                    ),
                };
                spec_report(
                    wares,
                    tr,
                    entries.drop_first(),
                    acc.push((name, e.wares_per_minute, out, ware)),
                )
            },
        }
    }
}

/// The whole resolution: validate, feed demands, report.
pub open spec fn spec_calc(
    d: DataV,
    desired: Seq<(Seq<char>, CountsInput)>,
    pl: Seq<Seq<char>>,
    bl: Seq<Seq<char>>,
) -> Result<Seq<(Seq<char>, Rate, CountsOutputV, SingleWareV)>, DataErrorV> {
    match spec_validate(d, desired, pl, bl) {
        Err(e) => Err(e),
        Ok((items, tpl, tbl)) => match spec_run_demands(
            d.wares.id_to_dsc,
            Seq::empty(),
            items,
            tpl,
            tbl,
        ) {
            Err(e) => Err(e),
            Ok(acc) => spec_report(d.wares.id_to_dsc, d.translations, acc, Seq::empty()),
        },
    }
}

fn map_get(map: &Vec<(String, String)>, key: &String) -> (r: Option<String>)
    ensures
        match r {
            Some(t) => spec_items_get(items_view(map@), key@) == Some(t@),
            None => spec_items_get(items_view(map@), key@) is None,
        },
{
    proof {
        assert(items_view(map@).skip(0) =~= items_view(map@));
    }
    let mut i: usize = 0;
    while i < map.len()
        invariant
            0 <= i <= map@.len(),
            spec_items_get(items_view(map@), key@) == spec_items_get(
                items_view(map@).skip(i as int),
                key@,
            ),
        decreases map@.len() - i,
    {
        proof {
            assert(items_view(map@).skip(i as int)[0] == items_view(map@)[i as int]);
            assert(items_view(map@).skip(i as int).drop_first() =~= items_view(map@).skip(
                i + 1,
            ));
        }
        if map[i].0 == *key {
            return Some(map[i].1.clone());
        }
        i = i + 1;
    }
    None
}

/// A deep copy of a production method, preserving its view.
pub fn clone_production(p: &SingleWareProduction) -> (r: SingleWareProduction)
    ensures
        r@ == p@,
{
    let mut deps: Vec<(String, usize)> = Vec::new();
    let mut i: usize = 0;
    while i < p.wares_dependencies.len()
        invariant
            0 <= i <= p.wares_dependencies@.len(),
            deps@.len() == i,
            forall|t: int|
                0 <= t < i ==> (#[trigger] deps@[t]).0@ == p.wares_dependencies@[t].0@
                    && deps@[t].1 == p.wares_dependencies@[t].1,
        decreases p.wares_dependencies@.len() - i,
    {
        deps.push((p.wares_dependencies[i].0.clone(), p.wares_dependencies[i].1));
        i = i + 1;
    }
    let r = SingleWareProduction {
        method: p.method.clone(),
        cicle_milliseconds: p.cicle_milliseconds,
        wares_per_cicle: p.wares_per_cicle,
        wares_dependencies: deps,
        translation: TranslationPos {
            page: p.translation.page.clone(),
            id: p.translation.id.clone(),
        },
    };
    proof {
        assert(pairs_view(r.wares_dependencies@) =~= pairs_view(p.wares_dependencies@));
    }
    r
}

/// A deep copy of a ware description, preserving its view.
pub fn clone_ware(w: &SingleWare) -> (r: SingleWare)
    ensures
        r@ == w@,
{
    let mut methods: Vec<(String, SingleWareProduction)> = Vec::new();
    let mut i: usize = 0;
    while i < w.production_methods.len()
        invariant
            0 <= i <= w.production_methods@.len(),
            methods@.len() == i,
            forall|t: int|
                0 <= t < i ==> (#[trigger] methods@[t]).0@ == w.production_methods@[t].0@
                    && methods@[t].1@ == w.production_methods@[t].1@,
        decreases w.production_methods@.len() - i,
    {
        let cp = clone_production(&w.production_methods[i].1);
        methods.push((w.production_methods[i].0.clone(), cp));
        i = i + 1;
    }
    let translation = match &w.translation {
        Some(p) => Some(TranslationPos { page: p.page.clone(), id: p.id.clone() }),
        None => None,
    };
    let r = SingleWare {
        info: SingleWareInfo {
            ware_id: w.info.ware_id.clone(),
            price_min: w.info.price_min,
            price_max: w.info.price_max,
            transport: w.info.transport.clone(),
        },
        production_methods: methods,
        translation,
    };
    proof {
        assert(pairs_view(r.production_methods@) =~= pairs_view(w.production_methods@));
    }
    r
}


impl Data {
    /// Resolves every user-supplied name and validates the two lists.
    pub fn validate_and_untranslate(
        &self,
        desired_outputs: &Vec<(String, CountsInput)>,
        prioritylist: &Vec<String>,
        blacklist: &Vec<String>,
    ) -> (r: Result<(Vec<(String, CountsInput)>, Vec<String>, Vec<String>), DataError>)
        requires
            wares_wf(self@.wares.id_to_dsc),
        ensures
            ({
                let spec_r = spec_validate(
                    self@,
                    demands_view(desired_outputs@),
                    strings_view(prioritylist@),
                    strings_view(blacklist@),
                );
                match r {
                    Ok((items, tpl, tbl)) => spec_r matches Ok(sv) && sv.0 == demands_view(
                        items@,
                    ) && sv.1 == strings_view(tpl@) && sv.2 == strings_view(tbl@),
                    Err(e) => spec_r == Err::<
                        (Seq<(Seq<char>, CountsInput)>, Seq<Seq<char>>, Seq<Seq<char>>),
                        DataErrorV,
                    >(e@),
                }
            }),
    {
        let ghost dv = demands_view(desired_outputs@);
        let ghost plv = strings_view(prioritylist@);
        let ghost blv = strings_view(blacklist@);
        let mut names: Vec<String> = Vec::new();
        let mut i: usize = 0;
        while i < desired_outputs.len()
            invariant
                0 <= i <= desired_outputs@.len(),
                names@.len() == i,
                forall|t: int|
                    0 <= t < i ==> (#[trigger] names@[t])@ == desired_outputs@[t].0@,
            decreases desired_outputs@.len() - i,
        {
            names.push(desired_outputs[i].0.clone());
            i = i + 1;
        }
        let mut k: usize = 0;
        while k < prioritylist.len()
            invariant
                0 <= k <= prioritylist@.len(),
                names@.len() == desired_outputs@.len() + k,
                forall|t: int|
                    0 <= t < desired_outputs@.len() ==> (#[trigger] names@[t])@
                        == desired_outputs@[t].0@,
                forall|t: int|
                    0 <= t < k ==> (#[trigger] names@[desired_outputs@.len() + t])@
                        == prioritylist@[t]@,
            decreases prioritylist@.len() - k,
        {
            names.push(prioritylist[k].clone());
            k = k + 1;
        }
        let mut m: usize = 0;
        while m < blacklist.len()
            invariant
                0 <= m <= blacklist@.len(),
                names@.len() == desired_outputs@.len() + prioritylist@.len() + m,
                forall|t: int|
                    0 <= t < desired_outputs@.len() ==> (#[trigger] names@[t])@
                        == desired_outputs@[t].0@,
                forall|t: int|
                    0 <= t < prioritylist@.len() ==> (#[trigger] names@[desired_outputs@.len()
                        + t])@ == prioritylist@[t]@,
                forall|t: int|
                    0 <= t < m ==> (#[trigger] names@[desired_outputs@.len()
                        + prioritylist@.len() + t])@ == blacklist@[t]@,
            decreases blacklist@.len() - m,
        {
            names.push(blacklist[m].clone());
            m = m + 1;
        }
        proof {
            let dlen = desired_outputs@.len() as int;
            let plen = prioritylist@.len() as int;
            assert forall|t: int| dlen <= t < dlen + plen implies (#[trigger] names@[t])@
                == prioritylist@[t - dlen]@ by {
                let u = t - dlen;
                assert(names@[dlen + u]@ == prioritylist@[u]@);
            }
            assert forall|t: int|
                dlen + plen <= t < names@.len() implies (#[trigger] names@[t])@
                == blacklist@[t - dlen - plen]@ by {
                let u = t - dlen - plen;
                assert(names@[dlen + plen + u]@ == blacklist@[u]@);
            }
            assert(strings_view(names@) =~= dv.map_values(
                |p: (Seq<char>, CountsInput)| p.0,
            ) + plv + blv);
        }
        let map = match self.make_translation_to_item_map(&names) {
            Ok(mp) => mp,
            Err(e) => {
                return Err(e);
            },
        };
        let ghost mv = items_view(map@);
        // translate the demands
        let mut items: Vec<(String, CountsInput)> = Vec::new();
        proof {
            assert(dv.skip(0) =~= dv);
            assert(demands_view(items@) =~= Seq::<(Seq<char>, CountsInput)>::empty());
        }
        let mut i2: usize = 0;
        while i2 < desired_outputs.len()
            invariant
                dv == demands_view(desired_outputs@),
                mv == items_view(map@),
                plv == strings_view(prioritylist@),
                blv == strings_view(blacklist@),
                spec_reverse_map(
                    self@.translations.table,
                    dv.map_values(|p: (Seq<char>, CountsInput)| p.0) + plv + blv,
                    Seq::empty(),
                ) == Ok::<Seq<(Seq<char>, Seq<char>)>, DataErrorV>(mv),
                0 <= i2 <= desired_outputs@.len(),
                match spec_lookup_pairs(mv, dv.skip(i2 as int)) {
                    Ok(rest) => spec_lookup_pairs(mv, dv) == Ok::<
                        Seq<(Seq<char>, CountsInput)>,
                        DataErrorV,
                    >(demands_view(items@) + rest),
                    Err(e) => spec_lookup_pairs(mv, dv) == Err::<
                        Seq<(Seq<char>, CountsInput)>,
                        DataErrorV,
                    >(e),
                },
            decreases desired_outputs@.len() - i2,
        {
            proof {
                assert(dv.skip(i2 as int)[0] == dv[i2 as int]);
                assert(dv.skip(i2 as int).drop_first() =~= dv.skip(i2 + 1));
            }
            let item = match map_get(&map, &desired_outputs[i2].0) {
                Some(it) => it,
                None => {
                    return Err(
                        DataError::InconsistentRequest("untranslated name".to_owned()),
                    );
                },
            };
            let ghost pre = demands_view(items@);
            items.push((item, desired_outputs[i2].1));
            proof {
                assert(demands_view(items@) =~= pre.push(
                    (items@.last().0@, items@.last().1),
                ));
                match spec_lookup_pairs(mv, dv.skip(i2 + 1)) {
                    Ok(rest) => {
                        assert((pre + (seq![(demands_view(items@).last().0, demands_view(
                            items@,
                        ).last().1)] + rest)) =~= (demands_view(items@) + rest));
                    },
                    Err(_) => {},
                }
            }
            i2 = i2 + 1;
        }
        proof {
            assert(demands_view(items@) + Seq::<(Seq<char>, CountsInput)>::empty()
                =~= demands_view(items@));
        }
        let tpl = match self.lookup_names(&map, prioritylist) {
            Ok(v) => v,
            Err(e) => {
                return Err(e);
            },
        };
        let tbl = match self.lookup_names(&map, blacklist) {
            Ok(v) => v,
            Err(e) => {
                return Err(e);
            },
        };
        match self.check_production_prioritylist_blacklsit(&tpl, &tbl) {
            Ok(_) => Ok((items, tpl, tbl)),
            Err(e) => Err(e),
        }
    }

    /// Translates one list of names through the reverse map.
    fn lookup_names(&self, map: &Vec<(String, String)>, xs: &Vec<String>) -> (r: Result<
        Vec<String>,
        DataError,
    >)
        ensures
            ({
                let spec_r = spec_lookup_all(items_view(map@), strings_view(xs@));
                match r {
                    Ok(v) => spec_r == Ok::<Seq<Seq<char>>, DataErrorV>(strings_view(v@)),
                    Err(e) => spec_r == Err::<Seq<Seq<char>>, DataErrorV>(e@),
                }
            }),
    {
        let ghost mv = items_view(map@);
        let ghost xv = strings_view(xs@);
        let mut out: Vec<String> = Vec::new();
        proof {
            assert(xv.skip(0) =~= xv);
            assert(strings_view(out@) =~= Seq::<Seq<char>>::empty());
        }
        let mut i: usize = 0;
        while i < xs.len()
            invariant
                mv == items_view(map@),
                xv == strings_view(xs@),
                0 <= i <= xs@.len(),
                match spec_lookup_all(mv, xv.skip(i as int)) {
                    Ok(rest) => spec_lookup_all(mv, xv) == Ok::<Seq<Seq<char>>, DataErrorV>(
                        strings_view(out@) + rest,
                    ),
                    Err(e) => spec_lookup_all(mv, xv) == Err::<Seq<Seq<char>>, DataErrorV>(
                        e,
                    ),
                },
            decreases xs@.len() - i,
        {
            proof {
                assert(xv.skip(i as int)[0] == xv[i as int]);
                assert(xv.skip(i as int).drop_first() =~= xv.skip(i + 1));
            }
            let item = match map_get(map, &xs[i]) {
                Some(it) => it,
                None => {
                    return Err(
                        DataError::InconsistentRequest("untranslated name".to_owned()),
                    );
                },
            };
            let ghost pre = strings_view(out@);
            out.push(item);
            proof {
                assert(strings_view(out@) =~= pre.push(out@.last()@));
                match spec_lookup_all(mv, xv.skip(i + 1)) {
                    Ok(rest) => {
                        assert((pre + (seq![strings_view(out@).last()] + rest))
                            =~= (strings_view(out@) + rest));
                    },
                    Err(_) => {},
                }
            }
            i = i + 1;
        }
        proof {
            assert(strings_view(out@) + Seq::<Seq<char>>::empty() =~= strings_view(out@));
        }
        Ok(out)
    }
}


/// Translating names preserves each demand's kind and count.
pub proof fn lemma_lookup_pairs_kinds(
    map: Seq<(Seq<char>, Seq<char>)>,
    xs: Seq<(Seq<char>, CountsInput)>,
)
    requires
        spec_lookup_pairs(map, xs) is Ok,
    ensures
        spec_lookup_pairs(map, xs)->Ok_0.len() == xs.len(),
        forall|k: int|
            0 <= k < xs.len() ==> (#[trigger] spec_lookup_pairs(map, xs)->Ok_0[k]).1 == xs[
                k].1,
    decreases xs.len(),
{
    if xs.len() > 0 {
        match spec_items_get(map, xs[0].0) {
            None => {},
            Some(item) => {
                lemma_lookup_pairs_kinds(map, xs.drop_first());
                assert(forall|k: int|
                    1 <= k < xs.len() ==> (#[trigger] spec_lookup_pairs(map, xs)->Ok_0[k])
                        == spec_lookup_pairs(map, xs.drop_first())->Ok_0[k - 1]);
            },
        }
    }
}

impl Data {
    /// Resolves a whole request: validates it, merges every demand into the
    /// accumulator, and reports every ware touched with its display name,
    /// accumulated throughput, production decision and full detail.
    pub fn calc_required_fabric_counts(
        &self,
        desired_outputs: &Vec<(String, CountsInput)>,
        prioritylist: &Vec<String>,
        blacklist: &Vec<String>,
    ) -> (r: Result<Vec<(String, Rate, CountsOutput, SingleWare)>, DataError>)
        requires
            wares_wf(self@.wares.id_to_dsc),
            forall|k: int|
                0 <= k < desired_outputs@.len() ==> ((#[trigger] desired_outputs@[k].1)
                    matches CountsInput::WaresPerMinute(rt) ==> rt.wf()),
        ensures
            ({
                let spec_r = spec_calc(
                    self@,
                    demands_view(desired_outputs@),
                    strings_view(prioritylist@),
                    strings_view(blacklist@),
                );
                match r {
                    Ok(rows) => spec_r == Ok::<
                        Seq<(Seq<char>, Rate, CountsOutputV, SingleWareV)>,
                        DataErrorV,
                    >(rows_view(rows@)),
                    Err(e) => spec_r == Err::<
                        Seq<(Seq<char>, Rate, CountsOutputV, SingleWareV)>,
                        DataErrorV,
                    >(e@),
                }
            }),
    {
        let ghost dv = demands_view(desired_outputs@);
        let ghost plv0 = strings_view(prioritylist@);
        let ghost blv0 = strings_view(blacklist@);
        let ghost waresv = self@.wares.id_to_dsc;
        let ghost trv = self@.translations;
        let (items, tpl, tbl) = match self.validate_and_untranslate(
            desired_outputs,
            prioritylist,
            blacklist,
        ) {
            Ok(t) => t,
            Err(e) => {
                return Err(e);
            },
        };
        proof {
            let names = dv.map_values(|p: (Seq<char>, CountsInput)| p.0) + plv0 + blv0;
            match spec_reverse_map(trv.table, names, Seq::empty()) {
                Ok(mv) => {
                    lemma_lookup_pairs_kinds(mv, dv);
                },
                Err(_) => {},
            }
        }
        let ghost iv = demands_view(items@);
        let ghost tplv = strings_view(tpl@);
        let ghost tblv = strings_view(tbl@);
        let mut fabrics = Fabrics::new(&self.wares);
        proof {
            assert(iv.skip(0) =~= iv);
            assert(acc_view(fabrics.acc@) =~= Seq::<AccEntryV>::empty());
        }
        let mut i: usize = 0;
        while i < items.len()
            invariant
                iv == demands_view(items@),
                tplv == strings_view(tpl@),
                tblv == strings_view(tbl@),
                dv == demands_view(desired_outputs@),
                plv0 == strings_view(prioritylist@),
                blv0 == strings_view(blacklist@),
                trv == self@.translations,
                spec_validate(self@, dv, plv0, blv0) == Ok::<
                    (Seq<(Seq<char>, CountsInput)>, Seq<Seq<char>>, Seq<Seq<char>>),
                    DataErrorV,
                >((iv, tplv, tblv)),
                waresv == self@.wares.id_to_dsc,
                fabrics.wares == &self.wares,
                fabrics.wf(),
                0 <= i <= items@.len(),
                forall|k: int|
                    0 <= k < iv.len() ==> ((#[trigger] iv[k].1) matches
                        CountsInput::WaresPerMinute(rt) ==> rt.wf()),
                match spec_run_demands(waresv, acc_view(fabrics.acc@), iv.skip(i as int),
                    tplv, tblv) {
                    Ok(done) => spec_run_demands(waresv, Seq::empty(), iv, tplv, tblv)
                        == Ok::<Seq<AccEntryV>, DataErrorV>(done),
                    Err(e) => spec_run_demands(waresv, Seq::empty(), iv, tplv, tblv)
                        == Err::<Seq<AccEntryV>, DataErrorV>(e),
                },
            decreases items@.len() - i,
        {
            proof {
                assert(iv.skip(i as int)[0] == iv[i as int]);
                assert(iv.skip(i as int).drop_first() =~= iv.skip(i + 1));
            }
            let step = match items[i].1 {
                CountsInput::Fabrics(n) => fabrics.add_fabrics(&items[i].0, n, &tpl, &tbl),
                CountsInput::WaresPerMinute(rt) => fabrics.add_wares(
                    &items[i].0,
                    &rt,
                    &tpl,
                    &tbl,
                ),
            };
            match step {
                Ok(_) => {},
                Err(e) => {
                    return Err(e);
                },
            }
            i = i + 1;
        }
        let acc = fabrics.into_acc();
        let ghost entries = acc_view(acc@);
        let mut rows: Vec<(String, Rate, CountsOutput, SingleWare)> = Vec::new();
        proof {
            assert(entries.skip(0) =~= entries);
            assert(rows_view(rows@) =~= Seq::<
                (Seq<char>, Rate, CountsOutputV, SingleWareV),
            >::empty());
        }
        let mut j: usize = 0;
        while j < acc.len()
            invariant
                entries == acc_view(acc@),
                waresv == self@.wares.id_to_dsc,
                trv == self@.translations,
                dv == demands_view(desired_outputs@),
                plv0 == strings_view(prioritylist@),
                blv0 == strings_view(blacklist@),
                spec_validate(self@, dv, plv0, blv0) == Ok::<
                    (Seq<(Seq<char>, CountsInput)>, Seq<Seq<char>>, Seq<Seq<char>>),
                    DataErrorV,
                >((iv, tplv, tblv)),
                spec_run_demands(waresv, Seq::empty(), iv, tplv, tblv) == Ok::<
                    Seq<AccEntryV>,
                    DataErrorV,
                >(entries),
                0 <= j <= acc@.len(),
                match spec_report(waresv, trv, entries.skip(j as int), rows_view(rows@)) {
                    Ok(done) => spec_report(waresv, trv, entries, Seq::empty()) == Ok::<
                        Seq<(Seq<char>, Rate, CountsOutputV, SingleWareV)>,
                        DataErrorV,
                    >(done),
                    Err(e) => spec_report(waresv, trv, entries, Seq::empty()) == Err::<
                        Seq<(Seq<char>, Rate, CountsOutputV, SingleWareV)>,
                        DataErrorV,
                    >(e),
                },
            decreases acc@.len() - j,
        {
            proof {
                assert(entries.skip(j as int)[0] == entries[j as int]);
                assert(entries.skip(j as int).drop_first() =~= entries.skip(j + 1));
            }
            let ware_ref = match self.wares.get(&acc[j].2.ware_id) {
                Ok(w) => w,
                Err(e) => {
                    return Err(e);
                },
            };
            let ware = clone_ware(ware_ref);
            let mut name: String = acc[j].0.clone();
            let _found = self.translations.replace_if_exists(&mut name);
            let out_kind: CountsOutput = match acc[j].3 {
                Some((c, prod)) => {
                    let mut m: String = prod.method.clone();
                    let _mfound = self.translations.replace_if_exists(&mut m);
                    CountsOutput::Produce(m, c)
                },
                None => CountsOutput::Import,
            };
            let ghost pre = rows_view(rows@);
            rows.push((name, acc[j].1, out_kind, ware));
            proof {
                assert(rows_view(rows@) =~= pre.push(
                    (
                        rows@.last().0@,
                        rows@.last().1,
                        rows@.last().2@,
                        rows@.last().3@,
                    ),
                ));
            }
            j = j + 1;
        }
        Ok(rows)
    }
}


/// A requested name that any language's item map holds - whether or not it
/// is the desired or default language - always resolves to some item id;
/// only a name present in no language fails.
pub proof fn lemma_reverse_find_complete(
    table: Seq<(Seq<char>, Seq<(Seq<char>, Seq<char>)>)>,
    usr: Seq<char>,
    i: int,
    k: int,
)
    requires
        0 <= i < table.len(),
        0 <= k < table[i].1.len(),
        table[i].1[k].1 == usr,
    ensures
        spec_reverse_find(table, usr) is Some,
    decreases table.len(),
{
    if i == 0 {
        lemma_reverse_find_in_complete(table[0].1, usr, k);
    } else {
        match spec_reverse_find_in(table[0].1, usr) {
            Some(_) => {},
            None => {
                lemma_reverse_find_complete(table.drop_first(), usr, i - 1, k);
            },
        }
    }
}

pub proof fn lemma_reverse_find_in_complete(
    items: Seq<(Seq<char>, Seq<char>)>,
    usr: Seq<char>,
    k: int,
)
    requires
        0 <= k < items.len(),
        items[k].1 == usr,
    ensures
        spec_reverse_find_in(items, usr) is Some,
    decreases items.len(),
{
    if items[0].1 != usr {
        lemma_reverse_find_in_complete(items.drop_first(), usr, k - 1);
    }
}


/// A binding present in the association stays, with the same item, under a
/// push of a new pair.
pub proof fn lemma_items_get_push(
    acc: Seq<(Seq<char>, Seq<char>)>,
    x: (Seq<char>, Seq<char>),
    key: Seq<char>,
)
    ensures
        spec_items_get(acc, key) is Some ==> spec_items_get(acc.push(x), key)
            == spec_items_get(acc, key),
        spec_items_get(acc, key) is None && key == x.0 ==> spec_items_get(acc.push(x), key)
            == Some(x.1),
        spec_items_get(acc, key) is None && key != x.0 ==> spec_items_get(acc.push(x), key)
            is None,
    decreases acc.len(),
{
    if acc.len() == 0 {
        assert(acc.push(x).drop_first() =~= Seq::<(Seq<char>, Seq<char>)>::empty());
    } else {
        assert(acc.push(x).drop_first() =~= acc.drop_first().push(x));
        lemma_items_get_push(acc.drop_first(), x, key);
    }
}

/// A resolved batch keeps every binding the accumulator already had.
pub proof fn lemma_reverse_map_preserves(
    table: Seq<(Seq<char>, Seq<(Seq<char>, Seq<char>)>)>,
    inputs: Seq<Seq<char>>,
    acc: Seq<(Seq<char>, Seq<char>)>,
    key: Seq<char>,
)
    requires
        spec_reverse_map(table, inputs, acc) is Ok,
        spec_items_get(acc, key) is Some,
    ensures
        spec_items_get(spec_reverse_map(table, inputs, acc)->Ok_0, key) == spec_items_get(
            acc,
            key,
        ),
    decreases inputs.len(),
{
    if inputs.len() > 0 {
        let u = inputs[0];
        if spec_items_get(acc, u) is Some {
            lemma_reverse_map_preserves(table, inputs.drop_first(), acc, key);
        } else {
            match spec_reverse_find(table, u) {
                None => {},
                Some(item) => {
                    lemma_items_get_push(acc, (u, item), key);
                    lemma_reverse_map_preserves(
                        table,
                        inputs.drop_first(),
                        acc.push((u, item)),
                        key,
                    );
                },
            }
        }
    }
}

/// Every name of a resolved batch is bound in the result: names that any
/// language knows - the desired and default languages included, but also
/// every other one - resolve, and only a batch whose every name resolves
/// comes back at all.
pub proof fn lemma_reverse_map_binds_inputs(
    table: Seq<(Seq<char>, Seq<(Seq<char>, Seq<char>)>)>,
    inputs: Seq<Seq<char>>,
    acc: Seq<(Seq<char>, Seq<char>)>,
)
    requires
        spec_reverse_map(table, inputs, acc) is Ok,
    ensures
        forall|k: int|
            0 <= k < inputs.len() ==> spec_items_get(
                spec_reverse_map(table, inputs, acc)->Ok_0,
                #[trigger] inputs[k],
            ) is Some,
    decreases inputs.len(),
{
    if inputs.len() > 0 {
        let u = inputs[0];
        let acc2: Seq<(Seq<char>, Seq<char>)> = if spec_items_get(acc, u) is Some {
            acc
        } else {
            acc.push((u, spec_reverse_find(table, u)->Some_0))
        };
        if spec_items_get(acc, u) is None {
            lemma_items_get_push(acc, (u, spec_reverse_find(table, u)->Some_0), u);
        }
        lemma_reverse_map_binds_inputs(table, inputs.drop_first(), acc2);
        lemma_reverse_map_preserves(table, inputs.drop_first(), acc2, u);
        assert(forall|k: int|
            1 <= k < inputs.len() ==> inputs.drop_first()[k - 1] == #[trigger] inputs[k]);
    }
}

/// Every binding of a resolved batch is sound: it either was in the
/// accumulator already, or it is what scanning the languages in table order
/// finds for that name - so each mapped item id carries, in some language,
/// exactly the requested text.
pub proof fn lemma_reverse_map_sound(
    table: Seq<(Seq<char>, Seq<(Seq<char>, Seq<char>)>)>,
    inputs: Seq<Seq<char>>,
    acc: Seq<(Seq<char>, Seq<char>)>,
    key: Seq<char>,
)
    requires
        spec_reverse_map(table, inputs, acc) is Ok,
        spec_items_get(spec_reverse_map(table, inputs, acc)->Ok_0, key) is Some,
    ensures
        spec_items_get(acc, key) == spec_items_get(
            spec_reverse_map(table, inputs, acc)->Ok_0,
            key,
        ) || spec_reverse_find(table, key) == Some(
            spec_items_get(spec_reverse_map(table, inputs, acc)->Ok_0, key)->Some_0,
        ),
    decreases inputs.len(),
{
    if inputs.len() > 0 {
        let u = inputs[0];
        if spec_items_get(acc, u) is Some {
            lemma_reverse_map_sound(table, inputs.drop_first(), acc, key);
        } else {
            match spec_reverse_find(table, u) {
                None => {},
                Some(item) => {
                    lemma_items_get_push(acc, (u, item), key);
                    lemma_reverse_map_sound(
                        table,
                        inputs.drop_first(),
                        acc.push((u, item)),
                        key,
                    );
                },
            }
        }
    }
}

} // verus!
