//! Production planner for a crafting game: loads a ware/recipe catalog and a
//! localization table out of large semi-structured documents, resolves
//! localized names back to internal ids, and computes for a set of demands the
//! minimal integer number of production facilities per ware.

use vstd::prelude::*;

pub mod catalog;
pub mod config;
pub mod counts;
pub mod data;
pub mod engine;
pub mod errors;
pub mod extract;
pub mod langs;
pub mod rates;
pub mod text;
pub mod translations;
pub mod xml;

pub use counts::{CountsInput, CountsOutput};
pub use errors::{ConfigError, DataError, Error, UiStringsError};

verus! {

use crate::catalog::{SingleWare, SingleWareV, strings_view, wares_wf};
use crate::counts::CountsOutputV;
use crate::data::{Data, demands_view, rows_view, spec_calc};
use crate::rates::Rate;

/// One demanded ware, by localized name, with its demand kind.
#[derive(Debug, Clone)]
pub struct WareRequest {
    pub name: String,
    pub production_kind: CountsInput,
}

impl WareRequest {
    /// The request as a plain pair.
    pub fn into_tuple(self) -> (r: (String, CountsInput))
        ensures
            r.0 == self.name,
            r.1 == self.production_kind,
    {
        (self.name, self.production_kind)
    }
}

/// One report line: localized name, accumulated throughput, and the
/// production decision.
#[derive(Debug, Clone)]
pub struct WareResponse {
    pub name: String,
    pub wares_per_minute: Rate,
    pub counts_output: CountsOutput,
}

/// A report line together with the demanded ware's full catalog detail.
#[derive(Debug, Clone)]
pub struct WareResponseExt {
    pub response: WareResponse,
    pub ext: SingleWare,
}

impl WareResponseExt {
    /// Builds a report line from the resolver's plain row.
    pub fn from_tuple(row: (String, Rate, CountsOutput, SingleWare)) -> (r: WareResponseExt)
        ensures
            r.response.name == row.0,
            r.response.wares_per_minute == row.1,
            r.response.counts_output == row.2,
            r.ext == row.3,
    {
        let (name, wares_per_minute, counts_output, ext) = row;
        WareResponseExt { response: WareResponse { name, wares_per_minute, counts_output }, ext }
    }
}

/// The planner: the loaded game data, ready to answer demand requests.
pub struct X4ProductionPlanner {
    pub data: Data,
}

impl X4ProductionPlanner {
    /// Builds a planner from the two raw document texts.
    pub fn new_from_data_str(wares_xml_str: String, translation_xml_str: String) -> (r: Result<
        X4ProductionPlanner,
        Error,
    >)
        ensures
            match r {
                Ok(p) => {
                    &&& crate::data::spec_load_wares_and_langs(wares_xml_str@) matches Ok(
                        (w, langs),
                    ) && p.data@.wares == w && crate::data::spec_load_translations(
                        translation_xml_str@,
                        w,
                        langs,
                    ) == Ok::<
                        crate::translations::TranslationsV,
                        Option<crate::errors::DataErrorV>,
                    >(p.data@.translations)
                    &&& wares_wf(p.data@.wares.id_to_dsc)
                },
                Err(e) => e matches Error::DataError(de) && crate::data::spec_load_data_err(
                    wares_xml_str@,
                    translation_xml_str@,
                    de@,
                ),
            },
    {
        match Data::load_data_str(wares_xml_str, translation_xml_str) {
            Ok(data) => Ok(X4ProductionPlanner { data }),
            Err(e) => Err(Error::DataError(e)),
        }
    }

    /// Answers one demand request, optionally switching the display
    /// language first.
    pub fn calc_required_fabric_counts(
        &mut self,
        desired_unicode_id_opt: Option<String>,
        desired_outputs: Vec<WareRequest>,
        prioritylist: Vec<String>,
        blacklist: Vec<String>,
    ) -> (r: Result<Vec<WareResponseExt>, Error>)
        requires
            wares_wf(old(self).data@.wares.id_to_dsc),
            forall|k: int|
                0 <= k < desired_outputs@.len() ==> ((
                #[trigger] desired_outputs@[k].production_kind) matches
                    CountsInput::WaresPerMinute(rt) ==> rt.wf()),
        ensures
            final(self).data@.wares == old(self).data@.wares,
            final(self).data@.translations.table == old(self).data@.translations.table,
            final(self).data@.translations.desired_unicode_id == match desired_unicode_id_opt {
                Some(l) => l@,
                None => old(self).data@.translations.desired_unicode_id,
            },
            ({
                let d = final(self).data@;
                let dv = desired_outputs@.map_values(
                    |w: WareRequest| (w.name@, w.production_kind),
                );
                let spec_r = spec_calc(
                    d,
                    dv,
                    strings_view(prioritylist@),
                    strings_view(blacklist@),
                );
                match r {
                    Ok(rows) => spec_r matches Ok(sv) && sv == rows@.map_values(
                        |w: WareResponseExt| (
                            w.response.name@,
                            w.response.wares_per_minute,
                            w.response.counts_output@,
                            w.ext@,
                        ),
                    ),
                    Err(e) => e matches Error::DataError(de) && spec_r == Err::<
                        Seq<(Seq<char>, Rate, CountsOutputV, SingleWareV)>,
                        crate::errors::DataErrorV,
                    >(de@),
                }
            }),
    {
        match desired_unicode_id_opt {
            Some(desired_unicode_id) => {
                self.data.set_desired_unicode_id(desired_unicode_id);
            },
            None => {},
        }
        let mut input: Vec<(String, CountsInput)> = Vec::new();
        let mut i: usize = 0;
        while i < desired_outputs.len()
            invariant
                0 <= i <= desired_outputs@.len(),
                input@.len() == i,
                forall|t: int|
                    0 <= t < i ==> (#[trigger] input@[t]).0 == desired_outputs@[t].name
                        && input@[t].1 == desired_outputs@[t].production_kind,
            decreases desired_outputs@.len() - i,
        {
            input.push((desired_outputs[i].name.clone(), desired_outputs[i].production_kind));
            i = i + 1;
        }
        proof {
            assert(demands_view(input@) =~= desired_outputs@.map_values(
                |w: WareRequest| (w.name@, w.production_kind),
            ));
        }
        let result = match self.data.calc_required_fabric_counts(
            &input,
            &prioritylist,
            &blacklist,
        ) {
            Ok(rows) => rows,
            Err(e) => {
                return Err(Error::DataError(e));
            },
        };
        let mut out: Vec<WareResponseExt> = Vec::new();
        let ghost rowsv = rows_view(result@);
        let mut j: usize = 0;
        while j < result.len()
            invariant
                rowsv == rows_view(result@),
                0 <= j <= result@.len(),
                out@.len() == j,
                forall|t: int|
                    0 <= t < j ==> (#[trigger] out@[t]).response.name@ == rowsv[t].0 && out@[
                        t].response.wares_per_minute == rowsv[t].1 && out@[
                        t].response.counts_output@ == rowsv[t].2 && out@[t].ext@ == rowsv[t].3,
            decreases result@.len() - j,
        {
            let row = take_row(&result, j);
            out.push(WareResponseExt::from_tuple(row));
            j = j + 1;
        }
        proof {
            assert(out@.map_values(
                |w: WareResponseExt| (
                    w.response.name@,
                    w.response.wares_per_minute,
                    w.response.counts_output@,
                    w.ext@,
                ),
            ) =~= rowsv);
        }
        Ok(out)
    }
}

/// Copies one report row out by value, preserving its view.
fn take_row(rows: &Vec<(String, Rate, CountsOutput, SingleWare)>, j: usize) -> (r: (
    String,
    Rate,
    CountsOutput,
    SingleWare,
))
    requires
        j < rows@.len(),
    ensures
        r.0@ == rows@[j as int].0@,
        r.1 == rows@[j as int].1,
        r.2@ == rows@[j as int].2@,
        r.3@ == rows@[j as int].3@,
{
    let name = rows[j].0.clone();
    let out_kind = match &rows[j].2 {
        CountsOutput::Produce(m, c) => CountsOutput::Produce(m.clone(), *c),
        CountsOutput::Import => CountsOutput::Import,
    };
    let ware = crate::data::clone_ware(&rows[j].3);
    (name, rows[j].1, out_kind, ware)
}

} // verus!
