//! Demand resolution: a ware-id-keyed accumulator into which demands are
//! merged, with incremental delta propagation to input wares.
//!
//! Merging demand for a ware recomputes its facility count; only when the
//! count actually grows is the difference propagated to the ware's inputs,
//! so already-satisfied downstream demand is never re-derived. The exec code
//! mirrors [`spec_add_wares`] exactly, which also states that property.

use vstd::prelude::*;
use crate::catalog::{
    SingleWare, SingleWareInfo, SingleWareInfoV, SingleWareProduction, SingleWareProductionV,
    SingleWareV, Wares, method_wf, spec_assoc, spec_find_desired, strings_view, wares_wf,
    lemma_find_desired_is_method,
};
use crate::errors::{DataError, DataErrorV};
use crate::rates::{
    Rate, fabrics_count, rate_add, rate_reduce, spec_fabrics_count, spec_gcd,
    spec_rate_add, spec_rate_reduce, lemma_gcd_pos, lemma_gcd_divides, lemma_divides_bounds,
};

verus! {

/// The per-facility throughput of a method: per-cycle output over the cycle
/// time in minutes, as a reduced exact fraction.
pub open spec fn spec_wares_per_minute(m: SingleWareProductionV) -> Option<Rate> {
    spec_rate_reduce(m.wares_per_cicle * 60000, m.cicle_milliseconds as int)
}

/// The facility count a method needs for a desired throughput.
pub open spec fn spec_fabrics_of(m: SingleWareProductionV, desired: Rate) -> Option<usize> {
    match spec_wares_per_minute(m) {
        None => None,
        Some(per) => spec_fabrics_count(desired, per),
    }
}

/// A well-formed method always has a well-formed, positive per-facility rate.
pub proof fn lemma_wares_per_minute_wf(m: SingleWareProductionV)
    requires
        method_wf(m),
    ensures
        spec_wares_per_minute(m) is Some,
        spec_wares_per_minute(m)->Some_0.wf(),
        1 <= spec_wares_per_minute(m)->Some_0.num,
{
    let s = m.wares_per_cicle * 60000;
    let d = m.cicle_milliseconds as int;
    assert(60000 <= s <= 0xFFFF_FFFFu64 * 60000) by (nonlinear_arith)
        requires
            1 <= m.wares_per_cicle <= 0xFFFF_FFFFu64,
            s == m.wares_per_cicle * 60000,
    ;
    let g = spec_gcd(s as nat, d as nat) as int;
    lemma_gcd_pos(s as nat, d as nat);
    lemma_gcd_divides(s as nat, d as nat);
    lemma_divides_bounds(g, s);
    lemma_divides_bounds(g, d);
}

/// `a` denotes a rational no greater than `b` (cross-multiplication).
pub open spec fn rate_le(a: Rate, b: Rate) -> bool {
    a.num * b.den <= b.num * a.den
}

/// Adding a rate never lowers the total.
pub proof fn lemma_rate_add_ge(a: Rate, r: Rate)
    requires
        a.wf(),
        r.wf(),
        spec_rate_add(a, r) is Some,
    ensures
        rate_le(a, spec_rate_add(a, r)->Some_0),
{
    let s = a.num * r.den + r.num * a.den;
    let d = a.den * r.den;
    assert(1 <= d && 0 <= s) by (nonlinear_arith)
        requires
            a.den >= 1,
            r.den >= 1,
            a.num >= 0,
            r.num >= 0,
            d == a.den * r.den,
            s == a.num * r.den + r.num * a.den,
    ;
    crate::rates::lemma_rate_reduce_eqv(s, d);
    let nr = spec_rate_add(a, r)->Some_0;
    assert(nr.num * d == s * nr.den);
    assert(a.num * nr.den <= nr.num * a.den) by (nonlinear_arith)
        requires
            nr.num * (a.den * r.den) == (a.num * r.den + r.num * a.den) * nr.den,
            a.num >= 0,
            r.num >= 0,
            a.den >= 1,
            r.den >= 1,
            nr.den >= 1,
            nr.num >= 0,
    ;
}

/// A larger desired throughput never needs fewer facilities.
pub proof fn lemma_fabrics_count_monotone(a: Rate, b: Rate, per: Rate)
    requires
        a.wf(),
        b.wf(),
        per.wf(),
        1 <= per.num,
        rate_le(a, b),
        spec_fabrics_count(a, per) is Some,
        spec_fabrics_count(b, per) is Some,
    ensures
        spec_fabrics_count(a, per)->Some_0 <= spec_fabrics_count(b, per)->Some_0,
{
    let x1 = a.num * per.den;
    let y1 = a.den * per.num;
    let x2 = b.num * per.den;
    let y2 = b.den * per.num;
    let ca = crate::rates::spec_ceil_div(x1, y1);
    let cb = crate::rates::spec_ceil_div(x2, y2);
    assert(1 <= y1 && 1 <= y2 && 0 <= x1 && 0 <= x2) by (nonlinear_arith)
        requires
            a.num >= 0,
            b.num >= 0,
            per.den >= 1,
            a.den >= 1,
            b.den >= 1,
            per.num >= 1,
            x1 == a.num * per.den,
            y1 == a.den * per.num,
            x2 == b.num * per.den,
            y2 == b.den * per.num,
    ;
    assert(x1 * y2 <= x2 * y1) by (nonlinear_arith)
        requires
            a.num * b.den <= b.num * a.den,
            per.den >= 1,
            per.num >= 1,
            x1 == a.num * per.den,
            y1 == a.den * per.num,
            x2 == b.num * per.den,
            y2 == b.den * per.num,
    ;
    crate::rates::lemma_ceil_div_monotone(x1, y1, x2, y2);
}

/// Line-by-line growth of the accumulator: nothing removed, identities and
/// chosen methods kept, accumulated rates and facility counts never lower.
pub open spec fn entry_extends(o: AccEntryV, n: AccEntryV) -> bool {
    &&& n.ware_id == o.ware_id
    &&& n.info == o.info
    &&& rate_le(o.wares_per_minute, n.wares_per_minute)
    &&& match (o.production, n.production) {
        (Option::None, Option::None) => true,
        (Option::Some((oc, op)), Option::Some((nc, np))) => np == op && oc <= nc,
        _ => false,
    }
}

pub open spec fn acc_extends(o: Seq<AccEntryV>, n: Seq<AccEntryV>) -> bool {
    &&& o.len() <= n.len()
    &&& forall|i: int| 0 <= i < o.len() ==> entry_extends(o[i], #[trigger] n[i])
}

pub proof fn lemma_acc_extends_refl(o: Seq<AccEntryV>)
    ensures
        acc_extends(o, o),
{
}

/// Growth composes, when the middle state's rates have positive
/// denominators.
pub proof fn lemma_acc_extends_trans(a: Seq<AccEntryV>, b: Seq<AccEntryV>, c: Seq<AccEntryV>)
    requires
        acc_extends(a, b),
        acc_extends(b, c),
        forall|i: int| 0 <= i < b.len() ==> 1 <= (#[trigger] b[i]).wares_per_minute.den,
    ensures
        acc_extends(a, c),
{
    assert forall|i: int| 0 <= i < a.len() implies entry_extends(a[i], #[trigger] c[i]) by {
        assert(entry_extends(a[i], b[i]));
        assert(entry_extends(b[i], c[i]));
        let ra = a[i].wares_per_minute;
        let rb = b[i].wares_per_minute;
        let rc = c[i].wares_per_minute;
        assert(ra.num * rc.den <= rc.num * ra.den) by (nonlinear_arith)
            requires
                ra.num * rb.den <= rb.num * ra.den,
                rb.num * rc.den <= rc.num * rb.den,
                rb.den >= 1,
                ra.num >= 0,
                rb.num >= 0,
                rc.num >= 0,
                ra.den >= 0,
                rc.den >= 0,
        ;
    }
}

/// One accumulator line carries a well-formed rate, and with a production
/// decision also a well-formed method whose facility count is exactly the
/// count its rate demands.
pub open spec fn entry_ok(e: AccEntryV) -> bool {
    &&& e.wares_per_minute.wf()
    &&& match e.production {
        Option::Some((c, p)) => method_wf(p) && spec_fabrics_of(p, e.wares_per_minute)
            == Some(c),
        Option::None => true,
    }
}

/// At most one accumulator line per ware id.
pub open spec fn acc_ids_unique(acc: Seq<AccEntryV>) -> bool {
    forall|i: int, j: int|
        0 <= i < j < acc.len() ==> (#[trigger] acc[i]).ware_id != (#[trigger] acc[j]).ware_id
}

/// One line of the accumulator, at the level of views.
pub struct AccEntryV {
    pub ware_id: Seq<char>,
    pub wares_per_minute: Rate,
    pub info: SingleWareInfoV,
    pub production: Option<(usize, SingleWareProductionV)>,
}

/// One line of the accumulator: demanded ware, accumulated throughput, the
/// ware's static info, and the production decision (absent means import).
pub type AccEntry<'a> = (String, Rate, &'a SingleWareInfo, Option<(usize, &'a SingleWareProduction)>);

pub open spec fn entry_view<'a>(e: AccEntry<'a>) -> AccEntryV {
    AccEntryV {
        ware_id: e.0@,
        wares_per_minute: e.1,
        info: e.2@,
        production: match e.3 {
            Some((c, p)) => Some((c, p@)),
            None => None,
        },
    }
}

pub open spec fn acc_view<'a>(acc: Seq<AccEntry<'a>>) -> Seq<AccEntryV> {
    acc.map_values(|e: AccEntry<'a>| entry_view(e))
}

/// The first accumulator line for a ware id.
pub open spec fn spec_acc_find(acc: Seq<AccEntryV>, id: Seq<char>) -> Option<int>
    decreases acc.len(),
{
    if acc.len() == 0 {
        None
    } else if acc[0].ware_id == id {
        Some(0)
    } else {
        match spec_acc_find(acc.drop_first(), id) {
            Some(j) => Some(j + 1),
            None => None,
        }
    }
}

pub proof fn lemma_acc_find_props(acc: Seq<AccEntryV>, id: Seq<char>)
    ensures
        match spec_acc_find(acc, id) {
            Some(ix) => 0 <= ix < acc.len() && acc[ix].ware_id == id && forall|j: int|
                0 <= j < ix ==> (#[trigger] acc[j]).ware_id != id,
            None => forall|j: int| 0 <= j < acc.len() ==> (#[trigger] acc[j]).ware_id != id,
        },
    decreases acc.len(),
{
    if acc.len() > 0 && acc[0].ware_id != id {
        lemma_acc_find_props(acc.drop_first(), id);
        assert(forall|j: int|
            1 <= j < acc.len() ==> (#[trigger] acc[j]) == acc.drop_first()[j - 1]);
    }
}

/// The spec mirror of merging one demand into the accumulator. `fuel` bounds
/// the propagation depth; a catalog without dependency cycles never runs out
/// when started with one unit of fuel per ware.
pub open spec fn spec_add_wares(
    wares: Seq<(Seq<char>, SingleWareV)>,
    acc: Seq<AccEntryV>,
    id: Seq<char>,
    rate: Rate,
    pl: Seq<Seq<char>>,
    bl: Seq<Seq<char>>,
    fuel: nat,
) -> Result<Seq<AccEntryV>, DataErrorV>
    decreases fuel, 1nat, 0nat,
{
    if rate.num == 0 {
        Ok(acc)
    } else {
        match spec_acc_find(acc, id) {
            Some(ix) => {
                let entry = acc[ix];
                match spec_rate_add(entry.wares_per_minute, rate) {
                    None => Err(DataErrorV::NumericOverflow(id)),
                    Some(new_rate) => match entry.production {
                        None => Ok(
                            acc.update(
                                ix,
                                AccEntryV { wares_per_minute: new_rate, ..entry },
                            ),
                        ),
                        Some((prev_count, prod)) => match spec_fabrics_of(
                            prod,
                            new_rate,
                        ) {
                            None => Err(DataErrorV::NumericOverflow(id)),
                            Some(new_count) => {
                                let acc2 = acc.update(
                                    ix,
                                    AccEntryV {
                                        wares_per_minute: new_rate,
                                        production: Some((new_count, prod)),
                                        ..entry
                                    },
                                );
                                if new_count <= prev_count {
                                    Ok(acc2)
                                } else {
                                    spec_add_deps(
                                        wares,
                                        prod.wares_dependencies,
                                        acc2,
                                        (new_count - prev_count) as nat,
                                        prod.cicle_milliseconds,
                                        pl,
                                        bl,
                                        fuel,
                                    )
                                }
                            },
                        },
                    },
                }
            },
            None => match spec_assoc(wares, id) {
                None => Err(DataErrorV::UnknownWare(id)),
                Some(ware) => {
                    if ware.production_methods.len() == 0 {
                        Ok(
                            acc.push(
                                AccEntryV {
                                    ware_id: id,
                                    wares_per_minute: rate,
                                    info: ware.info,
                                    production: None,
                                },
                            ),
                        )
                    } else {
                        match spec_find_desired(
                            ware.production_methods,
                            pl,
                            bl,
                            ware.info.ware_id,
                        ) {
                            Err(e) => Err(e),
                            Ok(prod) => match spec_fabrics_of(prod, rate) {
                                None => Err(DataErrorV::NumericOverflow(id)),
                                Some(count) => {
                                    let acc2 = acc.push(
                                        AccEntryV {
                                            ware_id: id,
                                            wares_per_minute: rate,
                                            info: ware.info,
                                            production: Some((count, prod)),
                                        },
                                    );
                                    spec_add_deps(
                                        wares,
                                        prod.wares_dependencies,
                                        acc2,
                                        count as nat,
                                        prod.cicle_milliseconds,
                                        pl,
                                        bl,
                                        fuel,
                                    )
                                },
                            },
                        }
                    }
                },
            },
        }
    }
}

/// The spec mirror of propagating `count` facilities' worth of input demand
/// to each input ware, in order.
pub open spec fn spec_add_deps(
    wares: Seq<(Seq<char>, SingleWareV)>,
    deps: Seq<(Seq<char>, usize)>,
    acc: Seq<AccEntryV>,
    count: nat,
    cicle_ms: u64,
    pl: Seq<Seq<char>>,
    bl: Seq<Seq<char>>,
    fuel: nat,
) -> Result<Seq<AccEntryV>, DataErrorV>
    decreases fuel, 0nat, deps.len(),
{
    if deps.len() == 0 {
        Ok(acc)
    } else {
        let dname = deps[0].0;
        let damount = deps[0].1;
        match spec_rate_reduce(damount * 60000 * count, cicle_ms as int) {
            None => Err(DataErrorV::NumericOverflow(dname)),
            Some(dr) => {
                if fuel == 0 {
                    Err(DataErrorV::DependencyDepthExceeded(dname))
                } else {
                    match spec_add_wares(wares, acc, dname, dr, pl, bl, (fuel - 1) as nat) {
                        Err(e) => Err(e),
                        Ok(acc2) => spec_add_deps(
                            wares,
                            deps.drop_first(),
                            acc2,
                            count,
                            cicle_ms,
                            pl,
                            bl,
                            fuel,
                        ),
                    }
                }
            },
        }
    }
}

impl SingleWareProduction {
    /// The per-facility throughput of this method.
    pub fn wares_per_minute(&self) -> (r: Option<Rate>)
        requires
            1 <= self.cicle_milliseconds,
        ensures
            r == spec_wares_per_minute(self@),
    {
        proof {
            assert((self.wares_per_cicle as u128) * 60000u128 <= 0xFFFF_FFFF_FFFF_FFFFu128
                * 60000u128) by (nonlinear_arith)
                requires
                    self.wares_per_cicle <= 0xFFFF_FFFF_FFFF_FFFFu128,
            ;
        }
        let s: u128 = (self.wares_per_cicle as u128) * 60000u128;
        rate_reduce(s, self.cicle_milliseconds as u128)
    }

    /// The per-facility, per-minute demand this method places on each input.
    pub fn dependencies_per_minute(&self) -> (r: Option<Vec<(String, Rate)>>)
        requires
            1 <= self.cicle_milliseconds,
        ensures
            match r {
                Some(v) => {
                    &&& v@.len() == self@.wares_dependencies.len()
                    &&& forall|k: int|
                        0 <= k < v@.len() ==> (#[trigger] v@[k]).0@
                            == self@.wares_dependencies[k].0 && spec_rate_reduce(
                            self@.wares_dependencies[k].1 * 60000,
                            self@.cicle_milliseconds as int,
                        ) == Some(v@[k].1)
                },
                None => exists|k: int|
                    0 <= k < self@.wares_dependencies.len() && spec_rate_reduce(
                        (#[trigger] self@.wares_dependencies[k]).1 * 60000,
                        self@.cicle_milliseconds as int,
                    ) is None,
            },
    {
        let mut out: Vec<(String, Rate)> = Vec::new();
        let mut k: usize = 0;
        while k < self.wares_dependencies.len()
            invariant
                1 <= self.cicle_milliseconds,
                0 <= k <= self@.wares_dependencies.len(),
                out@.len() == k,
                forall|t: int|
                    0 <= t < k ==> (#[trigger] out@[t]).0@ == self@.wares_dependencies[t].0
                        && spec_rate_reduce(
                        self@.wares_dependencies[t].1 * 60000,
                        self@.cicle_milliseconds as int,
                    ) == Some(out@[t].1),
            decreases self@.wares_dependencies.len() - k,
        {
            proof {
                assert((self.wares_dependencies@[k as int].1 as u128) * 60000u128
                    <= 0xFFFF_FFFF_FFFF_FFFFu128 * 60000u128) by (nonlinear_arith)
                    requires
                        self.wares_dependencies@[k as int].1 <= 0xFFFF_FFFF_FFFF_FFFFu128,
                ;
            }
            let s: u128 = (self.wares_dependencies[k].1 as u128) * 60000u128;
            match rate_reduce(s, self.cicle_milliseconds as u128) {
                Some(dr) => {
                    out.push((self.wares_dependencies[k].0.clone(), dr));
                },
                None => {
                    proof {
                        assert(spec_rate_reduce(
                            self@.wares_dependencies[k as int].1 * 60000,
                            self@.cicle_milliseconds as int,
                        ) is None);
                    }
                    return None;
                },
            }
            k = k + 1;
        }
        Some(out)
    }

    /// The minimal facility count for a desired throughput of this method.
    pub fn fabrics_count_from_desired_wares_per_minute(&self, desired: &Rate) -> (r: Option<
        usize,
    >)
        requires
            method_wf(self@),
            desired.wf(),
        ensures
            r == spec_fabrics_of(self@, *desired),
    {
        proof {
            lemma_wares_per_minute_wf(self@);
        }
        match self.wares_per_minute() {
            Some(per) => fabrics_count(desired, &per),
            None => None,
        }
    }
}


/// The demand accumulator for one resolution call.
pub struct Fabrics<'a> {
    pub wares: &'a Wares,
    pub acc: Vec<AccEntry<'a>>,
}

impl<'a> Fabrics<'a> {
    /// Every line is sound ([`entry_ok`]), each ware id has at most one
    /// line, and the catalog itself is well-formed.
    pub open spec fn wf(self) -> bool {
        &&& wares_wf(self.wares@.id_to_dsc)
        &&& forall|i: int|
            0 <= i < self.acc@.len() ==> entry_ok(#[trigger] acc_view(self.acc@)[i])
        &&& acc_ids_unique(acc_view(self.acc@))
    }

    pub fn new(wares: &'a Wares) -> (r: Fabrics<'a>)
        requires
            wares_wf(wares@.id_to_dsc),
        ensures
            r.wf(),
            r.wares == wares,
            r.acc@.len() == 0,
    {
        let r = Fabrics { wares, acc: Vec::new() };
        proof {
            assert(acc_view(r.acc@) =~= Seq::<AccEntryV>::empty());
        }
        r
    }

    /// Surrenders the accumulated report lines.
    pub fn into_acc(self) -> (r: Vec<AccEntry<'a>>)
        ensures
            r == self.acc,
    {
        self.acc
    }

    /// The first accumulator line for a ware id, if any.
    fn find_index(&self, ware_id: &String) -> (r: Option<usize>)
        ensures
            match r {
                Some(i) => spec_acc_find(acc_view(self.acc@), ware_id@) == Some(i as int),
                None => spec_acc_find(acc_view(self.acc@), ware_id@) is None,
            },
    {
        let mut i: usize = 0;
        while i < self.acc.len()
            invariant
                0 <= i <= self.acc@.len(),
                forall|j: int|
                    0 <= j < i ==> (#[trigger] acc_view(self.acc@)[j]).ware_id != ware_id@,
            decreases self.acc@.len() - i,
        {
            if self.acc[i].0 == *ware_id {
                proof {
                    lemma_acc_find_props(acc_view(self.acc@), ware_id@);
                    assert(acc_view(self.acc@)[i as int].ware_id == ware_id@);
                }
                return Some(i);
            }
            proof {
                assert(acc_view(self.acc@)[i as int].ware_id == self.acc@[i as int].0@);
            }
            i = i + 1;
        }
        proof {
            lemma_acc_find_props(acc_view(self.acc@), ware_id@);
        }
        None
    }

    /// Merges a demand of `wares_per_minute` for `ware_id`, propagating any
    /// facility-count increase to the ware's inputs. `fuel` bounds the
    /// propagation depth.
    pub fn add_wares_rec(
        &mut self,
        ware_id: &String,
        wares_per_minute: &Rate,
        prioritylist: &Vec<String>,
        blacklist: &Vec<String>,
        fuel: usize,
    ) -> (r: Result<(), DataError>)
        requires
            old(self).wf(),
            wares_per_minute.wf(),
        ensures
            final(self).wares == old(self).wares,
            final(self).wf(),
            acc_extends(acc_view(old(self).acc@), acc_view(final(self).acc@)),
            match r {
                Ok(_) => spec_add_wares(
                    old(self).wares@.id_to_dsc,
                    acc_view(old(self).acc@),
                    ware_id@,
                    *wares_per_minute,
                    strings_view(prioritylist@),
                    strings_view(blacklist@),
                    fuel as nat,
                ) == Ok::<Seq<AccEntryV>, DataErrorV>(acc_view(final(self).acc@)),
                Err(e) => spec_add_wares(
                    old(self).wares@.id_to_dsc,
                    acc_view(old(self).acc@),
                    ware_id@,
                    *wares_per_minute,
                    strings_view(prioritylist@),
                    strings_view(blacklist@),
                    fuel as nat,
                ) == Err::<Seq<AccEntryV>, DataErrorV>(e@),
            },
        decreases fuel,
    {
        let ghost wares0 = self.wares@.id_to_dsc;
        let ghost acc0 = acc_view(self.acc@);
        let ghost plv = strings_view(prioritylist@);
        let ghost blv = strings_view(blacklist@);
        if wares_per_minute.num == 0 {
            proof {
                lemma_acc_extends_refl(acc0);
            }
            return Ok(());
        }
        match self.find_index(ware_id) {
            Some(i) => {
                proof {
                    lemma_acc_find_props(acc0, ware_id@);
                }
                let entry_rate: Rate = self.acc[i].1;
                let entry_prod: Option<(usize, &'a SingleWareProduction)> = self.acc[i].3;
                let new_rate: Rate = match rate_add(&entry_rate, wares_per_minute) {
                    Some(nr) => nr,
                    None => {
                        proof {
                            lemma_acc_extends_refl(acc0);
                        }
                        return Err(DataError::NumericOverflow(ware_id.clone()));
                    },
                };
                match entry_prod {
                    None => {
                        let old_entry_id: String = self.acc[i].0.clone();
                        let old_info: &'a SingleWareInfo = self.acc[i].2;
                        let ghost pre = acc_view(self.acc@);
                        self.acc.set(i, (old_entry_id, new_rate, old_info, None));
                        proof {
                            assert(acc_view(self.acc@) =~= pre.update(
                                i as int,
                                AccEntryV { wares_per_minute: new_rate, ..pre[i as int] },
                            ));
                            assert(entry_ok(pre[i as int]));
                            assert forall|t: int|
                                0 <= t < acc_view(self.acc@).len() implies entry_ok(
                                #[trigger] acc_view(self.acc@)[t],
                            ) by {
                                if t != i {
                                    assert(acc_view(self.acc@)[t] == pre[t]);
                                    assert(entry_ok(pre[t]));
                                }
                            }
                            assert forall|t1: int, t2: int|
                                0 <= t1 < t2 < acc_view(self.acc@).len() implies (
                            #[trigger] acc_view(self.acc@)[t1]).ware_id != (
                            #[trigger] acc_view(self.acc@)[t2]).ware_id by {
                                assert(acc_view(self.acc@)[t1].ware_id == pre[t1].ware_id);
                                assert(acc_view(self.acc@)[t2].ware_id == pre[t2].ware_id);
                            }
                            lemma_rate_add_ge(pre[i as int].wares_per_minute, *wares_per_minute);
                            assert forall|t: int|
                                0 <= t < pre.len() implies entry_extends(
                                pre[t],
                                #[trigger] acc_view(self.acc@)[t],
                            ) by {
                                if t != i {
                                    assert(acc_view(self.acc@)[t] == pre[t]);
                                }
                            }
                        }
                        Ok(())
                    },
                    Some((prev_count, prod)) => {
                        proof {
                            assert(acc_view(self.acc@)[i as int].production == Some::<
                                (usize, SingleWareProductionV),
                            >((prev_count, prod@)));
                            assert(method_wf(prod@));
                        }
                        let new_count: usize = match prod
                            .fabrics_count_from_desired_wares_per_minute(&new_rate) {
                            Some(c) => c,
                            None => {
                                proof {
                                    lemma_acc_extends_refl(acc0);
                                }
                                return Err(DataError::NumericOverflow(ware_id.clone()));
                            },
                        };
                        let old_entry_id: String = self.acc[i].0.clone();
                        let old_info: &'a SingleWareInfo = self.acc[i].2;
                        let ghost pre = acc_view(self.acc@);
                        self.acc.set(
                            i,
                            (old_entry_id, new_rate, old_info, Some((new_count, prod))),
                        );
                        proof {
                            assert(acc_view(self.acc@) =~= pre.update(
                                i as int,
                                AccEntryV {
                                    wares_per_minute: new_rate,
                                    production: Some((new_count, prod@)),
                                    ..pre[i as int]
                                },
                            ));
                            assert(entry_ok(pre[i as int]));
                            assert forall|t: int|
                                0 <= t < acc_view(self.acc@).len() implies entry_ok(
                                #[trigger] acc_view(self.acc@)[t],
                            ) by {
                                if t != i {
                                    assert(acc_view(self.acc@)[t] == pre[t]);
                                    assert(entry_ok(pre[t]));
                                }
                            }
                            assert forall|t1: int, t2: int|
                                0 <= t1 < t2 < acc_view(self.acc@).len() implies (
                            #[trigger] acc_view(self.acc@)[t1]).ware_id != (
                            #[trigger] acc_view(self.acc@)[t2]).ware_id by {
                                assert(acc_view(self.acc@)[t1].ware_id == pre[t1].ware_id);
                                assert(acc_view(self.acc@)[t2].ware_id == pre[t2].ware_id);
                            }
                            assert(self.wf());
                            lemma_rate_add_ge(pre[i as int].wares_per_minute, *wares_per_minute);
                            lemma_wares_per_minute_wf(prod@);
                            lemma_fabrics_count_monotone(
                                pre[i as int].wares_per_minute,
                                new_rate,
                                spec_wares_per_minute(prod@)->Some_0,
                            );
                            assert forall|t: int|
                                0 <= t < pre.len() implies entry_extends(
                                pre[t],
                                #[trigger] acc_view(self.acc@)[t],
                            ) by {
                                if t != i {
                                    assert(acc_view(self.acc@)[t] == pre[t]);
                                }
                            }
                        }
                        if new_count <= prev_count {
                            return Ok(());
                        }
                        let delta: usize = new_count - prev_count;
                        proof {
                            assert forall|t: int|
                                0 <= t < acc_view(self.acc@).len() implies 1 <= (
                            #[trigger] acc_view(self.acc@)[t]).wares_per_minute.den by {
                                assert(entry_ok(acc_view(self.acc@)[t]));
                            }
                        }
                        let ghost mid = acc_view(self.acc@);
                        let res = self.propagate(prod, delta, prioritylist, blacklist, fuel);
                        proof {
                            lemma_acc_extends_trans(acc0, mid, acc_view(self.acc@));
                        }
                        res
                    },
                }
            },
            None => {
                let ware: &'a SingleWare = match self.wares.get(ware_id) {
                    Ok(w) => w,
                    Err(e) => {
                        proof {
                            lemma_acc_extends_refl(acc0);
                        }
                        return Err(e);
                    },
                };
                if ware.production_methods.len() == 0 {
                    let ghost pre = acc_view(self.acc@);
                    self.acc.push((ware_id.clone(), *wares_per_minute, &ware.info, None));
                    proof {
                        assert(acc_view(self.acc@) =~= pre.push(
                            AccEntryV {
                                ware_id: ware_id@,
                                wares_per_minute: *wares_per_minute,
                                info: ware.info@,
                                production: None,
                            },
                        ));
                        assert forall|t: int|
                            0 <= t < acc_view(self.acc@).len() implies entry_ok(
                            #[trigger] acc_view(self.acc@)[t],
                        ) by {
                            if t < pre.len() {
                                assert(acc_view(self.acc@)[t] == pre[t]);
                                assert(entry_ok(pre[t]));
                            }
                        }
                        lemma_acc_find_props(pre, ware_id@);
                        assert forall|t1: int, t2: int|
                            0 <= t1 < t2 < acc_view(self.acc@).len() implies (
                        #[trigger] acc_view(self.acc@)[t1]).ware_id != (
                        #[trigger] acc_view(self.acc@)[t2]).ware_id by {
                            assert(acc_view(self.acc@)[t1].ware_id == pre[t1].ware_id);
                            if t2 < pre.len() {
                                assert(acc_view(self.acc@)[t2].ware_id == pre[t2].ware_id);
                            }
                        }
                        assert forall|t: int|
                            0 <= t < pre.len() implies entry_extends(
                            pre[t],
                            #[trigger] acc_view(self.acc@)[t],
                        ) by {
                            assert(acc_view(self.acc@)[t] == pre[t]);
                        }
                    }
                    return Ok(());
                }
                let prod: &'a SingleWareProduction = match ware.find_desired_method(
                    prioritylist,
                    blacklist,
                ) {
                    Ok(p) => p,
                    Err(e) => {
                        proof {
                            lemma_acc_extends_refl(acc0);
                        }
                        return Err(e);
                    },
                };
                proof {
                    lemma_find_desired_is_method(
                        ware@.production_methods,
                        plv,
                        blv,
                        ware@.info.ware_id,
                    );
                    crate::catalog::lemma_assoc_is_element(wares0, ware_id@);
                    let w = choose|k: int|
                        0 <= k < wares0.len() && (#[trigger] wares0[k]).1 == ware@
                            && wares0[k].0 == ware_id@;
                    assert(crate::catalog::ware_wf(ware@));
                    let km = choose|k: int|
                        0 <= k < ware@.production_methods.len() && (
                        #[trigger] ware@.production_methods[k]).1 == prod@;
                    assert(method_wf(prod@));
                }
                let count: usize = match prod.fabrics_count_from_desired_wares_per_minute(
                    wares_per_minute,
                ) {
                    Some(c) => c,
                    None => {
                        proof {
                            lemma_acc_extends_refl(acc0);
                        }
                        return Err(DataError::NumericOverflow(ware_id.clone()));
                    },
                };
                let ghost pre = acc_view(self.acc@);
                self.acc.push(
                    (ware_id.clone(), *wares_per_minute, &ware.info, Some((count, prod))),
                );
                proof {
                    assert(acc_view(self.acc@) =~= pre.push(
                        AccEntryV {
                            ware_id: ware_id@,
                            wares_per_minute: *wares_per_minute,
                            info: ware.info@,
                            production: Some((count, prod@)),
                        },
                    ));
                    assert forall|t: int|
                        0 <= t < acc_view(self.acc@).len() implies entry_ok(
                        #[trigger] acc_view(self.acc@)[t],
                    ) by {
                        if t < pre.len() {
                            assert(acc_view(self.acc@)[t] == pre[t]);
                            assert(entry_ok(pre[t]));
                        }
                    }
                    lemma_acc_find_props(pre, ware_id@);
                    assert forall|t1: int, t2: int|
                        0 <= t1 < t2 < acc_view(self.acc@).len() implies (
                    #[trigger] acc_view(self.acc@)[t1]).ware_id != (
                    #[trigger] acc_view(self.acc@)[t2]).ware_id by {
                        assert(acc_view(self.acc@)[t1].ware_id == pre[t1].ware_id);
                        if t2 < pre.len() {
                            assert(acc_view(self.acc@)[t2].ware_id == pre[t2].ware_id);
                        }
                    }
                    assert(self.wf());
                    assert forall|t: int|
                        0 <= t < pre.len() implies entry_extends(
                        pre[t],
                        #[trigger] acc_view(self.acc@)[t],
                    ) by {
                        assert(acc_view(self.acc@)[t] == pre[t]);
                    }
                    assert forall|t: int|
                        0 <= t < acc_view(self.acc@).len() implies 1 <= (
                    #[trigger] acc_view(self.acc@)[t]).wares_per_minute.den by {
                        assert(entry_ok(acc_view(self.acc@)[t]));
                    }
                }
                let ghost mid = acc_view(self.acc@);
                let res = self.propagate(prod, count, prioritylist, blacklist, fuel);
                proof {
                    lemma_acc_extends_trans(acc0, mid, acc_view(self.acc@));
                }
                res
            },
        }
    }

    /// Adds `count` facilities' worth of each input of `prod` to the
    /// accumulator, in order.
    fn propagate(
        &mut self,
        prod: &'a SingleWareProduction,
        count: usize,
        prioritylist: &Vec<String>,
        blacklist: &Vec<String>,
        fuel: usize,
    ) -> (r: Result<(), DataError>)
        requires
            old(self).wf(),
            method_wf(prod@),
        ensures
            final(self).wares == old(self).wares,
            final(self).wf(),
            acc_extends(acc_view(old(self).acc@), acc_view(final(self).acc@)),
            match r {
                Ok(_) => spec_add_deps(
                    old(self).wares@.id_to_dsc,
                    prod@.wares_dependencies,
                    acc_view(old(self).acc@),
                    count as nat,
                    prod@.cicle_milliseconds,
                    strings_view(prioritylist@),
                    strings_view(blacklist@),
                    fuel as nat,
                ) == Ok::<Seq<AccEntryV>, DataErrorV>(acc_view(final(self).acc@)),
                Err(e) => spec_add_deps(
                    old(self).wares@.id_to_dsc,
                    prod@.wares_dependencies,
                    acc_view(old(self).acc@),
                    count as nat,
                    prod@.cicle_milliseconds,
                    strings_view(prioritylist@),
                    strings_view(blacklist@),
                    fuel as nat,
                ) == Err::<Seq<AccEntryV>, DataErrorV>(e@),
            },
        decreases fuel, 0nat,
    {
        let ghost wares0 = self.wares@.id_to_dsc;
        let ghost plv = strings_view(prioritylist@);
        let ghost blv = strings_view(blacklist@);
        let ghost deps = prod@.wares_dependencies;
        proof {
            assert(deps.skip(0) =~= deps);
            lemma_acc_extends_refl(acc_view(self.acc@));
        }
        let mut k: usize = 0;
        while k < prod.wares_dependencies.len()
            invariant
                self.wf(),
                self.wares == old(self).wares,
                acc_extends(acc_view(old(self).acc@), acc_view(self.acc@)),
                self.wares@.id_to_dsc == wares0,
                method_wf(prod@),
                deps == prod@.wares_dependencies,
                plv == strings_view(prioritylist@),
                blv == strings_view(blacklist@),
                0 <= k <= deps.len(),
                spec_add_deps(
                    wares0,
                    deps.skip(k as int),
                    acc_view(self.acc@),
                    count as nat,
                    prod@.cicle_milliseconds,
                    plv,
                    blv,
                    fuel as nat,
                ) == spec_add_deps(
                    wares0,
                    deps,
                    acc_view(old(self).acc@),
                    count as nat,
                    prod@.cicle_milliseconds,
                    plv,
                    blv,
                    fuel as nat,
                ),
            decreases deps.len() - k,
        {
            proof {
                assert(deps.skip(k as int)[0] == deps[k as int]);
                assert(deps.skip(k as int).drop_first() =~= deps.skip(k + 1));
                assert((prod.wares_dependencies@[k as int].1 as u128) * 60000u128 * (
                count as u128) <= 0xFFFF_FFFFu128 * 60000u128
                    * 0xFFFF_FFFF_FFFF_FFFFu128) by (nonlinear_arith)
                    requires
                        prod.wares_dependencies@[k as int].1 <= 0xFFFF_FFFFu128,
                        count <= 0xFFFF_FFFF_FFFF_FFFFu128,
                ;
            }
            let s: u128 = (prod.wares_dependencies[k].1 as u128) * 60000u128 * (
            count as u128);
            let dr: Rate = match rate_reduce(s, prod.cicle_milliseconds as u128) {
                Some(dr) => dr,
                None => {
                    return Err(
                        DataError::NumericOverflow(prod.wares_dependencies[k].0.clone()),
                    );
                },
            };
            if fuel == 0 {
                return Err(
                    DataError::DependencyDepthExceeded(
                        prod.wares_dependencies[k].0.clone(),
                    ),
                );
            }
            proof {
                crate::rates::lemma_rate_reduce_eqv(
                    prod.wares_dependencies@[k as int].1 * 60000 * count,
                    prod@.cicle_milliseconds as int,
                );
            }
            proof {
                assert forall|t: int|
                    0 <= t < acc_view(self.acc@).len() implies 1 <= (
                #[trigger] acc_view(self.acc@)[t]).wares_per_minute.den by {
                    assert(entry_ok(acc_view(self.acc@)[t]));
                }
            }
            let ghost mid = acc_view(self.acc@);
            match self.add_wares_rec(
                &prod.wares_dependencies[k].0,
                &dr,
                prioritylist,
                blacklist,
                fuel - 1,
            ) {
                Ok(_) => {
                    proof {
                        lemma_acc_extends_trans(
                            acc_view(old(self).acc@),
                            mid,
                            acc_view(self.acc@),
                        );
                    }
                },
                Err(e) => {
                    proof {
                        lemma_acc_extends_trans(
                            acc_view(old(self).acc@),
                            mid,
                            acc_view(self.acc@),
                        );
                    }
                    return Err(e);
                },
            }
            k = k + 1;
        }
        Ok(())
    }
}


/// Spec mirror of demanding a fixed number of facilities: the count is
/// converted to a throughput via the resolved method's per-facility rate.
pub open spec fn spec_add_fabrics(
    wares: Seq<(Seq<char>, SingleWareV)>,
    acc: Seq<AccEntryV>,
    id: Seq<char>,
    count: nat,
    pl: Seq<Seq<char>>,
    bl: Seq<Seq<char>>,
    fuel: nat,
) -> Result<Seq<AccEntryV>, DataErrorV> {
    match spec_assoc(wares, id) {
        None => Err(DataErrorV::UnknownWare(id)),
        Some(ware) => match spec_find_desired(ware.production_methods, pl, bl, ware.info.ware_id) {
            Err(e) => Err(e),
            Ok(prod) => match spec_rate_reduce(
                prod.wares_per_cicle * 60000 * count,
                prod.cicle_milliseconds as int,
            ) {
                None => Err(DataErrorV::NumericOverflow(id)),
                Some(r) => spec_add_wares(wares, acc, id, r, pl, bl, fuel),
            },
        },
    }
}

impl<'a> Fabrics<'a> {
    /// Merges a throughput demand; propagation depth is bounded by one unit
    /// of fuel per catalog ware, which suffices for any catalog whose
    /// dependency graph has no cycle.
    pub fn add_wares(
        &mut self,
        ware_id: &String,
        wares_per_minute: &Rate,
        prioritylist: &Vec<String>,
        blacklist: &Vec<String>,
    ) -> (r: Result<(), DataError>)
        requires
            old(self).wf(),
            wares_per_minute.wf(),
        ensures
            final(self).wares == old(self).wares,
            final(self).wf(),
            acc_extends(acc_view(old(self).acc@), acc_view(final(self).acc@)),
            match r {
                Ok(_) => spec_add_wares(
                    old(self).wares@.id_to_dsc,
                    acc_view(old(self).acc@),
                    ware_id@,
                    *wares_per_minute,
                    strings_view(prioritylist@),
                    strings_view(blacklist@),
                    old(self).wares@.id_to_dsc.len() as nat,
                ) == Ok::<Seq<AccEntryV>, DataErrorV>(acc_view(final(self).acc@)),
                Err(e) => spec_add_wares(
                    old(self).wares@.id_to_dsc,
                    acc_view(old(self).acc@),
                    ware_id@,
                    *wares_per_minute,
                    strings_view(prioritylist@),
                    strings_view(blacklist@),
                    old(self).wares@.id_to_dsc.len() as nat,
                ) == Err::<Seq<AccEntryV>, DataErrorV>(e@),
            },
    {
        let fuel = self.wares.id_to_dsc.len();
        self.add_wares_rec(ware_id, wares_per_minute, prioritylist, blacklist, fuel)
    }

    /// Demands a fixed number of facilities of a ware; meaningless for a
    /// ware that cannot be produced at all.
    pub fn add_fabrics(
        &mut self,
        ware_id: &String,
        fabrics_count: usize,
        prioritylist: &Vec<String>,
        blacklist: &Vec<String>,
    ) -> (r: Result<(), DataError>)
        requires
            old(self).wf(),
        ensures
            final(self).wares == old(self).wares,
            final(self).wf(),
            acc_extends(acc_view(old(self).acc@), acc_view(final(self).acc@)),
            match r {
                Ok(_) => spec_add_fabrics(
                    old(self).wares@.id_to_dsc,
                    acc_view(old(self).acc@),
                    ware_id@,
                    fabrics_count as nat,
                    strings_view(prioritylist@),
                    strings_view(blacklist@),
                    old(self).wares@.id_to_dsc.len() as nat,
                ) == Ok::<Seq<AccEntryV>, DataErrorV>(acc_view(final(self).acc@)),
                Err(e) => spec_add_fabrics(
                    old(self).wares@.id_to_dsc,
                    acc_view(old(self).acc@),
                    ware_id@,
                    fabrics_count as nat,
                    strings_view(prioritylist@),
                    strings_view(blacklist@),
                    old(self).wares@.id_to_dsc.len() as nat,
                ) == Err::<Seq<AccEntryV>, DataErrorV>(e@),
            },
            // the conversion stage fails early, before any merge: an unknown
            // ware, a failed method resolution or an unrepresentable
            // throughput leave the accumulator exactly as it was
            match spec_assoc(old(self).wares@.id_to_dsc, ware_id@) {
                None => final(self).acc == old(self).acc,
                Some(ware) => match spec_find_desired(
                    ware.production_methods,
                    strings_view(prioritylist@),
                    strings_view(blacklist@),
                    ware.info.ware_id,
                ) {
                    Err(_) => final(self).acc == old(self).acc,
                    Ok(prodv) => spec_rate_reduce(
                        prodv.wares_per_cicle * 60000 * fabrics_count,
                        prodv.cicle_milliseconds as int,
                    ) is None ==> final(self).acc == old(self).acc,
                },
            },
    {
        let ghost wares0 = self.wares@.id_to_dsc;
        let ware: &'a SingleWare = match self.wares.get(ware_id) {
            Ok(w) => w,
            Err(e) => {
                proof {
                    lemma_acc_extends_refl(acc_view(self.acc@));
                }
                return Err(e);
            },
        };
        let prod: &'a SingleWareProduction = match ware.find_desired_method(
            prioritylist,
            blacklist,
        ) {
            Ok(p) => p,
            Err(e) => {
                proof {
                    lemma_acc_extends_refl(acc_view(self.acc@));
                }
                return Err(e);
            },
        };
        proof {
            crate::catalog::lemma_assoc_is_element(wares0, ware_id@);
            let w = choose|k: int|
                0 <= k < wares0.len() && (#[trigger] wares0[k]).1 == ware@ && wares0[k].0
                    == ware_id@;
            assert(crate::catalog::ware_wf(ware@));
            lemma_find_desired_is_method(
                ware@.production_methods,
                strings_view(prioritylist@),
                strings_view(blacklist@),
                ware@.info.ware_id,
            );
            let km = choose|k: int|
                0 <= k < ware@.production_methods.len() && (
                #[trigger] ware@.production_methods[k]).1 == prod@;
            assert(method_wf(prod@));
            assert((prod.wares_per_cicle as u128) * 60000u128 * (fabrics_count as u128)
                <= 0xFFFF_FFFFu128 * 60000u128 * 0xFFFF_FFFF_FFFF_FFFFu128)
                by (nonlinear_arith)
                requires
                    prod.wares_per_cicle <= 0xFFFF_FFFFu128,
                    fabrics_count <= 0xFFFF_FFFF_FFFF_FFFFu128,
            ;
        }
        let s: u128 = (prod.wares_per_cicle as u128) * 60000u128 * (fabrics_count as u128);
        let r: Rate = match rate_reduce(s, prod.cicle_milliseconds as u128) {
            Some(r) => r,
            None => {
                proof {
                    lemma_acc_extends_refl(acc_view(self.acc@));
                }
                return Err(DataError::NumericOverflow(ware_id.clone()));
            },
        };
        proof {
            crate::rates::lemma_rate_reduce_eqv(
                prod@.wares_per_cicle * 60000 * fabrics_count,
                prod@.cicle_milliseconds as int,
            );
        }
        let fuel = self.wares.id_to_dsc.len();
        self.add_wares_rec(ware_id, &r, prioritylist, blacklist, fuel)
    }
}

/// Merged demand that does not change a ware's facility count is never
/// propagated to the ware's inputs: when a demand arrives for a ware that
/// already has a production entry and the recomputed facility count is no
/// larger than before, the merge only raises that one entry's accumulated
/// throughput and count, and every other accumulator line stays exactly as
/// it was.
pub proof fn lemma_no_delta_no_propagation(
    wares: Seq<(Seq<char>, SingleWareV)>,
    acc: Seq<AccEntryV>,
    id: Seq<char>,
    rate: Rate,
    pl: Seq<Seq<char>>,
    bl: Seq<Seq<char>>,
    fuel: nat,
    ix: int,
    prev_count: usize,
    prod: SingleWareProductionV,
    new_rate: Rate,
    new_count: usize,
)
    requires
        rate.num > 0,
        spec_acc_find(acc, id) == Some(ix),
        0 <= ix < acc.len(),
        acc[ix].production == Some::<(usize, SingleWareProductionV)>((prev_count, prod)),
        spec_rate_add(acc[ix].wares_per_minute, rate) == Some(new_rate),
        spec_fabrics_of(prod, new_rate) == Some(new_count),
        new_count <= prev_count,
    ensures
        spec_add_wares(wares, acc, id, rate, pl, bl, fuel) matches Ok(res) && {
            &&& res.len() == acc.len()
            &&& res[ix].wares_per_minute == new_rate
            &&& res[ix].production == Some::<(usize, SingleWareProductionV)>(
                (new_count, prod),
            )
            &&& res[ix].ware_id == acc[ix].ware_id
            &&& res[ix].info == acc[ix].info
            &&& forall|j: int| 0 <= j < acc.len() && j != ix ==> #[trigger] res[j] == acc[j]
        },
{
    let res = spec_add_wares(wares, acc, id, rate, pl, bl, fuel);
}

} // verus!
