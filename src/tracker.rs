//! The search-space tracker: infers and checks each parameter's distribution
//! from a stream of trials.
use vstd::prelude::*;
use crate::distribution::{contains, has_absent, spec_contains, unknown_distribution};
use crate::model::{
    clone_distribution, clone_parameter_value, clone_values, entries_view, pv_equal, pv_seq,
    trials_view, named_params, Distribution, DistributionKind, KindView, ParamView, Parameter,
    ParameterValue, SamplerError, SearchSpace, Trial, UnknownDistribution, Value, ValueView, DV,
    PV,
};
use crate::float_bits;

verus! {

pub type Entries = Seq<(Seq<char>, DV)>;

pub type Batch = Seq<(Seq<char>, ParamView)>;

/// The set of values a sequence holds; doubles are told apart by their bit
/// patterns.
pub open spec fn value_set(s: Seq<PV>) -> Set<PV> {
    Set::new(|v: PV| s.contains(v))
}

/// Appends to `a`, in order, each value of `b` that it does not hold yet.
pub open spec fn extend_seq(a: Seq<PV>, b: Seq<PV>) -> Seq<PV>
    decreases b.len(),
{
    if b.len() == 0 {
        a
    } else {
        let r = extend_seq(a, b.drop_last());
        if r.contains(b.last()) {
            r
        } else {
            r.push(b.last())
        }
    }
}

/// Every value of `vals` lies in `d`; the first error of `contains` wins.
pub open spec fn all_contained(vals: Seq<PV>, d: DV) -> Result<bool, SamplerError>
    decreases vals.len(),
{
    if vals.len() == 0 {
        Ok(true)
    } else {
        match all_contained(vals.drop_last(), d) {
            Err(e) => Err(e),
            Ok(b) => match spec_contains(d, vals.last()) {
                Err(e) => Err(e),
                Ok(c) => Ok(b && c),
            },
        }
    }
}

/// Structural equality of two concrete kinds, doubles compared as numbers.
pub open spec fn kind_equal(a: KindView, b: KindView) -> bool {
    match (a, b) {
        (KindView::Int(x), KindView::Int(y)) => x == y,
        (KindView::Float(x), KindView::Float(y)) => float_bits::spec_eq(x.low, y.low)
            && float_bits::spec_eq(x.high, y.high) && x.log_scale == y.log_scale,
        (KindView::Fixed(x), KindView::Fixed(y)) => match (x, y) {
            (Some(u), Some(v)) => pv_equal(u, v),
            (None, None) => true,
            _ => false,
        },
        _ => false,
    }
}

/// Keeps `kept` when the check came out true.
pub open spec fn keep_if(check: Result<bool, SamplerError>, kept: DV) -> Result<DV, SamplerError> {
    match check {
        Err(e) => Err(e),
        Ok(true) => Ok(kept),
        Ok(false) => Err(SamplerError::InconsistentDistribution),
    }
}

/// The stored distribution `old` after a declared distribution `new` for the
/// same name.
pub open spec fn merge_declared(new: DV, old: DV) -> Result<DV, SamplerError> {
    match (new, old) {
        (None, _) => Err(SamplerError::MalformedDistribution),
        (_, None) => Err(SamplerError::MalformedDistribution),
        (Some(KindView::Unknown(nv)), Some(KindView::Unknown(ov))) => if has_absent(ov) || has_absent(
            nv,
        ) {
            Err(SamplerError::MalformedDistribution)
        } else {
            Ok(Some(KindView::Unknown(extend_seq(ov, nv))))
        },
        (Some(KindView::Unknown(nv)), Some(_)) => keep_if(all_contained(nv, old), old),
        (Some(_), Some(KindView::Unknown(ov))) => keep_if(all_contained(ov, new), new),
        (Some(KindView::Categorical(a)), Some(KindView::Categorical(b))) => if has_absent(a)
            || has_absent(b) {
            Err(SamplerError::MalformedDistribution)
        } else {
            keep_if(Ok(value_set(a) == value_set(b)), old)
        },
        (Some(a), Some(b)) => keep_if(Ok(kind_equal(a, b)), old),
    }
}

/// A value that comes with a declared distribution must lie in the concrete
/// distribution that results.
pub open spec fn value_fits(d: DV, value: PV) -> Result<DV, SamplerError> {
    match value {
        Some(v) => if is_concrete(d) {
            keep_if(spec_contains(d, Some(v)), d)
        } else {
            Ok(d)
        },
        None => Ok(d),
    }
}

/// The stored distribution `old` after the evidence `p` for the same name.
pub open spec fn merge(old: DV, p: ParamView) -> Result<DV, SamplerError> {
    match p.distribution {
        Some(new) => match merge_declared(new, old) {
            Ok(d) => value_fits(d, p.value),
            Err(e) => Err(e),
        },
        None => match p.value {
            None => Err(SamplerError::MalformedDistribution),
            Some(v) => match old {
                None => Err(SamplerError::MalformedDistribution),
                Some(KindView::Unknown(ov)) => if has_absent(ov) {
                    Err(SamplerError::MalformedDistribution)
                } else {
                    Ok(Some(KindView::Unknown(extend_seq(ov, seq![Some(v)]))))
                },
                Some(_) => keep_if(spec_contains(old, Some(v)), old),
            },
        },
    }
}

/// A distribution of a concrete kind: neither absent nor unknown.
pub open spec fn is_concrete(d: DV) -> bool {
    match d {
        Some(KindView::Unknown(_)) => false,
        Some(_) => true,
        None => false,
    }
}

/// Each name stands at most once.
pub open spec fn unique_names(e: Entries) -> bool {
    forall|i: int, j: int|
        0 <= i < e.len() && 0 <= j < e.len() && (#[trigger] e[i]).0 == (#[trigger] e[j]).0 ==> i
            == j
}

pub open spec fn has_name(e: Entries, name: Seq<char>) -> bool {
    exists|i: int| 0 <= i < e.len() && (#[trigger] e[i]).0 == name
}

pub open spec fn index_of(e: Entries, name: Seq<char>) -> int {
    choose|i: int| 0 <= i < e.len() && (#[trigger] e[i]).0 == name
}

/// The distribution recorded under `name`, if any.
pub open spec fn lookup(e: Entries, name: Seq<char>) -> Option<DV> {
    if has_name(e, name) {
        Some(e[index_of(e, name)].1)
    } else {
        None
    }
}

/// One `(name, parameter)` pair of a trial applied to the recorded entries.
pub open spec fn step(e: Entries, name: Seq<char>, p: ParamView) -> Result<Entries, SamplerError> {
    if has_name(e, name) {
        let i = index_of(e, name);
        match merge(e[i].1, p) {
            Ok(d) => Ok(e.update(i, (name, d))),
            Err(x) => Err(x),
        }
    } else {
        match p.value {
            Some(v) => Ok(e.push((name, Some(KindView::Unknown(seq![Some(v)]))))),
            None => Err(SamplerError::MalformedDistribution),
        }
    }
}

/// The pairs of one trial applied in order.
pub open spec fn sync_params(e: Entries, ps: Batch) -> Result<Entries, SamplerError>
    decreases ps.len(),
{
    if ps.len() == 0 {
        Ok(e)
    } else {
        match sync_params(e, ps.drop_last()) {
            Ok(e2) => step(e2, ps.last().0, ps.last().1),
            Err(x) => Err(x),
        }
    }
}

/// The trials of a batch applied in order.
pub open spec fn sync_trials(e: Entries, ts: Seq<Batch>) -> Result<Entries, SamplerError>
    decreases ts.len(),
{
    if ts.len() == 0 {
        Ok(e)
    } else {
        match sync_trials(e, ts.drop_last()) {
            Ok(e2) => sync_params(e2, ts.last()),
            Err(x) => Err(x),
        }
    }
}

fn value_same(a: &Value, b: &Value) -> (r: bool)
    ensures
        r == (a@ == b@),
{
    match (a, b) {
        (Value::IntValue(x), Value::IntValue(y)) => *x == *y,
        (Value::DoubleValue(x), Value::DoubleValue(y)) => *x == *y,
        (Value::StringValue(x), Value::StringValue(y)) => *x == *y,
        _ => false,
    }
}

/// Whether every value of `s` is present.
fn all_present(s: &Vec<ParameterValue>) -> (r: bool)
    ensures
        r == !has_absent(pv_seq(s@)),
{
    let ghost v = pv_seq(s@);
    let mut i: usize = 0;
    while i < s.len()
        invariant
            i <= s.len(),
            v == pv_seq(s@),
            forall|j: int| 0 <= j < i ==> (#[trigger] v[j]) is Some,
        decreases s.len() - i,
    {
        assert(v[i as int] == s@[i as int]@);
        if s[i].value.is_none() {
            assert(v[i as int] is None);
            return false;
        }
        i = i + 1;
    }
    true
}

/// Whether `s` holds the value `x`, doubles told apart by their bit patterns.
fn holds_value(s: &Vec<ParameterValue>, x: &Value) -> (r: bool)
    ensures
        r == pv_seq(s@).contains(Some(x@)),
{
    let ghost v = pv_seq(s@);
    let mut i: usize = 0;
    while i < s.len()
        invariant
            i <= s.len(),
            v == pv_seq(s@),
            forall|j: int| 0 <= j < i ==> (#[trigger] v[j]) != Some(x@),
        decreases s.len() - i,
    {
        assert(v[i as int] == s@[i as int]@);
        match &s[i].value {
            Some(y) => {
                if value_same(y, x) {
                    assert(v[i as int] == Some(x@));
                    return true;
                }
            },
            None => {},
        }
        i = i + 1;
    }
    false
}

/// Whether every value of `a` also stands in `b`. Neither holds an absent value.
fn values_within(a: &Vec<ParameterValue>, b: &Vec<ParameterValue>) -> (r: bool)
    requires
        !has_absent(pv_seq(a@)),
    ensures
        r == value_set(pv_seq(a@)).subset_of(value_set(pv_seq(b@))),
{
    let ghost va = pv_seq(a@);
    let ghost vb = pv_seq(b@);
    let mut i: usize = 0;
    while i < a.len()
        invariant
            i <= a.len(),
            va == pv_seq(a@),
            vb == pv_seq(b@),
            !has_absent(va),
            forall|j: int| 0 <= j < i ==> vb.contains(#[trigger] va[j]),
        decreases a.len() - i,
    {
        assert(va[i as int] == a@[i as int]@);
        match &a[i].value {
            Some(x) => {
                assert(va[i as int] == Some(x@));
                if !holds_value(b, x) {
                    assert(value_set(va).contains(va[i as int]));
                    return false;
                }
            },
            None => {
                assert(has_absent(va));
            },
        }
        i = i + 1;
    }
    assert forall|x: PV| value_set(va).contains(x) implies value_set(vb).contains(x) by {
        let j = choose|j: int| 0 <= j < va.len() && va[j] == x;
    }
    true
}

/// Whether two value sequences hold the same set of values, whatever their
/// order and repetitions. An absent value makes both malformed.
fn is_equal_parameter_set(a: &Vec<ParameterValue>, b: &Vec<ParameterValue>) -> (r: Result<
    bool,
    SamplerError,
>)
    ensures
        r == (if has_absent(pv_seq(a@)) || has_absent(pv_seq(b@)) {
            Err(SamplerError::MalformedDistribution)
        } else {
            Ok(value_set(pv_seq(a@)) == value_set(pv_seq(b@)))
        }),
{
    if !all_present(a) || !all_present(b) {
        return Err(SamplerError::MalformedDistribution);
    }
    let ab = values_within(a, b);
    let ba = values_within(b, a);
    proof {
        if ab && ba {
            assert(value_set(pv_seq(a@)) =~= value_set(pv_seq(b@)));
        }
    }
    Ok(ab && ba)
}

/// Appends to `a` each value of `b` that it does not hold yet, in order.
fn extend_parameter_set(a: &mut Vec<ParameterValue>, b: &Vec<ParameterValue>) -> (r: Result<
    (),
    SamplerError,
>)
    ensures
        has_absent(pv_seq(old(a)@)) || has_absent(pv_seq(b@)) ==> r == Err::<(), SamplerError>(
            SamplerError::MalformedDistribution,
        ),
        !has_absent(pv_seq(old(a)@)) && !has_absent(pv_seq(b@)) ==> r is Ok && pv_seq(final(a)@)
            == extend_seq(pv_seq(old(a)@), pv_seq(b@)),
{
    if !all_present(a) || !all_present(b) {
        return Err(SamplerError::MalformedDistribution);
    }
    let ghost a0 = pv_seq(a@);
    let ghost vb = pv_seq(b@);
    let mut i: usize = 0;
    while i < b.len()
        invariant
            i <= b.len(),
            vb == pv_seq(b@),
            !has_absent(a0),
            !has_absent(vb),
            pv_seq(a@) == extend_seq(a0, vb.take(i as int)),
        decreases b.len() - i,
    {
        assert(vb.take(i + 1).drop_last() =~= vb.take(i as int));
        assert(vb[i as int] == b@[i as int]@);
        match &b[i].value {
            Some(x) => {
                if !holds_value(a, x) {
                    let ghost before = a@;
                    a.push(clone_parameter_value(&b[i]));
                    assert(pv_seq(a@) =~= pv_seq(before).push(vb[i as int]));
                }
            },
            None => {
                assert(has_absent(vb));
            },
        }
        i = i + 1;
    }
    assert(vb.take(i as int) =~= vb);
    Ok(())
}

fn all_contained_in(vals: &Vec<ParameterValue>, d: &Distribution) -> (r: Result<
    bool,
    SamplerError,
>)
    ensures
        r == all_contained(pv_seq(vals@), d@),
{
    let ghost v = pv_seq(vals@);
    let mut acc: Result<bool, SamplerError> = Ok(true);
    let mut i: usize = 0;
    while i < vals.len()
        invariant
            i <= vals.len(),
            v == pv_seq(vals@),
            acc == all_contained(v.take(i as int), d@),
        decreases vals.len() - i,
    {
        assert(v.take(i + 1).drop_last() =~= v.take(i as int));
        assert(v[i as int] == vals@[i as int]@);
        acc =
        match acc {
            Err(e) => Err(e),
            Ok(b) => match contains(d, &vals[i]) {
                Err(e) => Err(e),
                Ok(c) => Ok(b && c),
            },
        };
        i = i + 1;
    }
    assert(v.take(i as int) =~= v);
    acc
}

fn keep(check: Result<bool, SamplerError>, d: &Distribution) -> (r: Result<
    Distribution,
    SamplerError,
>)
    ensures
        match r {
            Ok(x) => keep_if(check, d@) == Ok::<DV, SamplerError>(x@),
            Err(e) => keep_if(check, d@) == Err::<DV, SamplerError>(e),
        },
{
    match check {
        Err(e) => Err(e),
        Ok(true) => Ok(clone_distribution(d)),
        Ok(false) => Err(SamplerError::InconsistentDistribution),
    }
}

fn kind_eq(a: &DistributionKind, b: &DistributionKind) -> (r: bool)
    ensures
        r == kind_equal(a@, b@),
{
    match (a, b) {
        (DistributionKind::IntDistribution(x), DistributionKind::IntDistribution(y)) => x.low
            == y.low && x.high == y.high && x.log_scale == y.log_scale,
        (DistributionKind::FloatDistribution(x), DistributionKind::FloatDistribution(y)) => {
            float_bits::eq(x.low, y.low) && float_bits::eq(x.high, y.high) && x.log_scale
                == y.log_scale
        },
        (DistributionKind::FixedDistribution(x), DistributionKind::FixedDistribution(y)) => {
            match (&x.value, &y.value) {
                (Some(u), Some(v)) => crate::model::parameter_value_eq(u, v),
                (None, None) => true,
                _ => false,
            }
        },
        _ => false,
    }
}

fn single(v: &Value) -> (r: Vec<ParameterValue>)
    ensures
        pv_seq(r@) == seq![Some(v@)],
{
    let r = vec![ParameterValue { value: Some(crate::model::clone_value(v)) }];
    assert(pv_seq(r@) =~= seq![Some(v@)]);
    r
}

fn extended(old: &Vec<ParameterValue>, new: &Vec<ParameterValue>) -> (r: Result<
    Distribution,
    SamplerError,
>)
    ensures
        match r {
            Ok(x) => !has_absent(pv_seq(old@)) && !has_absent(pv_seq(new@)) && x@ == Some(
                KindView::Unknown(extend_seq(pv_seq(old@), pv_seq(new@))),
            ),
            Err(e) => (has_absent(pv_seq(old@)) || has_absent(pv_seq(new@))) && e
                == SamplerError::MalformedDistribution,
        },
{
    let mut values = clone_values(old);
    match extend_parameter_set(&mut values, new) {
        Err(e) => Err(e),
        Ok(()) => Ok(unknown_distribution(values)),
    }
}

fn merge_declared_distribution(new: &Distribution, old: &Distribution) -> (r: Result<
    Distribution,
    SamplerError,
>)
    ensures
        match r {
            Ok(x) => merge_declared(new@, old@) == Ok::<DV, SamplerError>(x@),
            Err(e) => merge_declared(new@, old@) == Err::<DV, SamplerError>(e),
        },
{
    match (&new.distribution, &old.distribution) {
        (None, _) => Err(SamplerError::MalformedDistribution),
        (_, None) => Err(SamplerError::MalformedDistribution),
        (
            Some(DistributionKind::UnknownDistribution(nd)),
            Some(DistributionKind::UnknownDistribution(od)),
        ) => extended(&od.values, &nd.values),
        (Some(DistributionKind::UnknownDistribution(nd)), Some(_)) => keep(
            all_contained_in(&nd.values, old),
            old,
        ),
        (Some(_), Some(DistributionKind::UnknownDistribution(od))) => keep(
            all_contained_in(&od.values, new),
            new,
        ),
        (
            Some(DistributionKind::CategoricalDistribution(a)),
            Some(DistributionKind::CategoricalDistribution(b)),
        ) => match is_equal_parameter_set(&a.choices, &b.choices) {
            Err(e) => Err(e),
            Ok(t) => keep(Ok(t), old),
        },
        (Some(a), Some(b)) => keep(Ok(kind_eq(a, b)), old),
    }
}

fn concrete(d: &Distribution) -> (r: bool)
    ensures
        r == is_concrete(d@),
{
    match &d.distribution {
        Some(DistributionKind::UnknownDistribution(_)) => false,
        Some(_) => true,
        None => false,
    }
}

/// The stored distribution after the evidence of one parameter.
fn merge_distribution(old: &Distribution, p: &Parameter) -> (r: Result<
    Distribution,
    SamplerError,
>)
    ensures
        match r {
            Ok(x) => merge(old@, p@) == Ok::<DV, SamplerError>(x@),
            Err(e) => merge(old@, p@) == Err::<DV, SamplerError>(e),
        },
{
    match &p.distribution {
        Some(new) => match merge_declared_distribution(new, old) {
            Err(e) => Err(e),
            Ok(d) => match &p.value {
                Some(v) => if concrete(&d) {
                    let pv = ParameterValue { value: Some(crate::model::clone_value(v)) };
                    keep(contains(&d, &pv), &d)
                } else {
                    Ok(d)
                },
                None => Ok(d),
            },
        },
        None => match &p.value {
            None => Err(SamplerError::MalformedDistribution),
            Some(v) => match &old.distribution {
                None => Err(SamplerError::MalformedDistribution),
                Some(DistributionKind::UnknownDistribution(od)) => extended(&od.values, &single(v)),
                Some(_) => {
                    let pv = ParameterValue { value: Some(crate::model::clone_value(v)) };
                    keep(contains(old, &pv), old)
                },
            },
        },
    }
}

proof fn lemma_step_unique(e: Entries, name: Seq<char>, p: ParamView)
    requires
        unique_names(e),
        step(e, name, p) is Ok,
    ensures
        unique_names(step(e, name, p)->Ok_0),
{
    let e2 = step(e, name, p)->Ok_0;
    if has_name(e, name) {
        let i = index_of(e, name);
        assert forall|a: int, b: int|
            0 <= a < e2.len() && 0 <= b < e2.len() && (#[trigger] e2[a]).0 == (#[trigger] e2[b]).0
                implies a == b by {
            assert(e2[a].0 == e[a].0);
            assert(e2[b].0 == e[b].0);
        }
    } else {
        assert forall|a: int, b: int|
            0 <= a < e2.len() && 0 <= b < e2.len() && (#[trigger] e2[a]).0 == (#[trigger] e2[b]).0
                implies a == b by {
            if a < e.len() && b < e.len() {
                assert(e2[a] == e[a]);
                assert(e2[b] == e[b]);
            } else if a < e.len() {
                assert(e[a].0 == name);
            } else if b < e.len() {
                assert(e[b].0 == name);
            }
        }
    }
}

proof fn lemma_params_unique(e: Entries, ps: Batch)
    requires
        unique_names(e),
        sync_params(e, ps) is Ok,
    ensures
        unique_names(sync_params(e, ps)->Ok_0),
    decreases ps.len(),
{
    if ps.len() > 0 {
        lemma_params_unique(e, ps.drop_last());
        lemma_step_unique(sync_params(e, ps.drop_last())->Ok_0, ps.last().0, ps.last().1);
    }
}

proof fn lemma_trials_unique(e: Entries, ts: Seq<Batch>)
    requires
        unique_names(e),
        sync_trials(e, ts) is Ok,
    ensures
        unique_names(sync_trials(e, ts)->Ok_0),
    decreases ts.len(),
{
    if ts.len() > 0 {
        lemma_trials_unique(e, ts.drop_last());
        lemma_params_unique(sync_trials(e, ts.drop_last())->Ok_0, ts.last());
    }
}

/// An error part-way through a trial is the error of the whole trial.
proof fn lemma_params_err(e: Entries, ps: Batch, k: int)
    requires
        0 <= k <= ps.len(),
        sync_params(e, ps.take(k)) is Err,
    ensures
        sync_params(e, ps) == sync_params(e, ps.take(k)),
    decreases ps.len(),
{
    if k == ps.len() {
        assert(ps.take(k) =~= ps);
    } else {
        assert(ps.drop_last().take(k) =~= ps.take(k));
        lemma_params_err(e, ps.drop_last(), k);
    }
}

/// An error part-way through a batch is the error of the whole batch.
proof fn lemma_trials_err(e: Entries, ts: Seq<Batch>, k: int)
    requires
        0 <= k <= ts.len(),
        sync_trials(e, ts.take(k)) is Err,
    ensures
        sync_trials(e, ts) == sync_trials(e, ts.take(k)),
    decreases ts.len(),
{
    if k == ts.len() {
        assert(ts.take(k) =~= ts);
    } else {
        assert(ts.drop_last().take(k) =~= ts.take(k));
        lemma_trials_err(e, ts.drop_last(), k);
    }
}

fn clone_entries(v: &Vec<(String, Distribution)>) -> (r: Vec<(String, Distribution)>)
    ensures
        entries_view(r@) == entries_view(v@),
{
    let mut r: Vec<(String, Distribution)> = Vec::new();
    let mut i: usize = 0;
    while i < v.len()
        invariant
            i <= v.len(),
            r@.len() == i,
            forall|j: int|
                0 <= j < i ==> (#[trigger] r@[j]).0@ == v@[j].0@ && r@[j].1@ == v@[j].1@,
        decreases v.len() - i,
    {
        r.push((v[i].0.clone(), clone_distribution(&v[i].1)));
        i = i + 1;
    }
    assert(entries_view(r@) =~= entries_view(v@));
    r
}

/// Applies one `(name, parameter)` pair to the entries.
fn apply(entries: &mut Vec<(String, Distribution)>, name: &String, p: &Parameter) -> (r: Result<
    (),
    SamplerError,
>)
    requires
        unique_names(entries_view(old(entries)@)),
    ensures
        match step(entries_view(old(entries)@), name@, p@) {
            Ok(e) => r is Ok && entries_view(final(entries)@) == e,
            Err(x) => r == Err::<(), SamplerError>(x),
        },
{
    let ghost ev = entries_view(entries@);
    let mut i: usize = 0;
    while i < entries.len()
        invariant
            i <= entries.len(),
            ev == entries_view(entries@),
            forall|j: int| 0 <= j < i ==> (#[trigger] ev[j]).0 != name@,
        ensures
            i <= entries.len(),
            ev == entries_view(entries@),
            forall|j: int| 0 <= j < i ==> (#[trigger] ev[j]).0 != name@,
            i < entries.len() ==> ev[i as int].0 == name@,
        decreases entries.len() - i,
    {
        if entries[i].0 == *name {
            break;
        }
        i = i + 1;
    }
    if i < entries.len() {
        assert(ev[i as int].0 == name@);
        assert(has_name(ev, name@));
        assert(index_of(ev, name@) == i);
        match merge_distribution(&entries[i].1, p) {
            Err(e) => Err(e),
            Ok(d) => {
                entries.set(i, (name.clone(), d));
                assert(entries_view(entries@) =~= ev.update(i as int, (name@, d@)));
                Ok(())
            },
        }
    } else {
        assert(!has_name(ev, name@));
        match &p.value {
            None => Err(SamplerError::MalformedDistribution),
            Some(v) => {
                let d = unknown_distribution(single(v));
                entries.push((name.clone(), d));
                assert(entries_view(entries@) =~= ev.push(
                    (name@, Some(KindView::Unknown(seq![Some(v@)]))),
                ));
                Ok(())
            },
        }
    }
}

/// Keeps, per parameter name, the one distribution that all trials seen so
/// far agree on.
pub struct SearchSpaceTracker {
    search_space: SearchSpace,
}

impl View for SearchSpaceTracker {
    type V = Entries;

    closed spec fn view(&self) -> Entries {
        self.search_space@
    }
}

impl SearchSpaceTracker {
    pub open spec fn wf(&self) -> bool {
        unique_names(self@)
    }

    /// A tracker that knows no parameter.
    pub fn new() -> (r: Self)
        ensures
            r.wf(),
            r@ == Seq::<(Seq<char>, DV)>::empty(),
    {
        let r = SearchSpaceTracker { search_space: SearchSpace { distributions: Vec::new() } };
        assert(r@ =~= Seq::<(Seq<char>, DV)>::empty());
        r
    }

    /// Starts over from a declared search space. A name that stands twice is
    /// rejected, and the tracker is then left as it was.
    pub fn init(&mut self, search_space: SearchSpace) -> (r: Result<(), SamplerError>)
        requires
            old(self).wf(),
        ensures
            final(self).wf(),
            unique_names(search_space@) ==> r is Ok && final(self)@ == search_space@,
            !unique_names(search_space@) ==> r == Err::<(), SamplerError>(
                SamplerError::InconsistentDistribution,
            ) && final(self)@ == old(self)@,
    {
        let ghost sv = search_space@;
        let n = search_space.distributions.len();
        let mut i: usize = 0;
        while i < n
            invariant
                i <= n,
                n == search_space.distributions.len(),
                sv == search_space@,
                self.wf(),
                forall|a: int, b: int|
                    0 <= a < i && 0 <= b < n && a != b ==> (#[trigger] sv[a]).0 != (#[trigger] sv[b]).0,
            decreases n - i,
        {
            let mut j: usize = 0;
            while j < n
                invariant
                    i < n,
                    j <= n,
                    n == search_space.distributions.len(),
                    sv == search_space@,
                    self.wf(),
                    forall|a: int, b: int|
                        0 <= a < i && 0 <= b < n && a != b ==> (#[trigger] sv[a]).0 != (#[trigger] sv[b]).0,
                    forall|b: int| 0 <= b < j && i != b ==> sv[i as int].0 != (#[trigger] sv[b]).0,
                decreases n - j,
            {
                if i != j && search_space.distributions[i].0 == search_space.distributions[j].0 {
                    assert(sv[i as int].0 == sv[j as int].0);
                    return Err(SamplerError::InconsistentDistribution);
                }
                j = j + 1;
            }
            i = i + 1;
        }
        self.search_space = search_space;
        Ok(())
    }

    /// The current search space.
    pub fn search_space(&self) -> (r: &SearchSpace)
        ensures
            r@ == self@,
    {
        &self.search_space
    }

    /// Brings every `(name, parameter)` pair of the trials, in order, into the
    /// search space. On an error the search space is left as it was.
    pub fn sync(&mut self, trials: &Vec<Trial>) -> (r: Result<(), SamplerError>)
        requires
            old(self).wf(),
        ensures
            final(self).wf(),
            match sync_trials(old(self)@, trials_view(trials@)) {
                Ok(e) => r is Ok && final(self)@ == e,
                Err(x) => r == Err::<(), SamplerError>(x) && final(self)@ == old(self)@,
            },
    {
        let ghost e0 = self@;
        let ghost tv = trials_view(trials@);
        let mut work = clone_entries(&self.search_space.distributions);
        let mut t: usize = 0;
        while t < trials.len()
            invariant
                t <= trials.len(),
                tv == trials_view(trials@),
                e0 == self@,
                self.wf(),
                unique_names(entries_view(work@)),
                sync_trials(e0, tv.take(t as int)) == Ok::<Entries, SamplerError>(
                    entries_view(work@),
                ),
            decreases trials.len() - t,
        {
            let ghost et = entries_view(work@);
            let ghost ps = tv[t as int];
            assert(tv.len() == trials@.len());
            assert(tv.take(t + 1).drop_last() =~= tv.take(t as int));
            assert(ps == named_params(trials@[t as int].parameters@));
            let params = &trials[t].parameters;
            let mut k: usize = 0;
            while k < params.len()
                invariant
                    k <= params.len(),
                    ps == named_params(params@),
                    t < tv.len(),
                    ps == tv[t as int],
                    tv == trials_view(trials@),
                    e0 == self@,
                    self.wf(),
                    tv.take(t + 1).drop_last() == tv.take(t as int),
                    sync_trials(e0, tv.take(t as int)) == Ok::<Entries, SamplerError>(et),
                    unique_names(entries_view(work@)),
                    sync_params(et, ps.take(k as int)) == Ok::<Entries, SamplerError>(
                        entries_view(work@),
                    ),
                decreases params.len() - k,
            {
                assert(ps.take(k + 1).drop_last() =~= ps.take(k as int));
                assert(ps[k as int] == (params@[k as int].0@, params@[k as int].1@));
                match apply(&mut work, &params[k].0, &params[k].1) {
                    Err(e) => {
                        proof {
                            lemma_params_err(et, ps, k + 1);
                            assert(tv.take(t + 1)[t as int] == tv[t as int]);
                            lemma_trials_err(e0, tv, t + 1);
                        }
                        return Err(e);
                    },
                    Ok(()) => {
                        proof {
                            lemma_step_unique(
                                sync_params(et, ps.take(k as int))->Ok_0,
                                ps[k as int].0,
                                ps[k as int].1,
                            );
                        }
                    },
                }
                k = k + 1;
            }
            assert(ps.take(k as int) =~= ps);
            t = t + 1;
        }
        assert(tv.take(t as int) =~= tv);
        self.search_space = SearchSpace { distributions: work };
        Ok(())
    }
}

/// Syncing a batch and then another gives what syncing the two batches in
/// one call gives: a parameter's value set grows the same way either way.
pub proof fn lemma_sync_union(e: Entries, a: Seq<Batch>, b: Seq<Batch>)
    ensures
        sync_trials(e, a + b) == match sync_trials(e, a) {
            Ok(e1) => sync_trials(e1, b),
            Err(x) => Err(x),
        },
    decreases b.len(),
{
    if b.len() == 0 {
        assert(a + b =~= a);
    } else {
        lemma_sync_union(e, a, b.drop_last());
        assert((a + b).drop_last() =~= a + b.drop_last());
        assert((a + b).last() == b.last());
    }
}

/// A parameter recorded as an integer range is refused when it arrives as a
/// real range.
pub proof fn lemma_int_then_float_conflict(
    e: Entries,
    name: Seq<char>,
    x: crate::model::IntDistribution,
    p: ParamView,
    y: crate::model::FloatDistribution,
)
    requires
        lookup(e, name) == Some(Some(KindView::Int(x))),
        p.distribution == Some(Some(KindView::Float(y))),
    ensures
        step(e, name, p) == Err::<Entries, SamplerError>(SamplerError::InconsistentDistribution),
{
}

/// Two categorical distributions are accepted as the same one when they
/// hold the same set of choices, whatever the order and repetitions.
pub proof fn lemma_categorical_set_equal(stored: Seq<PV>, incoming: Seq<PV>, v: ValueView)
    requires
        !has_absent(stored),
        !has_absent(incoming),
        crate::distribution::equals_one_of(stored, v),
    ensures
        merge(
            Some(KindView::Categorical(stored)),
            ParamView { value: Some(v), distribution: Some(Some(KindView::Categorical(incoming))) },
        ) == (if value_set(stored) == value_set(incoming) {
            Ok::<DV, SamplerError>(Some(KindView::Categorical(stored)))
        } else {
            Err(SamplerError::InconsistentDistribution)
        }),
{
}

proof fn lemma_merge_keeps_concrete(old: DV, p: ParamView)
    requires
        is_concrete(old),
        merge(old, p) is Ok,
    ensures
        merge(old, p) == Ok::<DV, SamplerError>(old),
{
}

proof fn lemma_step_lookup(e: Entries, n2: Seq<char>, p: ParamView, n: Seq<char>)
    requires
        unique_names(e),
        step(e, n2, p) is Ok,
    ensures
        n != n2 ==> lookup(step(e, n2, p)->Ok_0, n) == lookup(e, n),
        has_name(e, n2) ==> lookup(step(e, n2, p)->Ok_0, n2) == Some(
            merge(lookup(e, n2)->Some_0, p)->Ok_0,
        ),
{
    let e2 = step(e, n2, p)->Ok_0;
    lemma_step_unique(e, n2, p);
    if has_name(e, n2) {
        let i = index_of(e, n2);
        assert(e2.len() == e.len());
        assert(e2[i].0 == n2);
        assert(has_name(e2, n2));
        assert(index_of(e2, n2) == i);
    }
    if n != n2 {
        if has_name(e, n) {
            let j = index_of(e, n);
            assert(e2[j] == e[j]);
            assert(has_name(e2, n));
            assert(index_of(e2, n) == j);
        } else if has_name(e2, n) {
            let j = index_of(e2, n);
            if j < e.len() {
                assert(e2[j] == e[j]);
            } else {
                assert(e2[j].0 == n2);
            }
        }
    }
}

proof fn lemma_step_keeps_concrete(e: Entries, n2: Seq<char>, p: ParamView, n: Seq<char>)
    requires
        unique_names(e),
        step(e, n2, p) is Ok,
        lookup(e, n) matches Some(d) && is_concrete(d),
    ensures
        lookup(step(e, n2, p)->Ok_0, n) == lookup(e, n),
{
    lemma_step_lookup(e, n2, p, n);
    if n == n2 {
        lemma_merge_keeps_concrete(lookup(e, n)->Some_0, p);
    }
}

proof fn lemma_params_keep_concrete(e: Entries, ps: Batch, n: Seq<char>)
    requires
        unique_names(e),
        sync_params(e, ps) is Ok,
        lookup(e, n) matches Some(d) && is_concrete(d),
    ensures
        lookup(sync_params(e, ps)->Ok_0, n) == lookup(e, n),
    decreases ps.len(),
{
    if ps.len() > 0 {
        lemma_params_keep_concrete(e, ps.drop_last(), n);
        lemma_params_unique(e, ps.drop_last());
        lemma_step_keeps_concrete(sync_params(e, ps.drop_last())->Ok_0, ps.last().0, ps.last().1, n);
    }
}

/// Once a parameter has a concrete distribution, no later sync changes it,
/// so in particular none turns it back into an unknown one.
pub proof fn lemma_sync_keeps_concrete(e: Entries, ts: Seq<Batch>, n: Seq<char>)
    requires
        unique_names(e),
        sync_trials(e, ts) is Ok,
        lookup(e, n) matches Some(d) && is_concrete(d),
    ensures
        lookup(sync_trials(e, ts)->Ok_0, n) == lookup(e, n),
    decreases ts.len(),
{
    if ts.len() > 0 {
        lemma_sync_keeps_concrete(e, ts.drop_last(), n);
        lemma_trials_unique(e, ts.drop_last());
        lemma_params_keep_concrete(sync_trials(e, ts.drop_last())->Ok_0, ts.last(), n);
    }
}

/// No pair of the trial carries an explicit distribution.
pub open spec fn bare(ps: Batch) -> bool {
    forall|k: int| 0 <= k < ps.len() ==> (#[trigger] ps[k]).1.distribution is None
}

pub open spec fn all_bare(ts: Seq<Batch>) -> bool {
    forall|t: int| 0 <= t < ts.len() ==> bare(#[trigger] ts[t])
}

/// The entries already account for the value `v` under `n`: syncing it again
/// as a bare value changes nothing.
pub open spec fn absorbs(e: Entries, n: Seq<char>, v: ValueView) -> bool {
    has_name(e, n) && match lookup(e, n)->Some_0 {
        Some(KindView::Unknown(ov)) => !has_absent(ov) && ov.contains(Some(v)),
        d => spec_contains(d, Some(v)) == Ok::<bool, SamplerError>(true),
    }
}

pub open spec fn absorbs_pair(e: Entries, q: (Seq<char>, ParamView)) -> bool {
    q.1.value matches Some(v) && absorbs(e, q.0, v)
}

pub open spec fn absorbs_batch(e: Entries, ps: Batch) -> bool {
    forall|k: int| 0 <= k < ps.len() ==> absorbs_pair(e, #[trigger] ps[k])
}

proof fn lemma_extend_keeps(a: Seq<PV>, b: Seq<PV>)
    ensures
        forall|x: PV| a.contains(x) ==> extend_seq(a, b).contains(x),
        forall|x: PV| b.contains(x) ==> extend_seq(a, b).contains(x),
        !has_absent(a) && !has_absent(b) ==> !has_absent(extend_seq(a, b)),
    decreases b.len(),
{
    if b.len() > 0 {
        let r = extend_seq(a, b.drop_last());
        lemma_extend_keeps(a, b.drop_last());
        assert forall|x: PV| b.contains(x) implies extend_seq(a, b).contains(x) by {
            let k = choose|k: int| 0 <= k < b.len() && b[k] == x;
            if k < b.len() - 1 {
                assert(b.drop_last()[k] == x);
                assert(b.drop_last().contains(x));
                assert(r.contains(x));
                if !r.contains(b.last()) {
                    let m = choose|m: int| 0 <= m < r.len() && r[m] == x;
                    assert(r.push(b.last())[m] == x);
                }
            } else if !r.contains(b.last()) {
                assert(r.push(b.last())[r.len() as int] == x);
            }
        }
        assert forall|x: PV| a.contains(x) implies extend_seq(a, b).contains(x) by {
            assert(r.contains(x));
            if !r.contains(b.last()) {
                let m = choose|m: int| 0 <= m < r.len() && r[m] == x;
                assert(r.push(b.last())[m] == x);
            }
        }
        if !has_absent(a) && !has_absent(b) && !r.contains(b.last()) {
            assert(b.last() == b[b.len() - 1]);
            assert forall|j: int| 0 <= j < r.push(b.last()).len() implies !(#[trigger] r.push(
                b.last(),
            )[j] is None) by {
                if j < r.len() {
                    assert(r.push(b.last())[j] == r[j]);
                }
            }
        }
    }
}

proof fn lemma_absorbed_step(e: Entries, n: Seq<char>, p: ParamView)
    requires
        unique_names(e),
        p.distribution is None,
        p.value matches Some(v) && absorbs(e, n, v),
    ensures
        step(e, n, p) == Ok::<Entries, SamplerError>(e),
{
    let v = p.value->Some_0;
    let i = index_of(e, n);
    let d = e[i].1;
    let single = seq![Some(v)];
    assert(single.drop_last() =~= Seq::<PV>::empty());
    assert(single.last() == Some(v));
    assert(e.update(i, (n, d)) =~= e);
    match d {
        Some(KindView::Unknown(ov)) => {
            assert(extend_seq(ov, Seq::<PV>::empty()) == ov);
            assert(extend_seq(ov, single) == ov);
            assert(merge(d, p) == Ok::<DV, SamplerError>(d));
        },
        _ => {
            assert(merge(d, p) == Ok::<DV, SamplerError>(d));
        },
    }
}

proof fn lemma_step_absorbs(e: Entries, n: Seq<char>, p: ParamView)
    requires
        unique_names(e),
        p.distribution is None,
        step(e, n, p) is Ok,
    ensures
        absorbs_pair(step(e, n, p)->Ok_0, (n, p)),
{
    let e2 = step(e, n, p)->Ok_0;
    let v = p.value->Some_0;
    lemma_step_unique(e, n, p);
    lemma_step_lookup(e, n, p, n);
    let single = seq![Some(v)];
    assert(single[0] == Some(v));
    assert(single.contains(Some(v)));
    assert(!has_absent(single));
    if has_name(e, n) {
        let i = index_of(e, n);
        assert(e2[i].0 == n);
        assert(has_name(e2, n));
        let d = lookup(e, n)->Some_0;
        match d {
            Some(KindView::Unknown(ov)) => {
                lemma_extend_keeps(ov, single);
                assert(lookup(e2, n) == Some(Some(KindView::Unknown(extend_seq(ov, single)))));
            },
            _ => {
                assert(spec_contains(d, Some(v)) == Ok::<bool, SamplerError>(true));
                assert(lookup(e2, n) == Some(d));
            },
        }
    } else {
        let i = e.len() as int;
        assert(e2[i].0 == n);
        assert(has_name(e2, n));
        assert(index_of(e2, n) == i);
    }
}

proof fn lemma_step_keeps_absorbed(e: Entries, n2: Seq<char>, p: ParamView, n: Seq<char>, v: ValueView)
    requires
        unique_names(e),
        p.distribution is None,
        step(e, n2, p) is Ok,
        absorbs(e, n, v),
    ensures
        absorbs(step(e, n2, p)->Ok_0, n, v),
{
    let e2 = step(e, n2, p)->Ok_0;
    lemma_step_lookup(e, n2, p, n);
    if n == n2 {
        match lookup(e, n)->Some_0 {
            Some(KindView::Unknown(ov)) => {
                lemma_extend_keeps(ov, seq![Some(p.value->Some_0)]);
                assert(seq![Some(p.value->Some_0)][0] == Some(p.value->Some_0));
            },
            _ => {},
        }
    }
    assert(lookup(e2, n) is Some);
}

proof fn lemma_params_keep_absorbed(e: Entries, ps: Batch, n: Seq<char>, v: ValueView)
    requires
        unique_names(e),
        bare(ps),
        sync_params(e, ps) is Ok,
        absorbs(e, n, v),
    ensures
        absorbs(sync_params(e, ps)->Ok_0, n, v),
    decreases ps.len(),
{
    if ps.len() > 0 {
        assert(ps.last() == ps[ps.len() - 1]);
        lemma_params_keep_absorbed(e, ps.drop_last(), n, v);
        lemma_params_unique(e, ps.drop_last());
        lemma_step_keeps_absorbed(sync_params(e, ps.drop_last())->Ok_0, ps.last().0, ps.last().1, n, v);
    }
}

proof fn lemma_trials_keep_absorbed(e: Entries, ts: Seq<Batch>, n: Seq<char>, v: ValueView)
    requires
        unique_names(e),
        all_bare(ts),
        sync_trials(e, ts) is Ok,
        absorbs(e, n, v),
    ensures
        absorbs(sync_trials(e, ts)->Ok_0, n, v),
    decreases ts.len(),
{
    if ts.len() > 0 {
        assert(ts.last() == ts[ts.len() - 1]);
        lemma_trials_keep_absorbed(e, ts.drop_last(), n, v);
        lemma_trials_unique(e, ts.drop_last());
        lemma_params_keep_absorbed(sync_trials(e, ts.drop_last())->Ok_0, ts.last(), n, v);
    }
}

proof fn lemma_params_absorb(e: Entries, ps: Batch)
    requires
        unique_names(e),
        bare(ps),
        sync_params(e, ps) is Ok,
    ensures
        absorbs_batch(sync_params(e, ps)->Ok_0, ps),
    decreases ps.len(),
{
    if ps.len() > 0 {
        let init = ps.drop_last();
        let mid = sync_params(e, init)->Ok_0;
        let e1 = sync_params(e, ps)->Ok_0;
        assert(ps.last() == ps[ps.len() - 1]);
        lemma_params_absorb(e, init);
        lemma_params_unique(e, init);
        lemma_step_absorbs(mid, ps.last().0, ps.last().1);
        assert forall|k: int| 0 <= k < ps.len() implies absorbs_pair(e1, #[trigger] ps[k]) by {
            if k < ps.len() - 1 {
                assert(init[k] == ps[k]);
                assert(absorbs_pair(mid, init[k]));
                lemma_step_keeps_absorbed(mid, ps.last().0, ps.last().1, ps[k].0, ps[k].1.value->Some_0);
            }
        }
    }
}

proof fn lemma_trials_absorb(e: Entries, ts: Seq<Batch>, t: int)
    requires
        unique_names(e),
        all_bare(ts),
        sync_trials(e, ts) is Ok,
        0 <= t < ts.len(),
    ensures
        absorbs_batch(sync_trials(e, ts)->Ok_0, ts[t]),
    decreases ts.len(),
{
    let init = ts.drop_last();
    let mid = sync_trials(e, init)->Ok_0;
    let e1 = sync_trials(e, ts)->Ok_0;
    assert(ts.last() == ts[ts.len() - 1]);
    lemma_trials_unique(e, init);
    if t == ts.len() - 1 {
        lemma_params_absorb(mid, ts.last());
    } else {
        assert(init[t] == ts[t]);
        lemma_trials_absorb(e, init, t);
        assert forall|k: int| 0 <= k < ts[t].len() implies absorbs_pair(e1, #[trigger] ts[t][k]) by {
            assert(absorbs_pair(mid, ts[t][k]));
            lemma_params_keep_absorbed(mid, ts.last(), ts[t][k].0, ts[t][k].1.value->Some_0);
        }
    }
}

proof fn lemma_params_absorbed(e: Entries, ps: Batch)
    requires
        unique_names(e),
        bare(ps),
        absorbs_batch(e, ps),
    ensures
        sync_params(e, ps) == Ok::<Entries, SamplerError>(e),
    decreases ps.len(),
{
    if ps.len() > 0 {
        let init = ps.drop_last();
        assert forall|k: int| 0 <= k < init.len() implies absorbs_pair(e, #[trigger] init[k]) by {
            assert(init[k] == ps[k]);
        }
        lemma_params_absorbed(e, init);
        assert(ps.last() == ps[ps.len() - 1]);
        assert(absorbs_pair(e, ps[ps.len() - 1]));
        lemma_absorbed_step(e, ps.last().0, ps.last().1);
    }
}

proof fn lemma_trials_absorbed(e: Entries, ts: Seq<Batch>)
    requires
        unique_names(e),
        all_bare(ts),
        forall|t: int| 0 <= t < ts.len() ==> absorbs_batch(e, #[trigger] ts[t]),
    ensures
        sync_trials(e, ts) == Ok::<Entries, SamplerError>(e),
    decreases ts.len(),
{
    if ts.len() > 0 {
        let init = ts.drop_last();
        assert forall|t: int| 0 <= t < init.len() implies absorbs_batch(e, #[trigger] init[t]) by {
            assert(init[t] == ts[t]);
        }
        assert forall|t: int| 0 <= t < init.len() implies bare(#[trigger] init[t]) by {
            assert(init[t] == ts[t]);
        }
        lemma_trials_absorbed(e, init);
        assert(ts.last() == ts[ts.len() - 1]);
        lemma_params_absorbed(e, ts.last());
    }
}

/// Syncing a batch of bare values a second time leaves the search space as
/// the first sync made it.
pub proof fn lemma_sync_idempotent(e: Entries, ts: Seq<Batch>)
    requires
        unique_names(e),
        all_bare(ts),
        sync_trials(e, ts) is Ok,
    ensures
        sync_trials(sync_trials(e, ts)->Ok_0, ts) == sync_trials(e, ts),
{
    let e1 = sync_trials(e, ts)->Ok_0;
    lemma_trials_unique(e, ts);
    assert forall|t: int| 0 <= t < ts.len() implies absorbs_batch(e1, #[trigger] ts[t]) by {
        lemma_trials_absorb(e, ts, t);
    }
    lemma_trials_absorbed(e1, ts);
}

} // verus!
