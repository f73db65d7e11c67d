//! Building distributions, and membership of a value in one.
use vstd::prelude::*;
use crate::float_bits;
use crate::model::{
    pv_equal, pv_seq, value_eq, value_equal, CategoricalDistribution, Distribution,
    DistributionKind, FixedDistribution, FloatDistribution, IntDistribution, KindView,
    ParameterValue, SamplerError, UnknownDistribution, Value, ValueView, DV, PV,
};

verus! {

pub fn int_distribution(low: i64, high: i64, log_scale: bool) -> (r: Distribution)
    ensures
        r@ == Some(KindView::Int(IntDistribution { low, high, log_scale })),
{
    Distribution {
        distribution: Some(
            DistributionKind::IntDistribution(IntDistribution { low, high, log_scale }),
        ),
    }
}

/// A real range; `low` and `high` are IEEE 754 bit patterns.
pub fn float_distribution(low: u64, high: u64, log_scale: bool) -> (r: Distribution)
    ensures
        r@ == Some(KindView::Float(FloatDistribution { low, high, log_scale })),
{
    Distribution {
        distribution: Some(
            DistributionKind::FloatDistribution(FloatDistribution { low, high, log_scale }),
        ),
    }
}

pub fn categorical_distribution(choices: Vec<ParameterValue>) -> (r: Distribution)
    ensures
        r@ == Some(KindView::Categorical(pv_seq(choices@))),
{
    Distribution {
        distribution: Some(
            DistributionKind::CategoricalDistribution(CategoricalDistribution { choices }),
        ),
    }
}

pub fn fixed_distribution(value: ParameterValue) -> (r: Distribution)
    ensures
        r@ == Some(KindView::Fixed(Some(value@))),
{
    Distribution {
        distribution: Some(
            DistributionKind::FixedDistribution(FixedDistribution { value: Some(value) }),
        ),
    }
}

pub fn unknown_distribution(values: Vec<ParameterValue>) -> (r: Distribution)
    ensures
        r@ == Some(KindView::Unknown(pv_seq(values@))),
{
    Distribution {
        distribution: Some(
            DistributionKind::UnknownDistribution(UnknownDistribution { values }),
        ),
    }
}

/// Some choice of the sequence is an absent value.
pub open spec fn has_absent(s: Seq<PV>) -> bool {
    exists|j: int| 0 <= j < s.len() && (#[trigger] s[j]) is None
}

/// `v` equals one of the values of `s`.
pub open spec fn equals_one_of(s: Seq<PV>, v: ValueView) -> bool {
    exists|j: int| 0 <= j < s.len() && pv_equal(#[trigger] s[j], Some(v))
}

/// Whether `p` lies in `d`. Asking this of an unknown distribution is an
/// error, as is a fixed or categorical distribution with an absent value.
pub open spec fn spec_contains(d: DV, p: PV) -> Result<bool, SamplerError> {
    match d {
        Some(KindView::Unknown(_)) => Err(SamplerError::UndefinedOperation),
        None => Ok(false),
        Some(k) => match p {
            None => Ok(false),
            Some(v) => match k {
                KindView::Int(x) => Ok(
                    match v {
                        ValueView::Int(i) => x.low <= i && i <= x.high,
                        _ => false,
                    },
                ),
                KindView::Float(x) => Ok(
                    match v {
                        ValueView::Double(b) => float_bits::spec_le(x.low, b)
                            && float_bits::spec_le(b, x.high),
                        _ => false,
                    },
                ),
                KindView::Categorical(cs) => if has_absent(cs) {
                    Err(SamplerError::MalformedDistribution)
                } else {
                    Ok(equals_one_of(cs, v))
                },
                KindView::Fixed(f) => match f {
                    Some(Some(w)) => Ok(value_equal(w, v)),
                    _ => Err(SamplerError::MalformedDistribution),
                },
                KindView::Unknown(_) => Err(SamplerError::UndefinedOperation),
            },
        },
    }
}

pub fn contains(distribution: &Distribution, parameter: &ParameterValue) -> (r: Result<
    bool,
    SamplerError,
>)
    ensures
        r == spec_contains(distribution@, parameter@),
{
    match &distribution.distribution {
        Some(DistributionKind::UnknownDistribution(_)) => Err(SamplerError::UndefinedOperation),
        None => Ok(false),
        Some(kind) => match &parameter.value {
            None => Ok(false),
            Some(v) => match kind {
                DistributionKind::IntDistribution(x) => Ok(
                    match v {
                        Value::IntValue(i) => x.low <= *i && *i <= x.high,
                        _ => false,
                    },
                ),
                DistributionKind::FloatDistribution(x) => Ok(
                    match v {
                        Value::DoubleValue(b) => float_bits::le(x.low, *b) && float_bits::le(
                            *b,
                            x.high,
                        ),
                        _ => false,
                    },
                ),
                DistributionKind::CategoricalDistribution(c) => {
                    let ghost cs = pv_seq(c.choices@);
                    let mut found = false;
                    let mut i: usize = 0;
                    while i < c.choices.len()
                        invariant
                            i <= c.choices.len(),
                            cs == pv_seq(c.choices@),
                            distribution@ == Some(KindView::Categorical(cs)),
                            parameter@ == Some(v@),
                            forall|j: int| 0 <= j < i ==> (#[trigger] cs[j]) is Some,
                            found == (exists|j: int|
                                0 <= j < i && pv_equal(#[trigger] cs[j], Some(v@))),
                        decreases c.choices.len() - i,
                    {
                        assert(cs[i as int] == c.choices@[i as int]@);
                        match &c.choices[i].value {
                            None => {
                                assert(cs[i as int] == c.choices@[i as int]@);
                                assert(has_absent(cs));
                                return Err(SamplerError::MalformedDistribution);
                            },
                            Some(w) => {
                                if value_eq(w, v) {
                                    found = true;
                                }
                            },
                        }
                        i = i + 1;
                    }
                    Ok(found)
                },
                DistributionKind::FixedDistribution(f) => match &f.value {
                    Some(ParameterValue { value: Some(w) }) => Ok(value_eq(w, v)),
                    _ => Err(SamplerError::MalformedDistribution),
                },
                DistributionKind::UnknownDistribution(_) => Err(SamplerError::UndefinedOperation),
            },
        },
    }
}

} // verus!
