//! A sampler that draws uniformly from a distribution, whatever the history.
use vstd::prelude::*;
use rand::Rng;
use rand::rngs::StdRng;
use crate::float_bits::{is_finite, spec_le, spec_lt};
use crate::float_bits;
use crate::model::{
    clone_parameter_value, Distribution, DistributionKind, KindView, Observation,
    ParameterValue, SamplerError, SearchSpace, Target, Trial, Value, ValueView, DV, PV,
};

verus! {

/// rand's standard generator, carried through opaquely; every draw from it
/// goes through the wrappers below.
#[verifier::external_type_specification]
#[verifier::external_body]
pub struct ExStdRng(rand::rngs::StdRng);

/// Relies on `rand::Rng::gen_range` over an inclusive `i64` range: it panics
/// only on an empty range and returns a value inside it.
#[verifier::external_body]
fn draw_int(rng: &mut StdRng, low: i64, high: i64) -> (r: i64)
    requires
        low <= high,
    ensures
        low <= r <= high,
{
    rng.gen_range(low..=high)
}

/// Relies on `rand::Rng::gen_range` over `0..n`: it panics only on an empty
/// range and returns a value inside it.
#[verifier::external_body]
fn draw_index(rng: &mut StdRng, n: usize) -> (r: usize)
    requires
        n > 0,
    ensures
        r < n,
{
    rng.gen_range(0..n)
}

/// The number of equally likely steps of a unit draw: a draw `k` stands
/// for the fraction `k / 2^53` of a real range.
pub const UNIT_STEPS: i64 = 0x20_0000_0000_0000;

/// Whether a draw from `d` can be made.
pub open spec fn sampleable(d: DV) -> bool {
    match d {
        None => false,
        Some(KindView::Int(x)) => x.low <= x.high,
        Some(KindView::Float(x)) => is_finite(x.low) && is_finite(x.high) && spec_le(x.low, x.high),
        Some(KindView::Categorical(cs)) => cs.len() > 0,
        Some(KindView::Fixed(f)) => f is Some,
        Some(KindView::Unknown(_)) => true,
    }
}

/// `v` is a possible draw from `d`.
pub open spec fn drawn_from(d: KindView, v: PV) -> bool {
    match d {
        KindView::Int(x) => match v {
            Some(ValueView::Int(i)) => x.low <= i && i <= x.high,
            _ => false,
        },
        KindView::Float(x) => match v {
            Some(ValueView::Double(b)) => if spec_lt(x.low, x.high) {
                spec_le(x.low, b) && spec_lt(b, x.high)
            } else {
                b == x.low
            },
            _ => false,
        },
        KindView::Categorical(cs) => cs.contains(v),
        KindView::Fixed(f) => f == Some(v),
        KindView::Unknown(_) => v is None,
    }
}

/// Draws uniformly from any distribution; keeps no history.
pub struct RandomSampler {}

impl Default for RandomSampler {
    fn default() -> (r: Self) {
        RandomSampler {  }
    }
}

impl RandomSampler {
    pub fn new() -> (r: Self) {
        RandomSampler {  }
    }

    /// Nothing to reset.
    pub fn init(&mut self, search_space: SearchSpace, targets: Vec<Target>) {
    }

    /// Nothing to learn from trials.
    pub fn sync(&mut self, trials: &Vec<Trial>) {
    }

    /// This sampler has no joint model: the observation is empty.
    pub fn joint_sample(&self, fixed: &Observation, rng: &mut StdRng) -> (r: Observation)
        ensures
            r.parameters@.len() == 0,
    {
        Observation { parameters: Vec::new() }
    }

    /// One draw from `distribution`: uniform over an integer range, over the
    /// choices by index; the fixed value itself; an absent value for an
    /// unknown distribution. For a real range `[low, high)` a unit draw `k` is
    /// taken from `rng` and `to_real(low, high, k)` places it in the range; a
    /// result outside the range is replaced by `low`.
    pub fn sample<F: Fn(u64, u64, u64) -> u64>(
        &self,
        distribution: &Distribution,
        rng: &mut StdRng,
        to_real: &F,
    ) -> (r: Result<ParameterValue, SamplerError>)
        requires
            forall|low: u64, high: u64, k: u64| to_real.requires((low, high, k)),
        ensures
            r is Ok <==> sampleable(distribution@),
            r matches Ok(v) ==> drawn_from(distribution@->Some_0, v@),
            r matches Err(e) ==> e == SamplerError::MalformedDistribution,
    {
        match &distribution.distribution {
            None => Err(SamplerError::MalformedDistribution),
            Some(DistributionKind::UnknownDistribution(_)) => Ok(ParameterValue { value: None }),
            Some(DistributionKind::IntDistribution(d)) => {
                if d.low > d.high {
                    return Err(SamplerError::MalformedDistribution);
                }
                Ok(ParameterValue { value: Some(Value::IntValue(draw_int(rng, d.low, d.high))) })
            },
            Some(DistributionKind::FloatDistribution(d)) => {
                if !float_bits::finite(d.low) || !float_bits::finite(d.high) {
                    return Err(SamplerError::MalformedDistribution);
                }
                if float_bits::eq(d.low, d.high) {
                    return Ok(ParameterValue { value: Some(Value::DoubleValue(d.low)) });
                }
                if !float_bits::lt(d.low, d.high) {
                    return Err(SamplerError::MalformedDistribution);
                }
                let k = draw_int(rng, 0, UNIT_STEPS - 1);
                let x = to_real(d.low, d.high, k as u64);
                let v = if float_bits::le(d.low, x) && float_bits::lt(x, d.high) {
                    x
                } else {
                    d.low
                };
                Ok(ParameterValue { value: Some(Value::DoubleValue(v)) })
            },
            Some(DistributionKind::CategoricalDistribution(d)) => {
                if d.choices.len() == 0 {
                    return Err(SamplerError::MalformedDistribution);
                }
                let k = draw_index(rng, d.choices.len());
                let r = clone_parameter_value(&d.choices[k]);
                assert(crate::model::pv_seq(d.choices@)[k as int] == r@);
                Ok(r)
            },
            Some(DistributionKind::FixedDistribution(d)) => match &d.value {
                Some(v) => Ok(clone_parameter_value(v)),
                None => Err(SamplerError::MalformedDistribution),
            },
        }
    }
}

} // verus!
