//! The values, distributions and records that the samplers exchange.
use vstd::prelude::*;
use crate::float_bits;

verus! {

/// One concrete parameter value. A double is held as its IEEE 754 bit pattern.
pub enum Value {
    IntValue(i64),
    DoubleValue(u64),
    StringValue(String),
}

/// The mathematical form of a `Value`.
pub enum ValueView {
    Int(i64),
    Double(u64),
    Str(Seq<char>),
}

impl View for Value {
    type V = ValueView;

    open spec fn view(&self) -> ValueView {
        match self {
            Value::IntValue(i) => ValueView::Int(*i),
            Value::DoubleValue(d) => ValueView::Double(*d),
            Value::StringValue(s) => ValueView::Str(s@),
        }
    }
}

/// A parameter value, possibly absent.
pub struct ParameterValue {
    pub value: Option<Value>,
}

/// The mathematical form of a `ParameterValue`.
pub type PV = Option<ValueView>;

impl View for ParameterValue {
    type V = PV;

    open spec fn view(&self) -> PV {
        match &self.value {
            Some(v) => Some(v@),
            None => None,
        }
    }
}

pub open spec fn pv_seq(s: Seq<ParameterValue>) -> Seq<PV> {
    s.map_values(|p: ParameterValue| p@)
}

#[derive(PartialEq, Eq, Structural, Clone, Copy, Debug)]
pub struct IntDistribution {
    pub low: i64,
    pub high: i64,
    pub log_scale: bool,
}

/// A real range whose bounds are IEEE 754 bit patterns.
#[derive(PartialEq, Eq, Structural, Clone, Copy, Debug)]
pub struct FloatDistribution {
    pub low: u64,
    pub high: u64,
    pub log_scale: bool,
}

pub struct CategoricalDistribution {
    pub choices: Vec<ParameterValue>,
}

pub struct FixedDistribution {
    pub value: Option<ParameterValue>,
}

pub struct UnknownDistribution {
    pub values: Vec<ParameterValue>,
}

pub enum DistributionKind {
    IntDistribution(IntDistribution),
    FloatDistribution(FloatDistribution),
    CategoricalDistribution(CategoricalDistribution),
    FixedDistribution(FixedDistribution),
    UnknownDistribution(UnknownDistribution),
}

/// The domain a value was or may be drawn from; the kind may be absent.
pub struct Distribution {
    pub distribution: Option<DistributionKind>,
}

/// The mathematical form of a present distribution kind.
pub enum KindView {
    Int(IntDistribution),
    Float(FloatDistribution),
    Categorical(Seq<PV>),
    Fixed(Option<PV>),
    Unknown(Seq<PV>),
}

pub type DV = Option<KindView>;

impl View for DistributionKind {
    type V = KindView;

    open spec fn view(&self) -> KindView {
        match self {
            DistributionKind::IntDistribution(d) => KindView::Int(*d),
            DistributionKind::FloatDistribution(d) => KindView::Float(*d),
            DistributionKind::CategoricalDistribution(d) => KindView::Categorical(pv_seq(d.choices@)),
            DistributionKind::FixedDistribution(d) => KindView::Fixed(
                match &d.value {
                    Some(v) => Some(v@),
                    None => None,
                },
            ),
            DistributionKind::UnknownDistribution(d) => KindView::Unknown(pv_seq(d.values@)),
        }
    }
}

impl View for Distribution {
    type V = DV;

    open spec fn view(&self) -> DV {
        match &self.distribution {
            Some(k) => Some(k@),
            None => None,
        }
    }
}

/// A parameter as a trial carries it: its value and, optionally, the
/// distribution it was drawn from.
pub struct Parameter {
    pub value: Option<Value>,
    pub distribution: Option<Distribution>,
}

pub struct ParamView {
    pub value: PV,
    pub distribution: Option<DV>,
}

impl View for Parameter {
    type V = ParamView;

    open spec fn view(&self) -> ParamView {
        ParamView {
            value: match &self.value {
                Some(v) => Some(v@),
                None => None,
            },
            distribution: match &self.distribution {
                Some(d) => Some(d@),
                None => None,
            },
        }
    }
}

/// One completed evaluation: an identifier and named parameters.
pub struct Trial {
    pub trial_id: String,
    pub parameters: Vec<(String, Parameter)>,
}

pub open spec fn named_params(s: Seq<(String, Parameter)>) -> Seq<(Seq<char>, ParamView)> {
    s.map_values(|e: (String, Parameter)| (e.0@, e.1@))
}

pub open spec fn trials_view(s: Seq<Trial>) -> Seq<Seq<(Seq<char>, ParamView)>> {
    s.map_values(|t: Trial| named_params(t.parameters@))
}

/// A point of the parameter space, without distributions.
pub struct Observation {
    pub parameters: Vec<(String, ParameterValue)>,
}

/// Named distributions. Each name stands at most once.
pub struct SearchSpace {
    pub distributions: Vec<(String, Distribution)>,
}

pub open spec fn entries_view(s: Seq<(String, Distribution)>) -> Seq<(Seq<char>, DV)> {
    s.map_values(|e: (String, Distribution)| (e.0@, e.1@))
}

impl View for SearchSpace {
    type V = Seq<(Seq<char>, DV)>;

    open spec fn view(&self) -> Seq<(Seq<char>, DV)> {
        entries_view(self.distributions@)
    }
}

/// An objective descriptor, passed through untouched.
pub struct Target {
    pub name: String,
    pub maximize: bool,
}

/// The failures that the samplers report.
#[derive(PartialEq, Eq, Structural, Clone, Copy, Debug)]
pub enum SamplerError {
    /// Variant data is missing, or a distribution cannot be sampled as given.
    MalformedDistribution,
    /// Two pieces of evidence disagree on a parameter's distribution.
    InconsistentDistribution,
    /// Membership or density was asked of an unknown distribution.
    UndefinedOperation,
    /// A kernel was given a non-positive scale or out-of-order bounds.
    InvalidParameter,
}

/// Equality of values as `==` on the numbers gives it: doubles compare
/// as IEEE 754 numbers.
pub open spec fn value_equal(a: ValueView, b: ValueView) -> bool {
    match (a, b) {
        (ValueView::Int(x), ValueView::Int(y)) => x == y,
        (ValueView::Double(x), ValueView::Double(y)) => float_bits::spec_eq(x, y),
        (ValueView::Str(x), ValueView::Str(y)) => x == y,
        _ => false,
    }
}

pub open spec fn pv_equal(a: PV, b: PV) -> bool {
    match (a, b) {
        (Some(x), Some(y)) => value_equal(x, y),
        (None, None) => true,
        _ => false,
    }
}

pub fn value_eq(a: &Value, b: &Value) -> (r: bool)
    ensures
        r == value_equal(a@, b@),
{
    match (a, b) {
        (Value::IntValue(x), Value::IntValue(y)) => *x == *y,
        (Value::DoubleValue(x), Value::DoubleValue(y)) => float_bits::eq(*x, *y),
        (Value::StringValue(x), Value::StringValue(y)) => *x == *y,
        _ => false,
    }
}

pub fn parameter_value_eq(a: &ParameterValue, b: &ParameterValue) -> (r: bool)
    ensures
        r == pv_equal(a@, b@),
{
    match (&a.value, &b.value) {
        (Some(x), Some(y)) => value_eq(x, y),
        (None, None) => true,
        _ => false,
    }
}

pub fn clone_value(v: &Value) -> (r: Value)
    ensures
        r@ == v@,
{
    match v {
        Value::IntValue(i) => Value::IntValue(*i),
        Value::DoubleValue(d) => Value::DoubleValue(*d),
        Value::StringValue(s) => Value::StringValue(s.clone()),
    }
}

pub fn clone_parameter_value(p: &ParameterValue) -> (r: ParameterValue)
    ensures
        r@ == p@,
{
    match &p.value {
        Some(v) => ParameterValue { value: Some(clone_value(v)) },
        None => ParameterValue { value: None },
    }
}

pub fn clone_values(s: &Vec<ParameterValue>) -> (r: Vec<ParameterValue>)
    ensures
        pv_seq(r@) == pv_seq(s@),
{
    let mut r: Vec<ParameterValue> = Vec::new();
    let mut i: usize = 0;
    while i < s.len()
        invariant
            i <= s.len(),
            r@.len() == i,
            forall|j: int| 0 <= j < i ==> (#[trigger] r@[j])@ == s@[j]@,
        decreases s.len() - i,
    {
        r.push(clone_parameter_value(&s[i]));
        i = i + 1;
    }
    assert(pv_seq(r@) =~= pv_seq(s@));
    r
}

pub fn clone_distribution(d: &Distribution) -> (r: Distribution)
    ensures
        r@ == d@,
{
    let k = match &d.distribution {
        None => None,
        Some(DistributionKind::IntDistribution(x)) => Some(DistributionKind::IntDistribution(*x)),
        Some(DistributionKind::FloatDistribution(x)) => Some(DistributionKind::FloatDistribution(*x)),
        Some(DistributionKind::CategoricalDistribution(x)) => Some(
            DistributionKind::CategoricalDistribution(
                CategoricalDistribution { choices: clone_values(&x.choices) },
            ),
        ),
        Some(DistributionKind::FixedDistribution(x)) => Some(
            DistributionKind::FixedDistribution(
                FixedDistribution {
                    value: match &x.value {
                        Some(v) => Some(clone_parameter_value(v)),
                        None => None,
                    },
                },
            ),
        ),
        Some(DistributionKind::UnknownDistribution(x)) => Some(
            DistributionKind::UnknownDistribution(
                UnknownDistribution { values: clone_values(&x.values) },
            ),
        ),
    };
    Distribution { distribution: k }
}

} // verus!
