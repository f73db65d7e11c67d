use optur::distribution::{
    categorical_distribution, contains, fixed_distribution, float_distribution, int_distribution,
    unknown_distribution,
};
use optur::model::{Distribution, DistributionKind, Parameter, ParameterValue, SamplerError, SearchSpace, Trial, Value};
use optur::tracker::SearchSpaceTracker;

fn int_value(v: i64) -> ParameterValue {
    ParameterValue { value: Some(Value::IntValue(v)) }
}

fn double(v: f64) -> ParameterValue {
    ParameterValue { value: Some(Value::DoubleValue(v.to_bits())) }
}

fn string(v: &str) -> ParameterValue {
    ParameterValue { value: Some(Value::StringValue(v.to_string())) }
}

fn show_value(p: &ParameterValue) -> String {
    match &p.value {
        Some(Value::IntValue(i)) => format!("{}", i),
        Some(Value::DoubleValue(d)) => format!("{}", f64::from_bits(*d)),
        Some(Value::StringValue(s)) => format!("'{}'", s),
        None => "-".to_string(),
    }
}

fn show(d: &Distribution) -> String {
    let list = |vs: &Vec<ParameterValue>| vs.iter().map(show_value).collect::<Vec<_>>().join(",");
    match &d.distribution {
        Some(DistributionKind::IntDistribution(x)) => format!("int[{},{}]", x.low, x.high),
        Some(DistributionKind::FloatDistribution(x)) => {
            format!("float[{},{}]", f64::from_bits(x.low), f64::from_bits(x.high))
        }
        Some(DistributionKind::CategoricalDistribution(x)) => format!("cat[{}]", list(&x.choices)),
        Some(DistributionKind::FixedDistribution(x)) => match &x.value {
            Some(v) => format!("fixed[{}]", show_value(v)),
            None => "fixed[]".to_string(),
        },
        Some(DistributionKind::UnknownDistribution(x)) => format!("unknown[{}]", list(&x.values)),
        None => "none".to_string(),
    }
}

fn lookup(t: &SearchSpaceTracker, name: &str) -> Option<String> {
    t.search_space().distributions.iter().find(|(n, _)| n == name).map(|(_, d)| show(d))
}

fn bare(id: &str, name: &str, v: ParameterValue) -> Trial {
    Trial {
        trial_id: id.to_string(),
        parameters: vec![(name.to_string(), Parameter { value: v.value, distribution: None })],
    }
}

fn declared(id: &str, name: &str, v: ParameterValue, d: Distribution) -> Trial {
    Trial {
        trial_id: id.to_string(),
        parameters: vec![(name.to_string(), Parameter { value: v.value, distribution: Some(d) })],
    }
}

#[test]
fn end_to_end_unknown_then_int_then_out_of_range() {
    let mut t = SearchSpaceTracker::new();
    t.init(SearchSpace { distributions: Vec::new() }).unwrap();
    t.sync(&vec![bare("a", "p", int_value(3))]).unwrap();
    assert_eq!(lookup(&t, "p").as_deref(), Some("unknown[3]"));
    t.sync(&vec![declared("b", "p", int_value(3), int_distribution(0, 10, false))]).unwrap();
    assert_eq!(lookup(&t, "p").as_deref(), Some("int[0,10]"));
    let r = t.sync(&vec![declared("c", "p", int_value(20), int_distribution(0, 10, false))]);
    assert_eq!(r, Err(SamplerError::InconsistentDistribution));
    assert_eq!(lookup(&t, "p").as_deref(), Some("int[0,10]"));
    let r = t.sync(&vec![bare("d", "p", int_value(20))]);
    assert_eq!(r, Err(SamplerError::InconsistentDistribution));
    let r = t.sync(&vec![declared("e", "p", int_value(7), int_distribution(0, 10, false))]);
    assert_eq!(r, Ok(()));
}

#[test]
fn int_then_float_is_inconsistent() {
    let mut t = SearchSpaceTracker::new();
    t.sync(&vec![bare("a", "p", int_value(3))]).unwrap();
    t.sync(&vec![declared("b", "p", int_value(3), int_distribution(0, 10, false))]).unwrap();
    let r = t.sync(&vec![declared(
        "c",
        "p",
        double(3.0),
        float_distribution(0.0f64.to_bits(), 10.0f64.to_bits(), false),
    )]);
    assert_eq!(r, Err(SamplerError::InconsistentDistribution));
}

#[test]
fn differing_int_bounds_are_inconsistent() {
    let mut t = SearchSpaceTracker::new();
    t.sync(&vec![bare("a", "p", int_value(3))]).unwrap();
    t.sync(&vec![declared("b", "p", int_value(3), int_distribution(0, 10, false))]).unwrap();
    let r = t.sync(&vec![declared("c", "p", int_value(3), int_distribution(0, 11, false))]);
    assert_eq!(r, Err(SamplerError::InconsistentDistribution));
}

#[test]
fn categorical_equality_ignores_order_and_repeats() {
    let mut t = SearchSpaceTracker::new();
    t.sync(&vec![bare("a", "p", int_value(1))]).unwrap();
    t.sync(&vec![declared("b", "p", int_value(1), categorical_distribution(vec![int_value(1), int_value(2)]))]).unwrap();
    assert_eq!(lookup(&t, "p").as_deref(), Some("cat[1,2]"));
    let r = t.sync(&vec![declared("c", "p", int_value(2), categorical_distribution(vec![int_value(2), int_value(1), int_value(1)]))]);
    assert_eq!(r, Ok(()));
    assert_eq!(lookup(&t, "p").as_deref(), Some("cat[1,2]"));
    let r = t.sync(&vec![declared("d", "p", int_value(2), categorical_distribution(vec![int_value(2), int_value(3)]))]);
    assert_eq!(r, Err(SamplerError::InconsistentDistribution));
}

#[test]
fn union_in_two_calls_equals_one_call() {
    let mut two = SearchSpaceTracker::new();
    two.sync(&vec![bare("a", "p", int_value(1)), bare("b", "p", int_value(2))]).unwrap();
    two.sync(&vec![bare("c", "p", int_value(2)), bare("d", "p", string("x"))]).unwrap();
    let mut one = SearchSpaceTracker::new();
    one.sync(&vec![
        bare("a", "p", int_value(1)),
        bare("b", "p", int_value(2)),
        bare("c", "p", int_value(2)),
        bare("d", "p", string("x")),
    ])
    .unwrap();
    assert_eq!(lookup(&two, "p").as_deref(), Some("unknown[1,2,'x']"));
    assert_eq!(lookup(&one, "p"), lookup(&two, "p"));
}

#[test]
fn unknown_evidence_is_merged_without_repeats() {
    let mut t = SearchSpaceTracker::new();
    t.sync(&vec![bare("a", "p", int_value(1))]).unwrap();
    t.sync(&vec![declared("b", "p", int_value(1), unknown_distribution(vec![int_value(2), int_value(1), int_value(2), double(0.5)]))]).unwrap();
    assert_eq!(lookup(&t, "p").as_deref(), Some("unknown[1,2,0.5]"));
}

#[test]
fn syncing_the_same_batch_twice_changes_nothing() {
    let batch = vec![
        bare("a", "p", int_value(1)),
        bare("b", "q", double(0.5)),
        bare("c", "p", int_value(4)),
    ];
    let mut t = SearchSpaceTracker::new();
    t.sync(&batch).unwrap();
    let once: Vec<_> = t.search_space().distributions.iter().map(|(n, d)| (n.clone(), show(d))).collect();
    t.sync(&batch).unwrap();
    let twice: Vec<_> = t.search_space().distributions.iter().map(|(n, d)| (n.clone(), show(d))).collect();
    assert_eq!(once, twice);
    assert_eq!(once, vec![("p".to_string(), "unknown[1,4]".to_string()), ("q".to_string(), "unknown[0.5]".to_string())]);
}

#[test]
fn known_distribution_never_reverts_to_unknown() {
    let mut t = SearchSpaceTracker::new();
    t.sync(&vec![bare("a", "p", int_value(3))]).unwrap();
    t.sync(&vec![declared("b", "p", int_value(3), int_distribution(0, 10, false))]).unwrap();
    t.sync(&vec![declared("c", "p", int_value(4), unknown_distribution(vec![int_value(4), int_value(5)]))]).unwrap();
    t.sync(&vec![bare("d", "p", int_value(9))]).unwrap();
    assert_eq!(lookup(&t, "p").as_deref(), Some("int[0,10]"));
}

#[test]
fn adoption_requires_every_value_to_be_contained() {
    let mut t = SearchSpaceTracker::new();
    t.sync(&vec![bare("a", "p", int_value(3)), bare("b", "p", int_value(30))]).unwrap();
    let r = t.sync(&vec![declared("c", "p", int_value(3), int_distribution(0, 10, false))]);
    assert_eq!(r, Err(SamplerError::InconsistentDistribution));
    assert_eq!(lookup(&t, "p").as_deref(), Some("unknown[3,30]"));
}

#[test]
fn failed_batch_leaves_the_search_space_unchanged() {
    let mut t = SearchSpaceTracker::new();
    t.sync(&vec![bare("a", "p", int_value(3))]).unwrap();
    let r = t.sync(&vec![bare("b", "q", int_value(1)), Trial {
        trial_id: "c".to_string(),
        parameters: vec![("r".to_string(), Parameter { value: None, distribution: None })],
    }]);
    assert_eq!(r, Err(SamplerError::MalformedDistribution));
    assert_eq!(lookup(&t, "q"), None);
    assert_eq!(t.search_space().distributions.len(), 1);
}

#[test]
fn empty_batch_is_accepted() {
    let mut t = SearchSpaceTracker::new();
    assert_eq!(t.sync(&Vec::new()), Ok(()));
    assert!(t.search_space().distributions.is_empty());
}

#[test]
fn init_rejects_a_repeated_name() {
    let mut t = SearchSpaceTracker::new();
    let space = SearchSpace {
        distributions: vec![
            ("p".to_string(), int_distribution(0, 1, false)),
            ("p".to_string(), int_distribution(0, 2, false)),
        ],
    };
    assert_eq!(t.init(space), Err(SamplerError::InconsistentDistribution));
    let space = SearchSpace { distributions: vec![("p".to_string(), int_distribution(0, 1, false))] };
    assert_eq!(t.init(space), Ok(()));
    assert_eq!(lookup(&t, "p").as_deref(), Some("int[0,1]"));
}

#[test]
fn fixed_distributions_compare_by_value() {
    let mut t = SearchSpaceTracker::new();
    t.init(SearchSpace { distributions: vec![("p".to_string(), fixed_distribution(string("sgd")))] }).unwrap();
    assert_eq!(t.sync(&vec![declared("a", "p", string("sgd"), fixed_distribution(string("sgd")))]), Ok(()));
    assert_eq!(
        t.sync(&vec![declared("b", "p", string("sgd"), fixed_distribution(string("adam")))]),
        Err(SamplerError::InconsistentDistribution)
    );
}

#[test]
fn contains_by_kind() {
    let d = int_distribution(0, 10, false);
    assert_eq!(contains(&d, &int_value(0)), Ok(true));
    assert_eq!(contains(&d, &int_value(10)), Ok(true));
    assert_eq!(contains(&d, &int_value(11)), Ok(false));
    assert_eq!(contains(&d, &double(1.0)), Ok(false));
    let f = float_distribution((-1.0f64).to_bits(), 1.0f64.to_bits(), false);
    assert_eq!(contains(&f, &double(-1.0)), Ok(true));
    assert_eq!(contains(&f, &double(-0.0)), Ok(true));
    assert_eq!(contains(&f, &double(1.5)), Ok(false));
    assert_eq!(contains(&f, &double(f64::NAN)), Ok(false));
    assert_eq!(contains(&f, &int_value(0)), Ok(false));
    let c = categorical_distribution(vec![int_value(2), double(0.2), string("x")]);
    assert_eq!(contains(&c, &double(0.2)), Ok(true));
    assert_eq!(contains(&c, &string("x")), Ok(true));
    assert_eq!(contains(&c, &string("y")), Ok(false));
    let x = fixed_distribution(double(0.0));
    assert_eq!(contains(&x, &double(-0.0)), Ok(true));
    let u = unknown_distribution(vec![int_value(1)]);
    assert_eq!(contains(&u, &int_value(1)), Err(SamplerError::UndefinedOperation));
    let bad = categorical_distribution(vec![int_value(1), ParameterValue { value: None }]);
    assert_eq!(contains(&bad, &int_value(1)), Err(SamplerError::MalformedDistribution));
    assert_eq!(contains(&d, &ParameterValue { value: None }), Ok(false));
}
