use optur::distribution::{categorical_distribution, fixed_distribution, float_distribution, int_distribution, unknown_distribution};
use optur::model::{
    Distribution, DistributionKind, IntDistribution, Observation, ParameterValue, SamplerError,
    SearchSpace, Target, Trial, Value,
};
use optur::random::RandomSampler;
use rand::rngs::StdRng;
use rand::SeedableRng;

fn unit_to_real(low: u64, high: u64, k: u64) -> u64 {
    let l = f64::from_bits(low);
    let h = f64::from_bits(high);
    (k as f64 / 9007199254740992.0 * (h - l) + l).to_bits()
}

fn show(p: &ParameterValue) -> String {
    match &p.value {
        Some(Value::IntValue(i)) => format!("int {}", i),
        Some(Value::DoubleValue(d)) => format!("double {:x}", d),
        Some(Value::StringValue(s)) => format!("string {}", s),
        None => "absent".to_string(),
    }
}

fn int_value(v: i64) -> ParameterValue {
    ParameterValue { value: Some(Value::IntValue(v)) }
}

fn double(v: f64) -> ParameterValue {
    ParameterValue { value: Some(Value::DoubleValue(v.to_bits())) }
}

#[test]
fn init_works() {
    let mut sampler = RandomSampler::new();
    let search_space = SearchSpace { distributions: Vec::new() };
    let targets = Vec::<Target>::new();
    sampler.init(search_space, targets);
}

#[test]
fn sync_works() {
    let mut sampler = RandomSampler::new();
    sampler.sync(&Vec::<Trial>::new());
}

#[test]
fn joint_sample_works() {
    let sampler = RandomSampler::new();
    let mut rng = StdRng::seed_from_u64(1);
    let fixed = Observation { parameters: Vec::new() };
    let obs = sampler.joint_sample(&fixed, &mut rng);
    assert!(obs.parameters.is_empty());
}

#[test]
fn sample_int_works() {
    let sampler = RandomSampler::new();
    let mut rng = StdRng::seed_from_u64(2);
    let dist = Distribution {
        distribution: Some(DistributionKind::IntDistribution(IntDistribution {
            low: 1,
            high: 5,
            log_scale: false,
        })),
    };
    for _i in 0..100 {
        let v = sampler.sample(&dist, &mut rng, &unit_to_real).unwrap();
        match v.value {
            Some(Value::IntValue(i)) => {
                assert!(1 <= i && i <= 5)
            }
            _ => {
                assert!(false)
            }
        }
    }
}

#[test]
fn sample_float_works() {
    let sampler = RandomSampler::new();
    let mut rng = StdRng::seed_from_u64(3);
    let dist = float_distribution(1.0f64.to_bits(), 5.0f64.to_bits(), false);
    for _i in 0..100 {
        let v = sampler.sample(&dist, &mut rng, &unit_to_real).unwrap();
        match v.value {
            Some(Value::DoubleValue(b)) => {
                let i = f64::from_bits(b);
                assert!(1.0 <= i && i <= 5.0)
            }
            _ => {
                assert!(false)
            }
        }
    }
}

#[test]
fn sample_categorical_works() {
    let sampler = RandomSampler::new();
    let mut rng = StdRng::seed_from_u64(4);
    let dist = categorical_distribution(vec![int_value(2), double(0.2)]);
    for _i in 0..100 {
        let v = sampler.sample(&dist, &mut rng, &unit_to_real).unwrap();
        match v.value {
            Some(Value::IntValue(i)) => {
                assert!(i == 2)
            }
            Some(Value::DoubleValue(i)) => {
                assert!(f64::from_bits(i) == 0.2)
            }
            _ => {
                assert!(false)
            }
        }
    }
}

#[test]
fn int_draws_stay_in_range_over_many_draws() {
    let sampler = RandomSampler::new();
    let mut rng = StdRng::seed_from_u64(5);
    let dist = int_distribution(-3, 3, false);
    let mut seen_low = false;
    let mut seen_high = false;
    for _i in 0..10000 {
        match sampler.sample(&dist, &mut rng, &unit_to_real).unwrap().value {
            Some(Value::IntValue(i)) => {
                assert!(-3 <= i && i <= 3);
                seen_low |= i == -3;
                seen_high |= i == 3;
            }
            _ => panic!("not an integer"),
        }
    }
    assert!(seen_low && seen_high);
}

#[test]
fn int_draw_on_full_range_and_single_point() {
    let sampler = RandomSampler::new();
    let mut rng = StdRng::seed_from_u64(6);
    let full = int_distribution(i64::MIN, i64::MAX, false);
    assert!(matches!(
        sampler.sample(&full, &mut rng, &unit_to_real).unwrap().value,
        Some(Value::IntValue(_))
    ));
    let point = int_distribution(7, 7, false);
    assert!(matches!(
        sampler.sample(&point, &mut rng, &unit_to_real).unwrap().value,
        Some(Value::IntValue(7))
    ));
}

#[test]
fn float_draws_lie_in_half_open_range() {
    let sampler = RandomSampler::new();
    let mut rng = StdRng::seed_from_u64(7);
    let dist = float_distribution((-2.5f64).to_bits(), 0.5f64.to_bits(), false);
    for _i in 0..10000 {
        match sampler.sample(&dist, &mut rng, &unit_to_real).unwrap().value {
            Some(Value::DoubleValue(b)) => {
                let x = f64::from_bits(b);
                assert!(-2.5 <= x && x < 0.5);
            }
            _ => panic!("not a double"),
        }
    }
}

#[test]
fn float_draw_outside_range_falls_back_to_low() {
    let sampler = RandomSampler::new();
    let mut rng = StdRng::seed_from_u64(8);
    let dist = float_distribution(1.0f64.to_bits(), 2.0f64.to_bits(), false);
    let far = |_l: u64, _h: u64, _k: u64| 9.0f64.to_bits();
    let v = sampler.sample(&dist, &mut rng, &far).unwrap();
    assert!(matches!(v.value, Some(Value::DoubleValue(b)) if b == 1.0f64.to_bits()));
}

#[test]
fn float_point_range_returns_its_bound() {
    let sampler = RandomSampler::new();
    let mut rng = StdRng::seed_from_u64(9);
    let dist = float_distribution(0.25f64.to_bits(), 0.25f64.to_bits(), false);
    let v = sampler.sample(&dist, &mut rng, &unit_to_real).unwrap();
    assert!(matches!(v.value, Some(Value::DoubleValue(b)) if b == 0.25f64.to_bits()));
}

#[test]
fn fixed_returns_its_value_for_every_variant() {
    let sampler = RandomSampler::new();
    let mut rng = StdRng::seed_from_u64(10);
    let values = vec![
        int_value(-4),
        double(3.5),
        ParameterValue { value: Some(Value::StringValue("adam".to_string())) },
    ];
    for v in values {
        let expected = show(&v);
        let dist = fixed_distribution(v);
        for _i in 0..10 {
            let got = sampler.sample(&dist, &mut rng, &unit_to_real).unwrap();
            assert_eq!(show(&got), expected);
        }
    }
}

#[test]
fn unknown_gives_an_absent_value() {
    let sampler = RandomSampler::new();
    let mut rng = StdRng::seed_from_u64(11);
    let dist = unknown_distribution(vec![int_value(1)]);
    let v = sampler.sample(&dist, &mut rng, &unit_to_real).unwrap();
    assert!(v.value.is_none());
}

#[test]
fn malformed_distributions_are_reported() {
    let sampler = RandomSampler::new();
    let mut rng = StdRng::seed_from_u64(12);
    let absent = Distribution { distribution: None };
    assert_eq!(sampler.sample(&absent, &mut rng, &unit_to_real).err(), Some(SamplerError::MalformedDistribution));
    let fixed_absent = Distribution {
        distribution: Some(DistributionKind::FixedDistribution(optur::model::FixedDistribution { value: None })),
    };
    assert_eq!(sampler.sample(&fixed_absent, &mut rng, &unit_to_real).err(), Some(SamplerError::MalformedDistribution));
    let reversed = int_distribution(5, 1, false);
    assert_eq!(sampler.sample(&reversed, &mut rng, &unit_to_real).err(), Some(SamplerError::MalformedDistribution));
    let empty = categorical_distribution(Vec::new());
    assert_eq!(sampler.sample(&empty, &mut rng, &unit_to_real).err(), Some(SamplerError::MalformedDistribution));
    let reversed_real = float_distribution(2.0f64.to_bits(), 1.0f64.to_bits(), false);
    assert_eq!(sampler.sample(&reversed_real, &mut rng, &unit_to_real).err(), Some(SamplerError::MalformedDistribution));
    let infinite = float_distribution(0.0f64.to_bits(), f64::INFINITY.to_bits(), false);
    assert_eq!(sampler.sample(&infinite, &mut rng, &unit_to_real).err(), Some(SamplerError::MalformedDistribution));
}
