use schema_check::{
    validate_schema_object, Double, Error, Number, NumberValidation, SchemaObject, Value,
    ValueFault,
};

fn double(x: f64) -> Double {
    Double::from_bits(x.to_bits())
}

fn float(d: Double) -> f64 {
    f64::from_bits(d.to_bits())
}

struct Patterns(u64);

impl Patterns {
    fn next(&mut self) -> u64 {
        self.0 ^= self.0 << 13;
        self.0 ^= self.0 >> 7;
        self.0 ^= self.0 << 17;
        self.0
    }

    /// A pattern whose exponent is spread over the whole range, the
    /// subnormal and the special ones included.
    fn next_double(&mut self) -> f64 {
        let bits = self.next();
        match self.next() % 16 {
            0 => f64::from_bits(bits & 0x800f_ffff_ffff_ffff),
            1 => f64::from_bits(bits | 0x7ff0_0000_0000_0000),
            2 => f64::from_bits((bits & 0x8000_0000_0000_0000) | 0x7ff0_0000_0000_0000),
            3 => f64::from_bits(bits & 0x8000_0000_0000_0000),
            4 => ((bits % 2001) as f64 - 1000.0) / 8.0,
            5 => (bits % 100) as f64,
            _ => f64::from_bits(bits),
        }
    }
}

fn same_result(ours: Double, theirs: f64) -> bool {
    if theirs.is_nan() {
        float(ours).is_nan()
    } else {
        ours.to_bits() == theirs.to_bits()
    }
}

#[test]
fn conversion_from_u64_rounds_to_nearest_even() {
    let mut cases: Vec<u64> = vec![
        0,
        1,
        2,
        10,
        (1 << 53) - 1,
        1 << 53,
        (1 << 53) + 1,
        (1 << 53) + 2,
        (1 << 53) + 3,
        (1 << 54) + 2,
        (1 << 54) + 6,
        u64::MAX,
        u64::MAX - 1023,
        u64::MAX - 1024,
        1 << 63,
        (1 << 63) + 1024,
        (1 << 63) + 1025,
        (1 << 63) + 3072,
    ];
    let mut patterns = Patterns(0x9e37_79b9_7f4a_7c15);
    for _ in 0..20000 {
        let n = patterns.next();
        cases.push(n);
        cases.push(n >> (patterns.next() % 64));
    }
    for n in cases {
        assert_eq!(Double::from_u64(n).to_bits(), (n as f64).to_bits(), "{}", n);
    }
    assert_eq!(Double::from_u64((1 << 53) + 1).to_bits(), 9007199254740992.0f64.to_bits());
}

#[test]
fn conversion_from_i64_rounds_to_nearest_even() {
    let mut cases: Vec<i64> = vec![
        0,
        -1,
        1,
        i64::MIN,
        i64::MAX,
        i64::MIN + 1,
        -(1 << 53) - 1,
        -(1 << 53) - 3,
        (1 << 53) + 1,
    ];
    let mut patterns = Patterns(0x2545_f491_4f6c_dd1d);
    for _ in 0..20000 {
        let n = patterns.next() as i64;
        cases.push(n);
        cases.push(n >> (patterns.next() % 64));
    }
    for n in cases {
        assert_eq!(Double::from_i64(n).to_bits(), (n as f64).to_bits(), "{}", n);
    }
    assert_eq!(Double::from_i64(-3).to_bits(), (-3.0f64).to_bits());
}

#[test]
fn division_agrees_with_the_hardware() {
    let fixed: Vec<(f64, f64)> = vec![
        (1.0, 3.0),
        (0.3, 0.1),
        (7.0, 2.0),
        (1.0, 0.0),
        (-1.0, 0.0),
        (0.0, 0.0),
        (0.0, -5.0),
        (f64::MAX, f64::MIN_POSITIVE),
        (f64::MIN_POSITIVE, f64::MAX),
        (f64::MAX, 0.5),
        (f64::MAX, 1.0 - f64::EPSILON / 2.0),
        (5e-324, 2.0),
        (1.5e-323, 2.0),
        (5e-324, 5e-324),
        (2.2250738585072014e-308, 2.0),
        (2.225073858507201e-308, 0.5),
        (f64::INFINITY, 2.0),
        (2.0, f64::NEG_INFINITY),
        (f64::INFINITY, f64::INFINITY),
        (f64::NAN, 1.0),
        (1.0, f64::NAN),
    ];
    for (a, b) in fixed {
        assert!(same_result(double(a).div(&double(b)), a / b), "{:e} / {:e}", a, b);
    }
    assert_eq!(double(0.3).div(&double(0.1)).to_bits(), 2.9999999999999996f64.to_bits());
    let mut patterns = Patterns(0x0123_4567_89ab_cdef);
    for _ in 0..200000 {
        let a = patterns.next_double();
        let b = patterns.next_double();
        assert!(same_result(double(a).div(&double(b)), a / b), "{:e} / {:e}", a, b);
    }
}

#[test]
fn excess_over_the_nearest_integer_agrees_with_the_hardware() {
    let fixed: Vec<f64> = vec![
        0.0,
        -0.0,
        0.25,
        0.5,
        0.75,
        -0.25,
        -0.5,
        -0.75,
        3.5,
        2.5,
        -2.5,
        f64::EPSILON,
        f64::EPSILON * 1.5,
        1.0 + f64::EPSILON,
        1.0 + 2.0 * f64::EPSILON,
        2.0 + 2.0 * f64::EPSILON,
        4.0 + 4.0 * f64::EPSILON,
        -1.0 + f64::EPSILON,
        -1.0 + f64::EPSILON / 2.0,
        -0.5 - f64::EPSILON,
        1e300,
        5e-324,
        f64::INFINITY,
        f64::NAN,
        4503599627370496.5,
        2251799813685248.25,
        2251799813685247.75,
    ];
    for x in fixed {
        assert_eq!(double(x).exceeds(), x - x.round() > f64::EPSILON, "{:e}", x);
    }
    assert!(double(0.25).exceeds());
    assert!(!double(0.75).exceeds());
    assert!(double(-0.75).exceeds());
    let mut patterns = Patterns(0xfeed_face_cafe_beef);
    for _ in 0..200000 {
        let x = patterns.next_double();
        assert_eq!(double(x).exceeds(), x - x.round() > f64::EPSILON, "{:e}", x);
        let y = x % 1024.0;
        assert_eq!(double(y).exceeds(), y - y.round() > f64::EPSILON, "{:e}", y);
    }
}

#[test]
fn comparisons_agree_with_the_hardware() {
    let mut cases: Vec<f64> = vec![
        0.0,
        -0.0,
        1.0,
        -1.0,
        f64::INFINITY,
        f64::NEG_INFINITY,
        f64::NAN,
        5e-324,
        -5e-324,
        f64::MAX,
        f64::MIN,
    ];
    let mut patterns = Patterns(0x1357_9bdf_0246_8ace);
    for _ in 0..300 {
        cases.push(patterns.next_double());
    }
    for &a in &cases {
        for &b in &cases {
            let (x, y) = (double(a), double(b));
            assert_eq!(x.lt(&y), a < b, "{:e} < {:e}", a, b);
            assert_eq!(x.le(&y), a <= b, "{:e} <= {:e}", a, b);
            assert_eq!(x.gt(&y), a > b, "{:e} > {:e}", a, b);
            assert_eq!(x.ge(&y), a >= b, "{:e} >= {:e}", a, b);
            assert_eq!(x.same(&y), a == b, "{:e} == {:e}", a, b);
        }
    }
}

fn numeric(set: impl Fn(&mut NumberValidation)) -> SchemaObject {
    let mut group = NumberValidation::new();
    set(&mut group);
    let mut node = SchemaObject::new();
    node.number = Some(Box::new(group));
    node
}

fn fault(node: &SchemaObject, value: Value) -> Option<ValueFault> {
    match validate_schema_object("$", node, &Vec::new(), &value) {
        Ok(()) => None,
        Err(Error::InvalidValue { path, details, .. }) => {
            assert_eq!(path, "$");
            Some(details)
        }
        Err(other) => panic!("unexpected error {:?}", other),
    }
}

fn decimal(x: f64) -> Value {
    Value::Number(Number::Float(double(x)))
}

fn whole(n: u64) -> Value {
    Value::Number(Number::PosInt(n))
}

#[test]
fn maximum_is_an_exclusive_bound() {
    let node = numeric(|g| g.maximum = Some(double(10.0)));
    assert!(fault(&node, whole(9)).is_none());
    assert!(fault(&node, decimal(9.999)).is_none());
    for rejected in [whole(10), decimal(10.0), whole(11), decimal(1e9), decimal(f64::MAX)] {
        match fault(&node, rejected) {
            Some(ValueFault::Maximum { bound, .. }) => assert_eq!(float(bound), 10.0),
            other => panic!("unexpected {:?}", other),
        }
    }
    match fault(&node, whole(11)) {
        Some(ValueFault::Maximum { value, .. }) => assert_eq!(float(value), 11.0),
        other => panic!("unexpected {:?}", other),
    }
}

#[test]
fn exclusive_maximum_accepts_the_bound_itself() {
    let node = numeric(|g| g.exclusive_maximum = Some(double(10.0)));
    assert!(fault(&node, whole(10)).is_none());
    assert!(fault(&node, decimal(10.0)).is_none());
    assert!(fault(&node, decimal(-3.0)).is_none());
    assert!(matches!(fault(&node, decimal(10.000001)), Some(ValueFault::ExclusiveMaximum { .. })));
    assert!(matches!(fault(&node, whole(11)), Some(ValueFault::ExclusiveMaximum { .. })));
}

#[test]
fn minimum_is_an_exclusive_bound() {
    let node = numeric(|g| g.minimum = Some(double(-2.0)));
    assert!(fault(&node, decimal(-1.5)).is_none());
    assert!(matches!(fault(&node, Value::Number(Number::NegInt(-2))), Some(ValueFault::Minimum { .. })));
    assert!(matches!(fault(&node, decimal(-2.5)), Some(ValueFault::Minimum { .. })));
    let node = numeric(|g| g.exclusive_minimum = Some(double(-2.0)));
    assert!(fault(&node, Value::Number(Number::NegInt(-2))).is_none());
    assert!(matches!(fault(&node, decimal(-2.5)), Some(ValueFault::ExclusiveMinimum { .. })));
}

#[test]
fn multiple_of_looks_at_the_excess_over_the_rounded_quotient() {
    let node = numeric(|g| g.multiple_of = Some(double(2.0)));
    assert!(fault(&node, whole(6)).is_none());
    // 6.5 / 2 = 3.25, which exceeds 3 by a quarter.
    match fault(&node, decimal(6.5)) {
        Some(ValueFault::NotMultipleOf { value, divisor }) => {
            assert_eq!(float(value), 6.5);
            assert_eq!(float(divisor), 2.0);
        }
        other => panic!("unexpected {:?}", other),
    }
    // 7 / 2 = 3.5 rounds to 4, and 3.5 - 4 is below the threshold.
    assert!(fault(&node, whole(7)).is_none());
    assert!(fault(&node, decimal(7.9)).is_none());
    // -7.5 / 2 = -3.75 rounds to -4, and -3.75 + 4 is above it.
    assert!(matches!(fault(&node, decimal(-7.5)), Some(ValueFault::NotMultipleOf { .. })));
    assert!(fault(&node, decimal(-6.5)).is_none());
    let node = numeric(|g| g.multiple_of = Some(double(0.1)));
    assert!(fault(&node, decimal(0.3)).is_none());
    let node = numeric(|g| g.multiple_of = Some(double(0.0)));
    assert!(fault(&node, decimal(0.3)).is_none());
}

#[test]
fn numeric_keywords_need_a_number() {
    let node = numeric(|g| g.maximum = Some(double(10.0)));
    assert!(matches!(
        fault(&node, Value::String("10".to_string())),
        Some(ValueFault::NotANumber)
    ));
}

#[test]
fn large_integers_are_compared_after_rounding() {
    // 2^53 + 1 rounds to 2^53, so it does not exceed an exclusive maximum of 2^53.
    let node = numeric(|g| g.exclusive_maximum = Some(double(9007199254740992.0)));
    assert!(fault(&node, whole(9007199254740993)).is_none());
    assert!(matches!(
        fault(&node, whole(9007199254740994)),
        Some(ValueFault::ExclusiveMaximum { .. })
    ));
}

#[test]
fn numbers_of_different_encodings_are_not_equal() {
    let one = Value::Number(Number::PosInt(1));
    let one_point = decimal(1.0);
    assert!(!one.equals(&one_point));
    assert!(decimal(0.0).equals(&decimal(-0.0)));
    assert!(!decimal(f64::NAN).equals(&decimal(f64::NAN)));
}
