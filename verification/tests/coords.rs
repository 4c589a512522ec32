use solid_slicer::coord::{
    from_bits, is_infinite, negated, to_bits, Coord, INFINITY, NEG_INFINITY, NEG_ONE, ONE,
};

fn c(v: f32) -> Coord {
    from_bits(v.to_bits())
}

fn f(k: Coord) -> f32 {
    f32::from_bits(to_bits(k))
}

fn samples() -> Vec<f32> {
    vec![
        f32::NEG_INFINITY,
        f32::MIN,
        -1.0e20,
        -3.5,
        -1.0,
        -0.75,
        -1.0e-30,
        -f32::MIN_POSITIVE,
        -1.0e-45,
        -0.0,
        0.0,
        1.0e-45,
        f32::MIN_POSITIVE,
        1.0e-30,
        0.5,
        0.75,
        1.0,
        1.0000001,
        3.5,
        1.0e20,
        f32::MAX,
        f32::INFINITY,
    ]
}

#[test]
fn keys_are_ordered_like_the_numbers() {
    let all = samples();
    for a in all.iter() {
        for b in all.iter() {
            assert_eq!(c(*a) < c(*b), a < b, "{} < {}", a, b);
            assert_eq!(c(*a) == c(*b), a == b, "{} == {}", a, b);
            assert_eq!(c(*a) > c(*b), a > b, "{} > {}", a, b);
        }
    }
}

#[test]
fn keys_of_known_numbers() {
    assert_eq!(c(0.0), 0);
    assert_eq!(c(-0.0), 0);
    assert_eq!(c(1.0), ONE);
    assert_eq!(c(-1.0), NEG_ONE);
    assert_eq!(c(f32::INFINITY), INFINITY);
    assert_eq!(c(f32::NEG_INFINITY), NEG_INFINITY);
    assert_eq!(c(1.0), 0x3f80_0000);
    assert_eq!(c(-2.0), -0x4000_0000);
    assert_eq!(from_bits(1), 1);
    assert_eq!(from_bits(0x8000_0001), -1);
    assert_eq!(from_bits(0xffff_ffff), -0x7fff_ffff);
}

#[test]
fn keys_give_the_numbers_back() {
    for a in samples() {
        assert_eq!(f(c(a)), a);
        if a != 0.0 {
            assert_eq!(to_bits(c(a)), a.to_bits());
        }
    }
    assert_eq!(to_bits(c(-0.0)), 0);
    assert_eq!(to_bits(0), 0);
    assert_eq!(to_bits(-1), 0x8000_0001);
    assert_eq!(to_bits(i32::MAX), 0x7fff_ffff);
    assert_eq!(to_bits(-i32::MAX), 0xffff_ffff);
    assert_eq!(to_bits(i32::MIN), 0xffff_ffff);
    assert!(f(i32::MAX).is_nan());
}

#[test]
fn negation_of_keys_negates_the_numbers() {
    for a in samples() {
        assert_eq!(negated(c(a)), c(-a));
        assert_eq!(negated(negated(c(a))), c(a));
    }
    assert_eq!(negated(5), -5);
    assert_eq!(negated(i32::MAX), -i32::MAX);
    assert_eq!(negated(i32::MIN), i32::MAX);
}

#[test]
fn infinite_keys_are_the_two_infinities() {
    for a in samples() {
        assert_eq!(is_infinite(c(a)), a.is_infinite());
    }
    assert!(!is_infinite(i32::MAX));
    assert!(!is_infinite(i32::MIN));
}
