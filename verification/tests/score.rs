use meow::decider::{ResolverConfig, BEST_BELOW_BITS, GAP_BELOW_BITS, MIN_CONFIDENCE_BITS};
use meow::score::Score;

fn samples() -> Vec<f32> {
    vec![
        0.0,
        -0.0,
        1.0,
        -1.0,
        0.7,
        0.75,
        0.08,
        0.65,
        0.9999999,
        1.0000001,
        -0.3,
        1e-40,
        -1e-40,
        f32::MIN_POSITIVE,
        f32::MAX,
        f32::MIN,
        f32::INFINITY,
        f32::NEG_INFINITY,
        f32::NAN,
        -f32::NAN,
        f32::from_bits(0x7f80_0001),
        f32::from_bits(0xffff_ffff),
    ]
}

#[test]
fn thresholds_are_the_bits_of_their_numbers() {
    assert_eq!(BEST_BELOW_BITS, 0.75f32.to_bits());
    assert_eq!(GAP_BELOW_BITS, 0.08f32.to_bits());
    assert_eq!(MIN_CONFIDENCE_BITS, 0.7f32.to_bits());
    let cfg = ResolverConfig::standard();
    assert_eq!(cfg.best_below.to_bits(), 0.75f32.to_bits());
    assert_eq!(cfg.gap_below.to_bits(), 0.08f32.to_bits());
    assert_eq!(cfg.min_confidence.to_bits(), 0.7f32.to_bits());
}

#[test]
fn bits_are_kept() {
    for x in samples() {
        assert_eq!(Score::from_bits(x.to_bits()).to_bits(), x.to_bits());
    }
    assert_eq!(Score::zero().to_bits(), 0.0f32.to_bits());
}

#[test]
fn nan_is_recognised() {
    for x in samples() {
        assert_eq!(Score::from_bits(x.to_bits()).nan(), x.is_nan());
    }
}

#[test]
fn key_orders_as_the_total_order_does() {
    for a in samples() {
        for b in samples() {
            let ka = Score::from_bits(a.to_bits()).key();
            let kb = Score::from_bits(b.to_bits()).key();
            assert_eq!(ka < kb, a.total_cmp(&b).is_lt());
            assert_eq!(ka == kb, a.total_cmp(&b).is_eq());
        }
    }
}

#[test]
fn key_has_exact_values() {
    assert_eq!(Score::from_bits(0).key(), 0);
    assert_eq!(Score::from_bits(0x8000_0000).key(), -1);
    assert_eq!(Score::from_bits(0x3f80_0000).key(), 0x3f80_0000);
    assert_eq!(Score::from_bits(0xbf80_0000).key(), -0x3f80_0001);
    assert_eq!(Score::from_bits(0xffff_ffff).key(), -0x8000_0000);
}

#[test]
fn numbers_compare_as_numbers() {
    for a in samples() {
        for b in samples() {
            let sa = Score::from_bits(a.to_bits());
            let sb = Score::from_bits(b.to_bits());
            assert_eq!(sa.below(&sb), a < b);
            assert_eq!(sa.at_least(&sb), a >= b);
        }
    }
}

#[test]
fn sanitize_replaces_only_what_is_no_number() {
    for x in samples() {
        let s = Score::from_bits(x.to_bits()).sanitize();
        if x.is_nan() {
            assert_eq!(s.to_bits(), 0.0f32.to_bits());
        } else {
            assert_eq!(s.to_bits(), x.to_bits());
        }
    }
}
