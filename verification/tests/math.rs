use rustkart::num::{clamp_i64, div_floor, isqrt, mod_floor};
use rustkart::track::{center_offset, CURVE_PERIOD};
use rustkart::trig::{cos_q, sin_q, HALF_TURN, QUARTER_TURN, TRIG_ONE, TURN};

#[test]
fn div_floor_rounds_toward_negative_infinity() {
    assert_eq!(div_floor(7, 2), 3);
    assert_eq!(div_floor(-7, 2), -4);
    assert_eq!(div_floor(-6, 2), -3);
    assert_eq!(div_floor(0, 5), 0);
    assert_eq!(div_floor(-1, 1024), -1);
}

#[test]
fn mod_floor_is_always_nonnegative() {
    assert_eq!(mod_floor(7, 3), 1);
    assert_eq!(mod_floor(-7, 3), 2);
    assert_eq!(mod_floor(-2048, 2048), 0);
    assert_eq!(mod_floor(-1, 2048), 2047);
}

#[test]
fn clamp_holds_both_ends() {
    assert_eq!(clamp_i64(5, 0, 10), 5);
    assert_eq!(clamp_i64(-5, 0, 10), 0);
    assert_eq!(clamp_i64(15, 0, 10), 10);
}

#[test]
fn isqrt_exact_and_between_squares() {
    assert_eq!(isqrt(0), 0);
    assert_eq!(isqrt(1), 1);
    assert_eq!(isqrt(15), 3);
    assert_eq!(isqrt(16), 4);
    assert_eq!(isqrt(24), 4);
    assert_eq!(isqrt(25), 5);
    assert_eq!(isqrt(1_000_000), 1000);
}

#[test]
fn sine_hits_the_quarter_points() {
    assert_eq!(sin_q(0), 0);
    assert_eq!(sin_q(QUARTER_TURN), TRIG_ONE);
    assert_eq!(sin_q(HALF_TURN), 0);
    assert_eq!(sin_q(HALF_TURN + QUARTER_TURN), -TRIG_ONE);
    assert_eq!(cos_q(0), TRIG_ONE);
    assert_eq!(cos_q(HALF_TURN), -TRIG_ONE);
}

#[test]
fn sine_is_periodic_and_bounded() {
    for a in [-4096, -1000, -1, 0, 1, 137, 511, 513, 2047, 3000] {
        assert_eq!(sin_q(a), sin_q(a + TURN));
        let v = sin_q(a);
        assert!(-TRIG_ONE <= v && v <= TRIG_ONE);
    }
}

#[test]
fn sine_is_odd_around_the_half_turn() {
    for a in [1, 100, 300, 511] {
        assert_eq!(sin_q(HALF_TURN + a), -sin_q(a));
    }
}

#[test]
fn center_offset_periodic() {
    for z in [-3000, -1, 0, 17, 512, 1536, 5000] {
        assert_eq!(center_offset(z), center_offset(z + CURVE_PERIOD));
    }
}

#[test]
fn center_offset_peaks_at_the_amplitude() {
    assert_eq!(center_offset(0), 0);
    assert_eq!(center_offset(512), 140);
    assert_eq!(center_offset(1536), -140);
}
