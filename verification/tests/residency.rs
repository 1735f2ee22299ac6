use bottom::residency::{active_state_offset, calc_freq_from_residencies, zero_div, Fraction};

fn sample(states: &[(&str, i64)]) -> Vec<(String, i64)> {
    states.iter().map(|(n, v)| (n.to_string(), *v)).collect()
}

#[test]
fn zero_div_rounds_toward_zero() {
    assert_eq!(zero_div(7, 2), 3);
    assert_eq!(zero_div(-7, 2), -3);
    assert_eq!(zero_div(7, -2), -3);
    assert_eq!(zero_div(-7, -2), 3);
    assert_eq!(zero_div(i128::MIN, i128::MIN), 1);
    assert_eq!(zero_div(i128::MAX, i128::MIN), 0);
}

#[test]
fn zero_div_by_zero_is_zero() {
    assert_eq!(zero_div(5, 0), 0);
    assert_eq!(zero_div(-5, 0), 0);
    assert_eq!(zero_div(0, 0), 0);
}

#[test]
fn offset_skips_idle_states() {
    let items = sample(&[("IDLE", 1), ("DOWN", 2), ("OFF", 3), ("P1", 4), ("IDLE", 5)]);
    assert_eq!(active_state_offset(&items), 3);
}

#[test]
fn offset_is_zero_when_all_idle() {
    let items = sample(&[("IDLE", 1), ("OFF", 3)]);
    assert_eq!(active_state_offset(&items), 0);
    assert_eq!(active_state_offset(&[]), 0);
}

#[test]
fn offset_compares_whole_names() {
    let items = sample(&[("IDLES", 1), ("IDLE", 2)]);
    assert_eq!(active_state_offset(&items), 0);
}

#[test]
fn estimate_weights_frequencies_by_residency() {
    let items = sample(&[("IDLE", 100), ("P1", 100), ("P2", 300)]);
    let e = calc_freq_from_residencies(&items, &[400, 800]);
    assert_eq!(e.avg_mhz, 700);
    assert_eq!(e.active, Fraction { num: 400, den: 500 });
    assert_eq!(e.scaled, Fraction { num: 280000, den: 400000 });
}

#[test]
fn estimate_with_all_states_idle_starts_at_the_first() {
    let items = sample(&[("IDLE", 5), ("OFF", 5)]);
    let e = calc_freq_from_residencies(&items, &[100]);
    assert_eq!(e.avg_mhz, 100);
    assert_eq!(e.active, Fraction { num: 5, den: 10 });
    assert_eq!(e.scaled, Fraction { num: 500, den: 1000 });
}

#[test]
fn estimate_of_empty_sample_is_zero() {
    let e = calc_freq_from_residencies(&[], &[400, 800]);
    assert_eq!(e.avg_mhz, 0);
    assert_eq!(e.active, Fraction { num: 0, den: 1 });
    assert_eq!(e.scaled, Fraction { num: 0, den: 1 });
}

#[test]
fn estimate_without_frequencies_has_no_usage() {
    let items = sample(&[("P1", 3)]);
    let e = calc_freq_from_residencies(&items, &[]);
    assert_eq!(e.avg_mhz, 0);
    assert_eq!(e.active, Fraction { num: 0, den: 3 });
    assert_eq!(e.scaled, Fraction { num: 0, den: 1 });
}

#[test]
fn estimate_raises_average_to_lowest_frequency() {
    let items = sample(&[("P1", 0), ("P2", 10)]);
    let e = calc_freq_from_residencies(&items, &[900, 100]);
    assert_eq!(e.avg_mhz, 100);
    assert_eq!(e.scaled, Fraction { num: 9000, den: 1000 });
}

#[test]
fn estimate_ignores_states_without_frequency() {
    let items = sample(&[("P1", 10), ("P2", 10), ("P3", 80)]);
    let e = calc_freq_from_residencies(&items, &[200, 400]);
    assert_eq!(e.avg_mhz, 300);
    assert_eq!(e.active, Fraction { num: 20, den: 100 });
    assert_eq!(e.scaled, Fraction { num: 6000, den: 40000 });
}

#[test]
fn estimate_with_negative_residencies() {
    let items = sample(&[("P1", -10)]);
    let e = calc_freq_from_residencies(&items, &[100]);
    assert_eq!(e.avg_mhz, 100);
    assert_eq!(e.active, Fraction { num: 10, den: 10 });
    assert_eq!(e.scaled, Fraction { num: 1000, den: 1000 });
}

#[test]
fn estimate_with_zero_top_frequency() {
    let items = sample(&[("P1", 10)]);
    let e = calc_freq_from_residencies(&items, &[0]);
    assert_eq!(e.avg_mhz, 0);
    assert_eq!(e.scaled, Fraction { num: 0, den: 1 });
}

#[test]
fn estimate_saturates_huge_average() {
    let items = sample(&[("P1", 1)]);
    let e = calc_freq_from_residencies(&items, &[u32::MAX]);
    assert_eq!(e.avg_mhz, u32::MAX);
}

#[test]
fn law_active_share_at_most_one() {
    let items = sample(&[("IDLE", 7), ("P1", 3), ("P2", 0), ("P3", 9)]);
    let e = calc_freq_from_residencies(&items, &[100, 200, 300]);
    assert!(0 <= e.active.num && e.active.num <= e.active.den);
}

#[test]
fn law_average_within_table() {
    let items = sample(&[("P1", 3), ("P2", 5), ("P3", 11)]);
    let freqs = [300u32, 700, 500];
    let e = calc_freq_from_residencies(&items, &freqs);
    assert!(300 <= e.avg_mhz && e.avg_mhz <= 700);
    assert_eq!(e.avg_mhz, (3 * 300 + 5 * 700 + 11 * 500) / 19);
}

#[test]
fn law_scaled_at_most_one_for_ascending_table() {
    let items = sample(&[("IDLE", 50), ("P1", 3), ("P2", 5), ("P3", 11)]);
    let e = calc_freq_from_residencies(&items, &[300, 500, 700]);
    assert!(0 <= e.scaled.num && e.scaled.num <= e.scaled.den);
}

fn value_eq(a: Fraction, b: Fraction) -> bool {
    a.num * b.den == b.num * a.den
}

#[test]
fn scaling_residencies_keeps_estimate() {
    let items = sample(&[("IDLE", 7), ("P1", 3), ("P2", 5), ("P3", 11)]);
    let doubled = sample(&[("IDLE", 14), ("P1", 6), ("P2", 10), ("P3", 22)]);
    let freqs = [300u32, 700, 500];
    let a = calc_freq_from_residencies(&items, &freqs);
    let b = calc_freq_from_residencies(&doubled, &freqs);
    assert_eq!(a.avg_mhz, b.avg_mhz);
    assert!(value_eq(a.active, b.active));
    assert!(value_eq(a.scaled, b.scaled));
    assert_ne!(a.active, b.active);
}

#[test]
fn active_share_ignores_frequency_values() {
    let items = sample(&[("IDLE", 7), ("P1", 3), ("P2", 5), ("P3", 11)]);
    let a = calc_freq_from_residencies(&items, &[300, 700]);
    let b = calc_freq_from_residencies(&items, &[1, 2]);
    assert_eq!(a.active, b.active);
    assert_eq!(a.active, Fraction { num: 8, den: 26 });
}
