use bottom::error::CollectionError;
use bottom::residency::Fraction;
use bottom::sampler::GpuUsageModel;

fn sample(states: &[(&str, i64)]) -> Vec<(String, i64)> {
    states.iter().map(|(n, v)| (n.to_string(), *v)).collect()
}

#[test]
fn short_frequency_table_is_refused() {
    assert!(matches!(GpuUsageModel::new(vec![]), Err(CollectionError::FrequencyTableTooShort)));
    assert!(matches!(GpuUsageModel::new(vec![400]), Err(CollectionError::FrequencyTableTooShort)));
    assert!(GpuUsageModel::new(vec![0, 400]).is_ok());
}

#[test]
fn law_first_sample_only_primes() {
    let mut m = GpuUsageModel::new(vec![0, 400, 800]).unwrap();
    assert!(!m.begin_sample());
    assert!(m.begin_sample());
    assert!(m.begin_sample());
}

#[test]
fn usage_skips_first_table_entry() {
    let m = GpuUsageModel::new(vec![0, 400, 800]).unwrap();
    assert_eq!(m.usage_freqs(), &[400, 800]);
}

#[test]
fn usage_from_gpuph_residencies() {
    let m = GpuUsageModel::new(vec![0, 400, 800]).unwrap();
    let res = sample(&[("IDLE", 100), ("P1", 100), ("P2", 300)]);
    assert_eq!(m.usage_from_residencies(&res), Some(Fraction { num: 280000, den: 400000 }));
}

#[test]
fn usage_needs_more_states_than_frequencies() {
    let m = GpuUsageModel::new(vec![0, 400, 800]).unwrap();
    let res = sample(&[("P1", 100), ("P2", 300)]);
    assert_eq!(m.usage_from_residencies(&res), None);
}

#[test]
fn usage_is_clamped_to_one() {
    let m = GpuUsageModel::new(vec![0, 900, 100]).unwrap();
    let res = sample(&[("P1", 0), ("P2", 10), ("P3", 0)]);
    assert_eq!(m.usage_from_residencies(&res), Some(Fraction { num: 1, den: 1 }));
}

#[test]
fn usage_is_clamped_to_zero() {
    let m = GpuUsageModel::new(vec![0, 400, 800]).unwrap();
    let res = sample(&[("P1", 10), ("P2", -30), ("P3", 100)]);
    assert_eq!(m.usage_from_residencies(&res), Some(Fraction { num: 0, den: 1 }));
}

#[test]
fn idle_gpu_has_zero_usage() {
    let m = GpuUsageModel::new(vec![0, 400, 800]).unwrap();
    let res = sample(&[("IDLE", 100), ("P1", 0), ("P2", 0)]);
    assert_eq!(m.usage_from_residencies(&res), Some(Fraction { num: 0, den: 1 }));
}

#[test]
fn sampling_keeps_frequency_table() {
    let mut m = GpuUsageModel::new(vec![0, 400, 800]).unwrap();
    m.begin_sample();
    m.begin_sample();
    assert_eq!(m.usage_freqs(), &[400, 800]);
}
