use bottom::dvfs::{decode_dvfs_table, gpu_freqs_found, gpu_freqs_from_dvfs, hz_to_mhz, is_power_manager};
use bottom::error::CollectionError;

fn table() -> Vec<u8> {
    vec![
        0x00, 0x2d, 0x31, 0x01, 0x10, 0x27, 0x00, 0x00, // 20 MHz, 10000
        0x00, 0xca, 0x9a, 0x3b, 0x84, 0x03, 0x00, 0x00, // 1000 MHz, 900
        0xff, 0xff, 0xff, // trailing bytes
    ]
}

#[test]
fn decodes_little_endian_records() {
    let (volts, freqs) = decode_dvfs_table(&table()).unwrap();
    assert_eq!(volts, vec![10000, 900]);
    assert_eq!(freqs, vec![20_000_000, 1_000_000_000]);
}

#[test]
fn empty_table_is_none() {
    assert!(decode_dvfs_table(&[]).is_none());
}

#[test]
fn short_table_has_no_records() {
    assert_eq!(decode_dvfs_table(&[1, 2, 3, 4, 5]), Some((vec![], vec![])));
    assert_eq!(gpu_freqs_from_dvfs(&[1, 2, 3, 4, 5]), None);
}

#[test]
fn converts_hz_to_mhz() {
    assert_eq!(hz_to_mhz(&[0, 999_999, 1_000_000, 1_299_999_999, u32::MAX]), vec![0, 0, 1, 1299, 4294]);
}

#[test]
fn gpu_freqs_from_table_in_mhz() {
    assert_eq!(gpu_freqs_from_dvfs(&table()), Some(vec![20, 1000]));
}

#[test]
fn recognises_power_manager() {
    assert!(is_power_manager(&"pmgr".to_string()));
    assert!(!is_power_manager(&"pmgr0".to_string()));
    assert!(!is_power_manager(&"gfx".to_string()));
}

#[test]
fn missing_frequencies_are_an_error() {
    assert_eq!(gpu_freqs_found(None), Err(CollectionError::NoGpuFrequencies));
    assert_eq!(gpu_freqs_found(Some(vec![1, 2])), Ok(vec![1, 2]));
}

#[test]
fn only_power_manager_entry_yields_frequencies() {
    let t = table();
    assert_eq!(bottom::dvfs::entry_gpu_freqs(&"pmgr".to_string(), Some(&t)), Some(vec![20, 1000]));
    assert_eq!(bottom::dvfs::entry_gpu_freqs(&"gfx".to_string(), Some(&t)), None);
    assert_eq!(bottom::dvfs::entry_gpu_freqs(&"pmgr".to_string(), None), None);
    assert_eq!(bottom::dvfs::entry_gpu_freqs(&"pmgr".to_string(), Some(&[1, 2, 3])), None);
}
