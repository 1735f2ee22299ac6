use bottom::channels::{find_gpuph_channel, gpu_perf_channel, select_gpu_channels, ChannelInfo};
use bottom::error::CollectionError;

fn ch(g: &str, sg: &str, c: &str, u: &str) -> ChannelInfo {
    ChannelInfo { group: g.to_string(), subgroup: sg.to_string(), channel: c.to_string(), unit: u.to_string() }
}

fn texts(v: &[ChannelInfo]) -> Vec<(String, String, String, String)> {
    v.iter().map(|c| (c.group.clone(), c.subgroup.clone(), c.channel.clone(), c.unit.clone())).collect()
}

#[test]
fn selects_gpu_performance_channels_in_order() {
    let all = vec![
        ch("CPU Stats", "CPU Core Performance States", "ECPU", "ns"),
        ch("GPU Stats", "GPU Performance States", "GPUPH", "  24Mticks \n"),
        ch("GPU Stats", "GPU Other", "X", "ns"),
        ch("GPU Stats", "GPU Performance States", "GPU_SW", "ns"),
    ];
    let kept = select_gpu_channels(&all).unwrap();
    assert_eq!(
        texts(&kept),
        vec![
            ("GPU Stats".to_string(), "GPU Performance States".to_string(), "GPUPH".to_string(), "24Mticks".to_string()),
            ("GPU Stats".to_string(), "GPU Performance States".to_string(), "GPU_SW".to_string(), "ns".to_string()),
        ]
    );
}

#[test]
fn no_gpu_channels_is_an_error() {
    let all = vec![ch("CPU Stats", "GPU Performance States", "GPUPH", "")];
    assert!(matches!(select_gpu_channels(&all), Err(CollectionError::NoGpuChannels)));
    assert!(matches!(select_gpu_channels(&[]), Err(CollectionError::NoGpuChannels)));
}

#[test]
fn recognises_gpu_performance_channel() {
    assert!(gpu_perf_channel(&ch("GPU Stats", "GPU Performance States", "any", "")));
    assert!(!gpu_perf_channel(&ch("GPU Stats ", "GPU Performance States", "any", "")));
}

#[test]
fn finds_first_gpuph_channel() {
    let meta = vec![
        ch("GPU Stats", "GPU Performance States", "GPU_SW", ""),
        ch("GPU Stats", "GPU Performance States", "GPUPH", ""),
        ch("GPU Stats", "GPU Performance States", "GPUPH", ""),
    ];
    assert_eq!(find_gpuph_channel(&meta, 3), Some(1));
    assert_eq!(find_gpuph_channel(&meta, 10), Some(1));
}

#[test]
fn gpuph_search_stops_at_sample_or_metadata_end() {
    let meta = vec![
        ch("GPU Stats", "GPU Performance States", "GPU_SW", ""),
        ch("GPU Stats", "GPU Performance States", "GPUPH", ""),
    ];
    assert_eq!(find_gpuph_channel(&meta, 1), None);
    assert_eq!(find_gpuph_channel(&meta[..1], 5), None);
    assert_eq!(find_gpuph_channel(&[], 5), None);
}

#[test]
fn unit_trim_removes_unicode_whitespace_only_at_ends() {
    let all = vec![ch("GPU Stats", "GPU Performance States", "GPUPH", "\u{3000}\t m s\u{85}\u{a0}")];
    let kept = select_gpu_channels(&all).unwrap();
    assert_eq!(kept[0].unit, "m s");
}

#[test]
fn trim_text_trims_both_ends() {
    assert_eq!(bottom::channels::trim_text(" \t mW \n"), "mW");
    assert_eq!(bottom::channels::trim_text("\u{2028}a b\u{3000}"), "a b");
    assert_eq!(bottom::channels::trim_text("   "), "");
    assert_eq!(bottom::channels::trim_text(""), "");
    assert_eq!(bottom::channels::trim_text("x\u{200B}"), "x\u{200B}");
}
