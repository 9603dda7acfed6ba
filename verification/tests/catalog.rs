use lanline::catalog::{base_capabilities, bundled, is_audio_mode, radio_capabilities};
use lanline::model::{SpectrumQuery, AudioConfig, ClientInfo, DeviceHealth, DeviceStatus, ScanStatus, PROTOCOL_VERSION};
use lanline::net::{directed_broadcast, hostname_from};
use lanline::wav::{dump_header, write_header};

#[test]
fn capabilities_list_every_mode() {
    assert_eq!(
        base_capabilities(),
        vec!["rx", "webrtc", "nbfm", "wbfm", "am", "frs", "apt", "adsb", "ais", "debug_tone"]
    );
    let tx = radio_capabilities(true);
    assert_eq!(&tx[10..], &["tx".to_string(), "ptt".to_string()]);
    assert_eq!(radio_capabilities(false).len(), 10);
}

#[test]
fn audio_modes() {
    for m in ["nbfm", "wbfm", "am", "frs", "ham", "debug_tone"] {
        assert!(is_audio_mode(m), "{m}");
    }
    for m in ["adsb", "ais", "apt", "", "NBFM", "nbfm "] {
        assert!(!is_audio_mode(m), "{m}");
    }
}

#[test]
fn bundle_detection() {
    assert!(bundled("<div id=\"app\"></div>"));
    assert!(bundled("<div id=app></div>"));
    assert!(!bundled("<p>placeholder</p>"));
    assert!(!bundled("id="));
}

#[test]
fn iq_header_layout() {
    let mut h = Vec::new();
    write_header(&mut h, 2_000_000, 400);
    assert_eq!(h.len(), 44);
    assert_eq!(&h[0..4], b"RIFF");
    assert_eq!(&h[4..8], &436u32.to_le_bytes());
    assert_eq!(&h[8..16], b"WAVEfmt ");
    assert_eq!(&h[16..20], &16u32.to_le_bytes());
    assert_eq!(&h[20..22], &1u16.to_le_bytes());
    assert_eq!(&h[22..24], &2u16.to_le_bytes());
    assert_eq!(&h[24..28], &2_000_000u32.to_le_bytes());
    assert_eq!(&h[28..32], &8_000_000u32.to_le_bytes());
    assert_eq!(&h[32..34], &4u16.to_le_bytes());
    assert_eq!(&h[34..36], &16u16.to_le_bytes());
    assert_eq!(&h[36..40], b"data");
    assert_eq!(&h[40..44], &400u32.to_le_bytes());
}

#[test]
fn dump_header_leaves_sizes_zero() {
    let h = dump_header(48_000, 1);
    assert_eq!(h.len(), 44);
    assert_eq!(&h[4..8], &[0, 0, 0, 0]);
    assert_eq!(&h[28..32], &96_000u32.to_le_bytes());
    assert_eq!(&h[32..34], &2u16.to_le_bytes());
    assert_eq!(&h[40..44], &[0, 0, 0, 0]);
}

#[test]
fn model_defaults() {
    let a = AudioConfig::default();
    assert_eq!((a.sample_rate_hz, a.channels, a.opus_bitrate_bps, a.frame_ms), (48_000, 1, 24_000, 20));
    let h = DeviceHealth::absent();
    assert!(!h.present);
    assert_eq!(h.status, DeviceStatus::Absent);
    assert!(h.sensors.is_empty());
    let s = ScanStatus::default();
    assert!(!s.active && s.total == 0);
    let c = ClientInfo::default();
    assert!(c.name.is_empty() && c.capabilities.is_empty());
    assert_eq!(PROTOCOL_VERSION, 1);
}

#[test]
fn broadcast_addresses_and_host_names() {
    let ip: u32 = (192 << 24) | (168 << 16) | (1 << 8) | 20;
    let mask: u32 = 0xffff_ff00;
    assert_eq!(directed_broadcast(ip, mask), Some((192 << 24) | (168 << 16) | (1 << 8) | 255));
    assert_eq!(directed_broadcast(ip, 0), None);
    assert_eq!(hostname_from(Some("  shack-pi\n")), "shack-pi");
    assert_eq!(hostname_from(Some(" \n")), "unknown");
    assert_eq!(hostname_from(None), "unknown");
}

#[test]
fn spectrum_rows_are_capped() {
    assert_eq!(SpectrumQuery { since: 0, max_rows: None }.rows(), 256);
    assert_eq!(SpectrumQuery { since: 5, max_rows: Some(0) }.rows(), 1);
    assert_eq!(SpectrumQuery { since: 5, max_rows: Some(10) }.rows(), 10);
    assert_eq!(SpectrumQuery { since: 5, max_rows: Some(100_000) }.rows(), 4000);
}

#[test]
fn audio_framing_clamps_the_frame_length() {
    let mut c = AudioConfig::default();
    let f = c.framing();
    assert_eq!((f.frame_ms, f.frame_samples, f.bitrate_bps), (20, 960, 24_000));
    c.frame_ms = 5;
    assert_eq!(c.framing().frame_ms, 10);
    assert_eq!(c.framing().frame_samples, 480);
    c.frame_ms = 500;
    assert_eq!(c.framing().frame_samples, 2880);
}
