use lanline::fleet::{ChildPorts, RadioSpec};
use lanline::launch::{child_args, child_args_with_id, iq_dir_name, tls_dir_name, uuid_text, LaunchOpts};

fn radio(idx: usize, id: u128, tls: bool, enable_tx: bool) -> RadioSpec {
    RadioSpec {
        idx,
        label: "VHF".to_string(),
        device_filter: "driver=rtlsdr".to_string(),
        device_args: "driver=rtlsdr,serial=01".to_string(),
        device_label: "RTL-SDR".to_string(),
        device_serial: Some("01".to_string()),
        device_driver: Some("rtlsdr".to_string()),
        server_id: id,
        ports: ChildPorts { c2: 8731, audio_out: 8741, audio_in: 8751, beast: 0, ais_nmea: 10111, aprs: 10153 },
        tls,
        enable_tx,
    }
}

fn opts(fleet_url: Option<&str>) -> LaunchOpts {
    LaunchOpts {
        bind: "0.0.0.0".to_string(),
        advertise_host: "192.168.1.20".to_string(),
        fleet_url: fleet_url.map(|s| s.to_string()),
    }
}

#[test]
fn identity_renders_like_uuid_display() {
    for v in [0u128, 1, 0x0123_4567_89ab_cdef_fedc_ba98_7654_3210, u128::MAX, 0xa1a2a3a4_b1b2_c1c2_d1d2_d3d4d5d6d7d8] {
        assert_eq!(uuid_text(v), uuid::Uuid::from_u128(v).to_string());
    }
    assert_eq!(uuid_text(0x0123_4567_89ab_cdef_fedc_ba98_7654_3210), "01234567-89ab-cdef-fedc-ba9876543210");
}

#[test]
fn state_directories_per_radio() {
    assert_eq!(iq_dir_name(0), "radio-0");
    assert_eq!(iq_dir_name(12), "radio-12");
    assert_eq!(tls_dir_name(3), "tls-radio-3");
}

#[test]
fn child_command_line_carries_ports_identity_and_switches() {
    let id = 0x0123_4567_89ab_cdef_fedc_ba98_7654_3210u128;
    let args = child_args_with_id(&radio(1, id, false, false), &opts(None), "/var/lib/lanline/radio-1", "/var/lib/lanline/tls-radio-1", None, id);
    let want: Vec<&str> = vec![
        "--bind", "0.0.0.0",
        "--advertise-host", "192.168.1.20",
        "--c2-port", "8731",
        "--audio-out-port", "8741",
        "--audio-in-port", "8751",
        "--beast-port", "0",
        "--ais-nmea-port", "10111",
        "--aprs-port", "10153",
        "--no-beacon",
        "--no-mdns",
        "--mdns-name", "lanline-1",
        "--instance-label", "VHF",
        "--server-id", "01234567-89ab-cdef-fedc-ba9876543210",
        "--device", "driver=rtlsdr,serial=01",
        "--iq-dir", "/var/lib/lanline/radio-1",
        "--tls-dir", "/var/lib/lanline/tls-radio-1",
    ];
    assert_eq!(args, want);
}

#[test]
fn child_command_line_optional_tail() {
    let id = 7u128;
    let args = child_args(&radio(0, id, true, true), &opts(Some("http://10.0.0.2:8720")), "a", "b", Some("-1.5"));
    let tail: Vec<&str> = vec![
        "--fleet-url", "http://10.0.0.2:8720",
        "--freq-correction-ppm", "-1.5",
        "--tls",
        "--enable-tx",
    ];
    assert_eq!(&args[args.len() - 6..], &tail[..]);
    let i = args.iter().position(|a| a == "--server-id").unwrap();
    assert_eq!(args[i + 1], uuid::Uuid::from_u128(id).to_string());
    assert_eq!(args.len(), 30 + 6);
}
