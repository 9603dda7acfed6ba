use lanline::devices::{bind_one, device_hint, BindError, Claim, DeviceEntry};
use lanline::fleet::{ChildPorts, RadioSpec};

fn spec(idx: usize, filter: &str) -> RadioSpec {
    RadioSpec {
        idx,
        label: format!("radio-{idx}"),
        device_filter: filter.to_string(),
        device_args: filter.to_string(),
        device_label: filter.to_string(),
        device_serial: None,
        device_driver: None,
        server_id: uuid::Uuid::new_v4().as_u128(),
        ports: ChildPorts { c2: 8730 + idx as u16, audio_out: 0, audio_in: 0, beast: 0, ais_nmea: 0, aprs: 0 },
        tls: false,
        enable_tx: false,
    }
}

fn entry(driver: Option<&str>, serial: Option<&str>, label: Option<&str>, canonical: &str) -> DeviceEntry {
    DeviceEntry {
        driver: driver.map(|s| s.to_string()),
        serial: serial.map(|s| s.to_string()),
        label: label.map(|s| s.to_string()),
        canonical: canonical.to_string(),
    }
}

#[test]
fn hint_lists_attached_devices() {
    assert_eq!(device_hint(&[]), " (none attached)");
    let all = [
        entry(Some("rtlsdr"), Some("01"), Some("Generic RTL2832U"), "driver=rtlsdr"),
        entry(Some("hackrf"), None, None, "driver=hackrf"),
        entry(None, None, None, "x=1"),
    ];
    assert_eq!(device_hint(&all), " — attached: Generic RTL2832U, hackrf, ?");
}

#[test]
fn binds_by_serial_and_refuses_a_second_radio_on_the_same_unit() {
    let unit = entry(Some("rtlsdr"), Some("00000001"), Some("Generic RTL2832U"), "driver=rtlsdr,label=Generic");
    let all = [unit.clone()];
    let mut claimed: Vec<Claim> = Vec::new();

    let mut a = spec(0, "driver=rtlsdr");
    assert_eq!(bind_one(&mut a, &[unit.clone()], &all, &mut claimed), Ok(()));
    assert_eq!(a.device_args, "driver=rtlsdr,serial=00000001");
    assert_eq!(a.device_label, "Generic RTL2832U");
    assert_eq!(a.device_serial.as_deref(), Some("00000001"));
    assert_eq!(a.device_driver.as_deref(), Some("rtlsdr"));
    assert_eq!(claimed.len(), 1);
    assert_eq!(claimed[0].key, "00000001");

    let mut b = spec(1, "serial=00000001");
    let r = bind_one(&mut b, &[unit.clone()], &all, &mut claimed);
    assert_eq!(r, Err(BindError::SameUnit { first: 0, second: 1, name: "Generic RTL2832U".to_string() }));
    assert_eq!(b.device_args, "serial=00000001");
    assert_eq!(claimed.len(), 1);
}

#[test]
fn falls_back_to_the_canonical_args_without_a_serial() {
    let unit = entry(Some("plutosdr"), Some(""), None, "driver=plutosdr,uri=usb:1.2.5");
    let mut claimed: Vec<Claim> = Vec::new();
    let mut a = spec(0, "driver=plutosdr");
    assert_eq!(bind_one(&mut a, &[unit.clone()], &[unit.clone()], &mut claimed), Ok(()));
    assert_eq!(a.device_args, "driver=plutosdr,uri=usb:1.2.5");
    assert_eq!(a.device_label, "driver=plutosdr,uri=usb:1.2.5");
    assert_eq!(a.device_serial, None);
    assert_eq!(claimed[0].key, "driver=plutosdr,uri=usb:1.2.5");
}

#[test]
fn no_match_and_ambiguous_filters_are_refused() {
    let x = entry(Some("hackrf"), Some("a1"), None, "driver=hackrf,serial=a1");
    let y = entry(Some("hackrf"), Some("b2"), None, "driver=hackrf,serial=b2");
    let mut claimed: Vec<Claim> = Vec::new();
    let mut s = spec(2, "driver=airspy");
    assert_eq!(
        bind_one(&mut s, &[], &[x.clone(), y.clone()], &mut claimed),
        Err(BindError::NoMatch { idx: 2, filter: "driver=airspy".to_string(), hint: " — attached: hackrf, hackrf".to_string() })
    );
    assert_eq!(
        bind_one(&mut s, &[x.clone(), y.clone()], &[x, y], &mut claimed),
        Err(BindError::Ambiguous { idx: 2, filter: "driver=airspy".to_string(), count: 2 })
    );
    assert!(claimed.is_empty());
}
