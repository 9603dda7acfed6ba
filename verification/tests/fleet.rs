use lanline::fleet::{
    after_run, base_url, esc, fmt_uptime, load, preflight, resolve, Backoff, ChildPorts, Defaults,
    FleetError, FleetFile, NextStep, PortBases, PortRole, RadioEntry, RadioSpec, RunOutcome,
};

fn entry(label: Option<&str>, device: &str, tls: Option<bool>, enable_tx: Option<bool>) -> RadioEntry {
    RadioEntry { label: label.map(|s| s.to_string()), device: device.to_string(), tls, enable_tx }
}

fn file(defaults: Defaults, ports: PortBases, radios: Vec<RadioEntry>) -> FleetFile {
    FleetFile { defaults, ports, radios }
}

fn no_defaults() -> Defaults {
    Defaults { tls: None, enable_tx: None }
}

#[test]
fn merges_defaults_and_assigns_port_blocks() {
    let f = file(
        Defaults { tls: Some(true), enable_tx: None },
        PortBases::default(),
        vec![
            entry(Some("VHF"), "driver=hackrf", None, Some(true)),
            entry(None, "driver=plutosdr", None, None),
        ],
    );
    let specs = load(&f, &[], false, false).unwrap();
    assert_eq!(specs.len(), 2);

    assert_eq!(specs[0].label, "VHF");
    assert_eq!(specs[0].ports.c2, 8730);
    assert_eq!(specs[0].ports.beast, 30005);
    assert!(specs[0].tls);
    assert!(specs[0].enable_tx);

    assert_eq!(specs[1].label, "radio-1");
    assert_eq!(specs[1].ports.c2, 8731);
    assert_eq!(specs[1].ports.aprs, 10153);
    assert!(specs[1].tls);
    assert!(!specs[1].enable_tx);
}

#[test]
fn zero_port_base_disables_that_feed_for_all() {
    let f = file(
        no_defaults(),
        PortBases { c2: 9000, audio_out: 9010, audio_in: 9020, beast: 0, ais_nmea: 10110, aprs: 0 },
        vec![entry(None, "driver=hackrf", None, None), entry(None, "driver=plutosdr", None, None)],
    );
    let specs = load(&f, &[], false, false).unwrap();
    assert_eq!(specs[0].ports.c2, 9000);
    assert_eq!(specs[1].ports.c2, 9001);
    assert_eq!(specs[0].ports.beast, 0);
    assert_eq!(specs[1].ports.beast, 0);
    assert_eq!(specs[0].ports.aprs, 0);
    assert_eq!(specs[1].ports.ais_nmea, 10111);
}

#[test]
fn radio_shorthand_appends_after_config() {
    let f = file(no_defaults(), PortBases::default(), vec![entry(Some("A"), "driver=hackrf", None, None)]);
    let extra = vec!["driver=plutosdr".to_string(), "driver=rtlsdr".to_string()];
    let specs = load(&f, &extra, false, false).unwrap();
    assert_eq!(specs.len(), 3);
    assert_eq!(specs[0].label, "A");
    assert_eq!(specs[1].device_filter, "driver=plutosdr");
    assert_eq!(specs[2].device_filter, "driver=rtlsdr");
    assert_eq!(specs[2].ports.c2, 8732);
}

#[test]
fn no_radios_is_an_error() {
    let f = file(no_defaults(), PortBases::default(), vec![]);
    assert!(load(&f, &[], false, false).is_err());
    assert_eq!(load(&f, &[], false, false).err(), Some(FleetError::NoRadios));
}

#[test]
fn too_many_radios_is_an_error() {
    let f = file(no_defaults(), PortBases::default(), vec![]);
    let extra: Vec<String> = (0..9).map(|i| format!("driver=x{i}")).collect();
    assert!(load(&f, &extra, false, false).is_err());
    assert_eq!(load(&f, &extra, false, false).err(), Some(FleetError::TooManyRadios { count: 9 }));
    assert!(load(&f, &extra[..8], false, false).is_ok());
}

#[test]
fn flags_fill_in_where_config_is_silent() {
    let f = file(no_defaults(), PortBases::default(), vec![entry(None, "a", Some(false), None)]);
    let specs = load(&f, &["b".to_string()], true, true).unwrap();
    assert!(!specs[0].tls);
    assert!(specs[0].enable_tx);
    assert!(specs[1].tls && specs[1].enable_tx);
    assert_eq!(specs[1].idx, 1);
    assert_eq!(specs[1].device_args, "b");
    assert_eq!(specs[1].device_label, "b");
    assert!(specs[1].device_serial.is_none() && specs[1].device_driver.is_none());
    assert_ne!(specs[0].server_id, specs[1].server_id);
    for s in &specs {
        assert_eq!(uuid::Uuid::from_u128(s.server_id).get_version_num(), 4);
        assert_eq!(uuid::Uuid::from_u128(s.server_id).get_variant(), uuid::Variant::RFC4122);
    }
    assert_eq!(specs[1].ports, ChildPorts { c2: 8731, audio_out: 8741, audio_in: 8751, beast: 30006, ais_nmea: 10111, aprs: 10153 });
}

fn spec(idx: usize, filter: &str, ports: ChildPorts) -> RadioSpec {
    RadioSpec {
        idx,
        label: format!("radio-{idx}"),
        device_filter: filter.to_string(),
        device_args: filter.to_string(),
        device_label: filter.to_string(),
        device_serial: None,
        device_driver: None,
        server_id: uuid::Uuid::new_v4().as_u128(),
        ports,
        tls: false,
        enable_tx: false,
    }
}

fn c2_only(c2: u16) -> ChildPorts {
    ChildPorts { c2, audio_out: 0, audio_in: 0, beast: 0, ais_nmea: 0, aprs: 0 }
}

#[test]
fn distinct_filters_pass_identical_ones_fail() {
    let mut ok = [spec(0, "driver=hackrf", c2_only(8730)), spec(1, "driver=plutosdr", c2_only(8731))];
    assert!(resolve(&mut ok).is_ok());

    let mut clash = [spec(0, "driver=hackrf", c2_only(8730)), spec(1, "driver=hackrf", c2_only(8731))];
    assert!(resolve(&mut clash).is_err());
}

#[test]
fn resolve_names_the_first_repeat() {
    let specs = [
        spec(0, "a", c2_only(1)),
        spec(1, "b", c2_only(2)),
        spec(2, "b", c2_only(3)),
        spec(3, "a", c2_only(4)),
    ];
    assert_eq!(
        resolve(&specs),
        Err(FleetError::SameDevice { first: 1, second: 2, filter: "b".to_string() })
    );
}

#[test]
fn preflight_lists_enabled_ports_and_finds_the_first_clash() {
    let p0 = ChildPorts { c2: 8730, audio_out: 8740, audio_in: 8750, beast: 30005, ais_nmea: 0, aprs: 10152 };
    let p1 = ChildPorts { c2: 8731, audio_out: 8741, audio_in: 8751, beast: 30006, ais_nmea: 0, aprs: 10153 };
    let specs = [spec(0, "a", p0), spec(1, "b", p1)];
    let plan = preflight(&specs);
    assert!(plan.clash.is_none());
    let ports: Vec<(usize, PortRole, u16)> = plan.checks.iter().map(|u| (u.idx, u.role, u.port)).collect();
    assert_eq!(
        ports,
        vec![
            (0, PortRole::C2, 8730),
            (0, PortRole::Beast, 30005),
            (0, PortRole::Aprs, 10152),
            (1, PortRole::C2, 8731),
            (1, PortRole::Beast, 30006),
            (1, PortRole::Aprs, 10153),
        ]
    );

    let q1 = ChildPorts { c2: 30005, ..p1 };
    let clash = preflight(&[spec(0, "a", p0), spec(1, "b", q1)]);
    let c = clash.clash.unwrap();
    assert_eq!((c.earlier.idx, c.earlier.role, c.earlier.port), (0, PortRole::Beast, 30005));
    assert_eq!((c.later.idx, c.later.role), (1, PortRole::C2));
    assert_eq!(clash.checks.len(), 3);
    assert_eq!(PortRole::AisNmea.name(), "ais_nmea");
}

#[test]
fn backoff_doubles_caps_and_resets_after_a_healthy_run() {
    let short = RunOutcome::Exited { up_nanos: 1_000_000_000 };
    let mut b = Backoff { attempt: 0, restarts: 0 };
    let mut delays = Vec::new();
    for _ in 0..8 {
        let (nb, step) = after_run(b, short, false, false, 0);
        match step {
            NextStep::Restart { delay_secs } => delays.push(delay_secs),
            other => panic!("{other:?}"),
        }
        b = nb;
    }
    assert_eq!(delays, vec![1, 2, 4, 8, 16, 32, 32, 32]);
    assert_eq!(b.restarts, 8);
    let (nb, step) = after_run(b, RunOutcome::Exited { up_nanos: 60_000_000_001 }, false, false, 0);
    assert_eq!(step, NextStep::Restart { delay_secs: 1 });
    assert_eq!(nb, Backoff { attempt: 1, restarts: 9 });
    let (_, step) = after_run(b, RunOutcome::Exited { up_nanos: 60_000_000_000 }, false, false, 0);
    assert_eq!(step, NextStep::Restart { delay_secs: 32 });
}

#[test]
fn supervisor_stops_gives_up_and_retries() {
    let b = Backoff { attempt: 2, restarts: 3 };
    let exited = RunOutcome::Exited { up_nanos: 5 };
    assert_eq!(after_run(b, exited, true, false, 0), (b, NextStep::Stop));
    assert_eq!(after_run(b, exited, false, true, 0), (b, NextStep::StayDown));
    assert_eq!(after_run(b, RunOutcome::ShutdownRequested, false, false, 0), (b, NextStep::Stop));
    assert_eq!(after_run(b, RunOutcome::SpawnFailed, false, false, 1), (b, NextStep::RetrySpawn { delay_secs: 5 }));
    let (nb, step) = after_run(b, exited, false, false, 3);
    assert_eq!(step, NextStep::GiveUp);
    assert_eq!(nb.restarts, 4);
    let (_, step) = after_run(b, exited, false, false, 4);
    assert_eq!(step, NextStep::Restart { delay_secs: 4 });
}

#[test]
fn uptime_reads_in_seconds_minutes_or_hours() {
    assert_eq!(fmt_uptime(0), "0s");
    assert_eq!(fmt_uptime(89), "89s");
    assert_eq!(fmt_uptime(90), "1m");
    assert_eq!(fmt_uptime(5399), "89m");
    assert_eq!(fmt_uptime(5400), "1h30m");
    assert_eq!(fmt_uptime(3 * 3600 + 59), "3h0m");
}

#[test]
fn html_escaping_and_urls() {
    assert_eq!(esc(r#"<a href="x">&</a>"#), "&lt;a href=&quot;x&quot;&gt;&amp;&lt;/a&gt;");
    assert_eq!(esc("plain"), "plain");
    assert_eq!(base_url(true, "192.168.1.20", 8730), "https://192.168.1.20:8730");
    assert_eq!(base_url(false, "10.0.0.1", 80), "http://10.0.0.1:80");
}
