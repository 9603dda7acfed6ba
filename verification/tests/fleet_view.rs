use lanline::fleet::{ChildPorts, RadioSpec};
use lanline::fleet_view::{fleet_page, radio_card};

fn radio(label: &str, device_label: &str, tls: bool) -> RadioSpec {
    RadioSpec {
        idx: 1,
        label: label.to_string(),
        device_filter: "driver=rtlsdr".to_string(),
        device_args: "driver=rtlsdr".to_string(),
        device_label: device_label.to_string(),
        device_serial: None,
        device_driver: None,
        server_id: 1,
        ports: ChildPorts { c2: 8731, audio_out: 8741, audio_in: 8751, beast: 0, ais_nmea: 0, aprs: 0 },
        tls,
        enable_tx: false,
    }
}

#[test]
fn running_card_shows_uptime_and_restarts() {
    let card = radio_card(&radio("VHF <1>", "RTL&SDR", false), "192.168.1.20", true, Some(1000), 1100, 2);
    let want = "<article class=\"card radio\">\n  <div class=\"rc-head\">\n    <span class=\"badge\"><span class=\"dot ok\"></span>VHF &lt;1&gt;</span>\n    <a class=\"btn\" href=\"http://192.168.1.20:8731/\">Open ↗</a>\n  </div>\n  <div class=\"rc-dev\">RTL&amp;SDR</div>\n  <div class=\"chips\">\n    <span class=\"chip\">http · :8731</span>\n    <span class=\"chip\">running · 1m</span>\n    <span class=\"chip warn\">↻ 2</span>\n  </div>\n</article>";
    assert_eq!(card, want);
}

#[test]
fn down_card_has_no_uptime_or_restart_chip() {
    let card = radio_card(&radio("UHF", "HackRF One", true), "10.0.0.2", false, None, 5, 0);
    assert!(card.contains("<span class=\"dot bad\"></span>UHF</span>"));
    assert!(card.contains("href=\"https://10.0.0.2:8731/\""));
    assert!(card.contains("<span class=\"chip\">https · :8731</span>"));
    assert!(card.contains("<span class=\"chip\">down</span>\n    \n  </div>"));
    // a clock that went backwards shows zero seconds
    let card = radio_card(&radio("UHF", "HackRF One", true), "10.0.0.2", true, Some(50), 10, 0);
    assert!(card.contains("<span class=\"chip\">running · 0s</span>"));
}

#[test]
fn fleet_page_counts_and_lists_cards() {
    let page = fleet_page("shack&pi", &["<a>".to_string(), "<b>".to_string()]);
    assert!(page.starts_with("<!doctype html><html lang=\"en\"><head>"));
    assert!(page.contains("<title>LANline fleet — shack&amp;pi</title>"));
    assert!(page.contains("<h1>LANline <span class=\"sub\">fleet · shack&amp;pi</span></h1>"));
    assert!(page.contains("<p class=\"tagline\">2 radios on this host — pick one to open its radio page.</p>\n<div id=\"fleet-list\"><a><b></div>"));
    assert!(page.contains(":root {\n  --bg:#f6f7f9;"));
    assert!(page.ends_with("setInterval(tick, 3000);\n</script>\n</body></html>"));
    let one = fleet_page("h", &["x".to_string()]);
    assert!(one.contains(">1 radio on this host"));
    let none = fleet_page("h", &[]);
    assert!(none.contains(">0 radios on this host"));
}
