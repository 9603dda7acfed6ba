use lanline::flight::{
    cache_hit, clean, combine, lookup_callsign, map_airport, request_callsign, request_icao,
    ttl_secs, AdsbdbAircraft, AdsbdbAirport, Airline, FlightInfo, FlightRoute,
};

fn s(v: &str) -> Option<String> {
    Some(v.to_string())
}

fn aircraft() -> AdsbdbAircraft {
    AdsbdbAircraft {
        aircraft_type: s("G650 ER"),
        icao_type: s("G650"),
        manufacturer: s("Gulfstream Aerospace"),
        registration: s("N628TS"),
        registered_owner: s("Falcon Landing LLC"),
        registered_owner_country_name: s("United States"),
        url_photo_thumbnail: s("https://airport-data.com/x.jpg"),
    }
}

fn airport(name: &str, city: &str, iata: &str, icao: &str) -> AdsbdbAirport {
    AdsbdbAirport { name: s(name), municipality: s(city), iata_code: s(iata), icao_code: s(icao) }
}

fn route() -> FlightRoute {
    FlightRoute {
        airline: Some(Airline { name: s("United Airlines") }),
        origin: Some(airport("San Francisco International Airport", "San Francisco", "SFO", "KSFO")),
        destination: Some(airport("Singapore Changi Airport", "Singapore", "SIN", "WSSS")),
    }
}

#[test]
fn clean_drops_blank_and_unknown() {
    assert_eq!(clean(Some("   ".into())), None);
    assert_eq!(clean(Some("Unknown".into())), None);
    assert_eq!(clean(Some(" N1 ".into())).as_deref(), Some("N1"));
}

#[test]
fn clean_keeps_words_that_only_contain_unknown() {
    assert_eq!(clean(Some("UNKNOWN".into())), None);
    assert_eq!(clean(Some("unknown airline".into())).as_deref(), Some("unknown airline"));
    assert_eq!(clean(Some("\u{3000}Tokyo\t".into())).as_deref(), Some("Tokyo"));
    assert_eq!(clean(None), None);
}

#[test]
fn maps_an_airport() {
    let o = map_airport(airport("San Francisco International Airport", "San Francisco", "SFO", "KSFO"));
    assert_eq!(o.iata.as_deref(), Some("SFO"));
    assert_eq!(o.city.as_deref(), Some("San Francisco"));
}

#[test]
fn combines_a_full_hit() {
    let info = combine(Ok(Some(aircraft())), Ok(Some(route())));
    assert!(info.available);
    assert_eq!(info.reason, None);
    assert_eq!(info.registration.as_deref(), Some("N628TS"));
    assert_eq!(info.aircraft_type.as_deref(), Some("G650 ER"));
    assert_eq!(info.icao_type.as_deref(), Some("G650"));
    assert_eq!(info.owner.as_deref(), Some("Falcon Landing LLC"));
    assert_eq!(info.owner_country.as_deref(), Some("United States"));
    assert_eq!(info.photo_thumb_url.as_deref(), Some("https://airport-data.com/x.jpg"));
    assert_eq!(info.airline.as_deref(), Some("United Airlines"));
    let r = info.route.clone().unwrap();
    assert_eq!(r.destination.icao.as_deref(), Some("WSSS"));
    assert_eq!(ttl_secs(&info), 86400);
}

#[test]
fn plain_http_photos_are_dropped() {
    let mut a = aircraft();
    a.url_photo_thumbnail = s("http://example.com/x.jpg");
    let info = combine(Ok(Some(a)), Ok(None));
    assert_eq!(info.photo_thumb_url, None);
    assert!(info.available);
    assert!(info.route.is_none());
    assert_eq!(ttl_secs(&info), 3600);
}

#[test]
fn misses_say_offline_or_unknown() {
    let off = combine(Err(()), Ok(Some(FlightRoute { airline: None, origin: None, destination: None })));
    assert!(!off.available);
    assert_eq!(off.reason.as_deref(), Some("offline"));
    assert_eq!(ttl_secs(&off), 30);
    let unk = combine(Ok(None), Err(()));
    assert_eq!(unk.reason.as_deref(), Some("unknown"));
    assert_eq!(ttl_secs(&unk), 3600);
    let route_only = combine(Err(()), Ok(Some(route())));
    assert!(route_only.available);
    assert_eq!(route_only.reason, None);
}

#[test]
fn reason_results_are_unavailable() {
    let d = FlightInfo::reason("disabled");
    assert!(!d.available);
    assert_eq!(d.reason.as_deref(), Some("disabled"));
    assert!(d.registration.is_none() && d.route.is_none());
}

#[test]
fn requests_are_normalised() {
    assert_eq!(request_icao(" A835AF ").as_deref(), Some("a835af"));
    assert_eq!(request_icao("a835a"), None);
    assert_eq!(request_icao("a835ag"), None);
    assert_eq!(request_icao("a835af0"), None);
    assert_eq!(request_callsign(" swa-1234xyz9 "), "SWA1234X");
    assert_eq!(request_callsign("ual1"), "UAL1");
    assert_eq!(lookup_callsign(Some("  ual1 ")).as_deref(), Some("UAL1"));
    assert_eq!(lookup_callsign(Some("   ")), None);
    assert_eq!(lookup_callsign(None), None);
}

#[test]
fn cache_serves_fresh_entries_for_the_same_callsign() {
    let cs = s("UAL1");
    assert!(cache_hit(0, 30, &cs, &cs));
    assert!(!cache_hit(30_000_000_000, 30, &cs, &cs));
    assert!(cache_hit(29_999_999_999, 30, &cs, &cs));
    assert!(!cache_hit(0, 30, &cs, &s("UAL2")));
    assert!(!cache_hit(0, 30, &None, &cs));
    assert!(cache_hit(0, 30, &None, &None));
}

#[test]
fn flight_query_cleans_the_callsign() {
    let q = lanline::flight::FlightQuery { callsign: Some("  swa-123 x\n".to_string()) };
    assert_eq!(q.requested(), Some("SWA123X".to_string()));
    let q = lanline::flight::FlightQuery { callsign: Some("abcdefghijk".to_string()) };
    assert_eq!(q.requested(), Some("ABCDEFGH".to_string()));
    assert_eq!(lanline::flight::FlightQuery { callsign: None }.requested(), None);
}
