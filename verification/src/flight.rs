//! ADS-B flight enrichment: what a lookup of one aircraft (tail number,
//! type, owner, route) reports, built from the adsbdb.com answers; the
//! clean-up of their text fields; the cache lifetimes of a result; and the
//! normalisation of the ICAO address and callsign a client asks about.

use vstd::prelude::*;
use crate::text::{
    ascii_lower, ascii_upper, chars_of, map_ascii_lower, map_ascii_upper, string_from_chars,
    trim_by, trim_white, unicode_white_space,
};

verus! {

/// The characters of an optional string.
pub open spec fn opt_chars(s: Option<String>) -> Option<Seq<char>> {
    match s {
        Some(x) => Some(x@),
        None => None,
    }
}

/// One end of a route.
#[derive(Clone, Debug)]
pub struct Airport {
    pub name: Option<String>,
    pub city: Option<String>,
    pub iata: Option<String>,
    pub icao: Option<String>,
}

pub struct AirportView {
    pub name: Option<Seq<char>>,
    pub city: Option<Seq<char>>,
    pub iata: Option<Seq<char>>,
    pub icao: Option<Seq<char>>,
}

impl View for Airport {
    type V = AirportView;

    open spec fn view(&self) -> AirportView {
        AirportView {
            name: opt_chars(self.name),
            city: opt_chars(self.city),
            iata: opt_chars(self.iata),
            icao: opt_chars(self.icao),
        }
    }
}

/// A filed route.
#[derive(Clone, Debug)]
pub struct Route {
    pub origin: Airport,
    pub destination: Airport,
}

pub struct RouteView {
    pub origin: AirportView,
    pub destination: AirportView,
}

impl View for Route {
    type V = RouteView;

    open spec fn view(&self) -> RouteView {
        RouteView { origin: self.origin@, destination: self.destination@ }
    }
}

pub open spec fn opt_route(r: Option<Route>) -> Option<RouteView> {
    match r {
        Some(x) => Some(x@),
        None => None,
    }
}

/// Client-facing enrichment for one aircraft. `available` is false when
/// nothing useful came back, and `reason` then says why (`disabled`,
/// `offline`, `unknown` or `pending`).
#[derive(Clone, Debug)]
pub struct FlightInfo {
    pub available: bool,
    pub reason: Option<String>,
    pub registration: Option<String>,
    pub aircraft_type: Option<String>,
    pub icao_type: Option<String>,
    pub manufacturer: Option<String>,
    pub owner: Option<String>,
    pub owner_country: Option<String>,
    pub photo_thumb_url: Option<String>,
    pub airline: Option<String>,
    pub route: Option<Route>,
}

pub struct FlightInfoView {
    pub available: bool,
    pub reason: Option<Seq<char>>,
    pub registration: Option<Seq<char>>,
    pub aircraft_type: Option<Seq<char>>,
    pub icao_type: Option<Seq<char>>,
    pub manufacturer: Option<Seq<char>>,
    pub owner: Option<Seq<char>>,
    pub owner_country: Option<Seq<char>>,
    pub photo_thumb_url: Option<Seq<char>>,
    pub airline: Option<Seq<char>>,
    pub route: Option<RouteView>,
}

impl View for FlightInfo {
    type V = FlightInfoView;

    open spec fn view(&self) -> FlightInfoView {
        FlightInfoView {
            available: self.available,
            reason: opt_chars(self.reason),
            registration: opt_chars(self.registration),
            aircraft_type: opt_chars(self.aircraft_type),
            icao_type: opt_chars(self.icao_type),
            manufacturer: opt_chars(self.manufacturer),
            owner: opt_chars(self.owner),
            owner_country: opt_chars(self.owner_country),
            photo_thumb_url: opt_chars(self.photo_thumb_url),
            airline: opt_chars(self.airline),
            route: opt_route(self.route),
        }
    }
}

/// Nothing known.
pub open spec fn empty_info() -> FlightInfoView {
    FlightInfoView {
        available: false,
        reason: None,
        registration: None,
        aircraft_type: None,
        icao_type: None,
        manufacturer: None,
        owner: None,
        owner_country: None,
        photo_thumb_url: None,
        airline: None,
        route: None,
    }
}

impl Default for FlightInfo {
    fn default() -> (r: Self)
        ensures
            r@ == empty_info(),
    {
        FlightInfo {
            available: false,
            reason: None,
            registration: None,
            aircraft_type: None,
            icao_type: None,
            manufacturer: None,
            owner: None,
            owner_country: None,
            photo_thumb_url: None,
            airline: None,
            route: None,
        }
    }
}

/// An unavailable result carrying `reason`.
pub open spec fn reason_info(r: Seq<char>) -> FlightInfoView {
    FlightInfoView { reason: Some(r), ..empty_info() }
}

impl FlightInfo {
    /// An unavailable result that says why.
    pub fn reason(r: &str) -> (info: Self)
        ensures
            info@ == reason_info(r@),
    {
        let chars = chars_of(r);
        FlightInfo { reason: Some(string_from_chars(chars.as_slice())), ..Default::default() }
    }
}

/// The aircraft record of an adsbdb.com answer (the fields surfaced).
#[derive(Clone, Debug)]
pub struct AdsbdbAircraft {
    pub aircraft_type: Option<String>,
    pub icao_type: Option<String>,
    pub manufacturer: Option<String>,
    pub registration: Option<String>,
    pub registered_owner: Option<String>,
    pub registered_owner_country_name: Option<String>,
    pub url_photo_thumbnail: Option<String>,
}

/// An airline of an adsbdb.com route answer.
#[derive(Clone, Debug)]
pub struct Airline {
    pub name: Option<String>,
}

/// An airport of an adsbdb.com route answer.
#[derive(Clone, Debug)]
pub struct AdsbdbAirport {
    pub name: Option<String>,
    pub municipality: Option<String>,
    pub iata_code: Option<String>,
    pub icao_code: Option<String>,
}

/// The route record of an adsbdb.com answer.
#[derive(Clone, Debug)]
pub struct FlightRoute {
    pub airline: Option<Airline>,
    pub origin: Option<AdsbdbAirport>,
    pub destination: Option<AdsbdbAirport>,
}

/// `unknown` in any ASCII case.
pub open spec fn is_unknown_text(s: Seq<char>) -> bool {
    s.map_values(|c: char| ascii_lower(c)) == seq!['u', 'n', 'k', 'n', 'o', 'w', 'n']
}

/// A text field as surfaced: trimmed, and dropped when blank or `unknown`.
pub open spec fn cleaned(s: Option<String>) -> Option<Seq<char>> {
    match s {
        None => None,
        Some(x) => {
            let t = trim_by(x@, unicode_white_space());
            if t.len() == 0 || is_unknown_text(t) {
                None
            } else {
                Some(t)
            }
        },
    }
}

fn is_unknown(t: &Vec<char>) -> (r: bool)
    ensures
        r == is_unknown_text(t@),
{
    let lower = map_ascii_lower(t);
    let word: [char; 7] = ['u', 'n', 'k', 'n', 'o', 'w', 'n'];
    if lower.len() != 7 {
        proof {
            assert(lower@.len() != seq!['u', 'n', 'k', 'n', 'o', 'w', 'n'].len());
        }
        return false;
    }
    let mut i: usize = 0;
    while i < 7
        invariant
            i <= 7,
            lower@.len() == 7,
            lower@ == t@.map_values(|c: char| ascii_lower(c)),
            word@ == seq!['u', 'n', 'k', 'n', 'o', 'w', 'n'],
            forall|j: int| 0 <= j < i ==> lower@[j] == word@[j],
        decreases 7 - i,
    {
        if lower[i] != word[i] {
            proof {
                assert(lower@[i as int] != word@[i as int]);
                assert(lower@ != word@);
            }
            return false;
        }
        i = i + 1;
    }
    proof {
        assert(lower@ =~= word@);
    }
    true
}

/// Trims a text field and drops it when blank or `unknown`.
pub fn clean(s: Option<String>) -> (r: Option<String>)
    ensures
        opt_chars(r) == cleaned(s),
{
    match s {
        None => None,
        Some(x) => {
            let t = trim_white(x.as_str());
            if t.len() == 0 || is_unknown(&t) {
                None
            } else {
                Some(string_from_chars(t.as_slice()))
            }
        },
    }
}

/// The surfaced form of an adsbdb.com airport.
pub open spec fn mapped_airport(a: AdsbdbAirport) -> AirportView {
    AirportView {
        name: cleaned(a.name),
        city: cleaned(a.municipality),
        iata: cleaned(a.iata_code),
        icao: cleaned(a.icao_code),
    }
}

pub fn map_airport(a: AdsbdbAirport) -> (r: Airport)
    ensures
        r@ == mapped_airport(a),
{
    Airport {
        name: clean(a.name),
        city: clean(a.municipality),
        iata: clean(a.iata_code),
        icao: clean(a.icao_code),
    }
}

/// `https://`, the only photo links passed on.
pub open spec fn https_prefix() -> Seq<char> {
    seq!['h', 't', 't', 'p', 's', ':', '/', '/']
}

/// A photo link is kept only when it is an `https://` URL.
pub open spec fn https_only(u: Option<Seq<char>>) -> Option<Seq<char>> {
    match u {
        Some(x) => if https_prefix().is_prefix_of(x) {
            Some(x)
        } else {
            None
        },
        None => None,
    }
}

fn starts_with_https(s: &String) -> (r: bool)
    ensures
        r == https_prefix().is_prefix_of(s@),
{
    let v = chars_of(s.as_str());
    let p: [char; 8] = ['h', 't', 't', 'p', 's', ':', '/', '/'];
    proof {
        assert(p@ =~= https_prefix());
    }
    if v.len() < 8 {
        return false;
    }
    let mut i: usize = 0;
    while i < 8
        invariant
            i <= 8 <= v@.len(),
            v@ == s@,
            p@ == https_prefix(),
            forall|j: int| 0 <= j < i ==> v@[j] == p@[j],
        decreases 8 - i,
    {
        if v[i] != p[i] {
            return false;
        }
        i = i + 1;
    }
    true
}

/// The route answer's airline, cleaned.
pub open spec fn route_airline(rt: Result<Option<FlightRoute>, ()>) -> Option<Seq<char>> {
    match rt {
        Ok(Some(fr)) => match fr.airline {
            Some(a) => cleaned(a.name),
            None => None,
        },
        _ => None,
    }
}

/// The route, when the answer names both ends.
pub open spec fn route_ends(rt: Result<Option<FlightRoute>, ()>) -> Option<RouteView> {
    match rt {
        Ok(Some(fr)) => match (fr.origin, fr.destination) {
            (Some(o), Some(d)) => Some(
                RouteView { origin: mapped_airport(o), destination: mapped_airport(d) },
            ),
            _ => None,
        },
        _ => None,
    }
}

/// What a lookup reports from the two answers: the aircraft answer
/// (`Ok(Some)` found, `Ok(None)` not known upstream, `Err` network or body
/// failure) and the route answer (only a found one is used). It is
/// available when it has a registration, a type or a route; otherwise the
/// reason is `offline` after an aircraft-answer failure, else `unknown`.
pub open spec fn combined(ac: Result<Option<AdsbdbAircraft>, ()>, rt: Result<Option<FlightRoute>, ()>) -> FlightInfoView {
    let a = match ac {
        Ok(Some(a)) => Some(a),
        _ => None,
    };
    let registration = match a { Some(a) => cleaned(a.registration), None => None };
    let aircraft_type = match a { Some(a) => cleaned(a.aircraft_type), None => None };
    let route = route_ends(rt);
    let available = registration is Some || aircraft_type is Some || route is Some;
    FlightInfoView {
        available,
        reason: if available {
            None
        } else if ac is Err {
            Some(seq!['o', 'f', 'f', 'l', 'i', 'n', 'e'])
        } else {
            Some(seq!['u', 'n', 'k', 'n', 'o', 'w', 'n'])
        },
        registration,
        aircraft_type,
        icao_type: match a { Some(a) => cleaned(a.icao_type), None => None },
        manufacturer: match a { Some(a) => cleaned(a.manufacturer), None => None },
        owner: match a { Some(a) => cleaned(a.registered_owner), None => None },
        owner_country: match a { Some(a) => cleaned(a.registered_owner_country_name), None => None },
        photo_thumb_url: match a { Some(a) => https_only(cleaned(a.url_photo_thumbnail)), None => None },
        airline: route_airline(rt),
        route,
    }
}

fn text_string(v: &[char]) -> (s: String)
    ensures
        s@ == v@,
{
    string_from_chars(v)
}

/// Builds the result of a lookup from the two upstream answers.
pub fn combine(ac: Result<Option<AdsbdbAircraft>, ()>, rt: Result<Option<FlightRoute>, ()>) -> (info: FlightInfo)
    ensures
        info@ == combined(ac, rt),
{
    let ghost ac0 = ac;
    let ghost rt0 = rt;
    let mut info = FlightInfo::default();
    let mut net_err = false;
    match ac {
        Ok(Some(a)) => {
            info.registration = clean(a.registration);
            info.aircraft_type = clean(a.aircraft_type);
            info.icao_type = clean(a.icao_type);
            info.manufacturer = clean(a.manufacturer);
            info.owner = clean(a.registered_owner);
            info.owner_country = clean(a.registered_owner_country_name);
            let photo = clean(a.url_photo_thumbnail);
            info.photo_thumb_url = match photo {
                Some(u) => if starts_with_https(&u) {
                    Some(u)
                } else {
                    None
                },
                None => None,
            };
        },
        Ok(None) => {},
        Err(()) => {
            net_err = true;
        },
    }
    match rt {
        Ok(Some(fr)) => {
            info.airline = match fr.airline {
                Some(x) => clean(x.name),
                None => None,
            };
            match (fr.origin, fr.destination) {
                (Some(o), Some(d)) => {
                    info.route = Some(Route { origin: map_airport(o), destination: map_airport(d) });
                },
                _ => {},
            }
        },
        _ => {},
    }
    info.available = info.registration.is_some() || info.aircraft_type.is_some()
        || info.route.is_some();
    if !info.available {
        let word: [char; 7] = if net_err {
            ['o', 'f', 'f', 'l', 'i', 'n', 'e']
        } else {
            ['u', 'n', 'k', 'n', 'o', 'w', 'n']
        };
        info.reason = Some(text_string(&word));
        proof {
            if net_err {
                assert(word@ =~= seq!['o', 'f', 'f', 'l', 'i', 'n', 'e']);
            } else {
                assert(word@ =~= seq!['u', 'n', 'k', 'n', 'o', 'w', 'n']);
            }
        }
    }
    proof {
        assert(info@ == combined(ac0, rt0));
    }
    info
}

/// How long a good hit stays fresh (a day).
pub const HIT_TTL_SECS: u64 = 86400;
/// A miss, or a hit missing its route, is retried after an hour.
pub const SOFT_TTL_SECS: u64 = 3600;
/// A network failure is remembered for 30 s.
pub const FAIL_TTL_SECS: u64 = 30;
/// The cache is emptied when it reaches this many entries.
pub const CACHE_CAP: usize = 4096;

/// The cache lifetime of a result: short after a network failure, a day
/// for a hit with its route, an hour otherwise.
pub open spec fn ttl_for(info: FlightInfoView) -> u64 {
    if info.reason == Some(seq!['o', 'f', 'f', 'l', 'i', 'n', 'e']) {
        FAIL_TTL_SECS
    } else if info.available && info.route is Some {
        HIT_TTL_SECS
    } else {
        SOFT_TTL_SECS
    }
}

pub fn ttl_secs(info: &FlightInfo) -> (t: u64)
    ensures
        t == ttl_for(info@),
{
    let offline: [char; 7] = ['o', 'f', 'f', 'l', 'i', 'n', 'e'];
    proof {
        assert(offline@ =~= seq!['o', 'f', 'f', 'l', 'i', 'n', 'e']);
    }
    let is_offline = match &info.reason {
        Some(r) => {
            let v = chars_of(r.as_str());
            crate::text::chars_eq(v.as_slice(), &offline)
        },
        None => false,
    };
    if is_offline {
        FAIL_TTL_SECS
    } else if info.available && info.route.is_some() {
        HIT_TTL_SECS
    } else {
        SOFT_TTL_SECS
    }
}

/// A cached result answers a lookup while it is younger than its lifetime
/// and was fetched with the same callsign (a new callsign may bring a new
/// route).
pub open spec fn serves(age_nanos: u128, ttl_secs: u64, cached: Option<Seq<char>>, callsign: Option<Seq<char>>) -> bool {
    age_nanos < ttl_secs * 1_000_000_000 && cached == callsign
}

pub fn cache_hit(age_nanos: u128, ttl_secs: u64, cached: &Option<String>, callsign: &Option<String>) -> (r: bool)
    ensures
        r == serves(age_nanos, ttl_secs, opt_chars(*cached), opt_chars(*callsign)),
{
    let limit: u128 = (ttl_secs as u128) * 1_000_000_000;
    if age_nanos >= limit {
        return false;
    }
    match (cached, callsign) {
        (Some(a), Some(b)) => *a == *b,
        (None, None) => true,
        _ => false,
    }
}

/// The callsign a lookup is keyed by: trimmed, ASCII upper-cased, absent
/// when blank.
pub open spec fn lookup_key(c: Option<Seq<char>>) -> Option<Seq<char>> {
    match c {
        Some(x) => {
            let t = trim_by(x, unicode_white_space()).map_values(|c: char| ascii_upper(c));
            if t.len() == 0 {
                None
            } else {
                Some(t)
            }
        },
        None => None,
    }
}

pub fn lookup_callsign(callsign: Option<&str>) -> (r: Option<String>)
    ensures
        opt_chars(r) == lookup_key(match callsign {
            Some(c) => Some(c@),
            None => None,
        }),
{
    match callsign {
        Some(c) => {
            let t = trim_white(c);
            let u = map_ascii_upper(&t);
            if u.len() == 0 {
                None
            } else {
                Some(string_from_chars(u.as_slice()))
            }
        },
        None => None,
    }
}

/// An ASCII hex digit (either case).
pub open spec fn is_hex_char(c: char) -> bool {
    ('0' <= c <= '9') || ('a' <= c <= 'f') || ('A' <= c <= 'F')
}

/// The ICAO address a request may ask about: trimmed and lower-cased, and
/// only when that leaves exactly six hex digits.
pub open spec fn requested_icao(raw: Seq<char>) -> Option<Seq<char>> {
    let t = trim_by(raw, unicode_white_space()).map_values(|c: char| ascii_lower(c));
    if t.len() == 6 && forall|i: int| 0 <= i < 6 ==> #[trigger] is_hex_char(t[i]) {
        Some(t)
    } else {
        None
    }
}

/// Normalises the ICAO address of a request; `None` keeps junk out of the
/// upstream URL (the request is answered `unknown`).
pub fn request_icao(raw: &str) -> (r: Option<String>)
    ensures
        opt_chars(r) == requested_icao(raw@),
{
    let t = trim_white(raw);
    let l = map_ascii_lower(&t);
    if l.len() != 6 {
        return None;
    }
    let mut i: usize = 0;
    while i < 6
        invariant
            i <= 6,
            l@.len() == 6,
            l@ == trim_by(raw@, unicode_white_space()).map_values(|c: char| ascii_lower(c)),
            forall|j: int| 0 <= j < i ==> #[trigger] is_hex_char(l@[j]),
        decreases 6 - i,
    {
        let c = l[i];
        if !(('0' <= c && c <= '9') || ('a' <= c && c <= 'f') || ('A' <= c && c <= 'F')) {
            proof {
                assert(!is_hex_char(l@[i as int]));
            }
            return None;
        }
        i = i + 1;
    }
    Some(string_from_chars(l.as_slice()))
}

/// An ASCII letter or digit.
pub open spec fn is_alnum_char(c: char) -> bool {
    ('0' <= c <= '9') || ('a' <= c <= 'z') || ('A' <= c <= 'Z')
}

/// The letters and digits of `s`, in order.
pub open spec fn alnum_only(s: Seq<char>) -> Seq<char>
    decreases s.len(),
{
    if s.len() == 0 {
        Seq::empty()
    } else if is_alnum_char(s.last()) {
        alnum_only(s.drop_last()).push(s.last())
    } else {
        alnum_only(s.drop_last())
    }
}

/// The callsign a request may pass on: trimmed, upper-cased, letters and
/// digits only, at most 8 of them.
pub open spec fn requested_callsign(raw: Seq<char>) -> Seq<char> {
    let a = alnum_only(trim_by(raw, unicode_white_space()).map_values(|c: char| ascii_upper(c)));
    if a.len() <= 8 {
        a
    } else {
        a.take(8)
    }
}

pub fn request_callsign(raw: &str) -> (r: String)
    ensures
        r@ == requested_callsign(raw@),
{
    let t = trim_white(raw);
    let u = map_ascii_upper(&t);
    let mut out: Vec<char> = Vec::new();
    let mut i: usize = 0;
    while i < u.len()
        invariant
            i <= u@.len(),
            out@ == alnum_only(u@.take(i as int)),
        decreases u.len() - i,
    {
        let c = u[i];
        if ('0' <= c && c <= '9') || ('a' <= c && c <= 'z') || ('A' <= c && c <= 'Z') {
            out.push(c);
        }
        proof {
            assert(u@.take(i + 1).drop_last() =~= u@.take(i as int));
        }
        i = i + 1;
    }
    proof {
        assert(u@.take(i as int) =~= u@);
    }
    if out.len() > 8 {
        out.truncate(8);
    }
    proof {
        assert(out@ =~= requested_callsign(raw@));
    }
    string_from_chars(out.as_slice())
}

/// Query of the flight lookup request: the decoded flight id, when the
/// client has one (it enables the route lookup).
#[derive(Clone, Debug)]
pub struct FlightQuery {
    pub callsign: Option<String>,
}

impl FlightQuery {
    /// The callsign passed on to the lookup: the query's one, cleaned as
    /// `request_callsign` does.
    pub fn requested(&self) -> (r: Option<String>)
        ensures
            opt_chars(r) == (match self.callsign {
                Some(c) => Some(requested_callsign(c@)),
                None => None,
            }),
    {
        match &self.callsign {
            Some(c) => Some(request_callsign(c.as_str())),
            None => None,
        }
    }
}

} // verus!
