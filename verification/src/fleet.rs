//! Fleet rules of the hypervisor: merging `fleet.toml` with the command line
//! into one resolved spec per radio, the per-radio port blocks, the checks
//! that no two radios share a device filter or a TCP port, and the restart
//! policy of the supervisor.

use vstd::prelude::*;
use crate::text::{append_str, push_decimal, spec_decimal, string_from_chars};

verus! {

/// The version and variant bits of a UUID, as a 128-bit value.
pub const UUID_KIND_MASK: u128 = 0xF000_C000_0000_0000_0000;

/// Version 4 (random) and the RFC 4122 variant, in the bits of `UUID_KIND_MASK`.
pub const UUID_V4_KIND: u128 = 0x4000_8000_0000_0000_0000;

/// A random (version 4, RFC 4122 variant) identity.
pub open spec fn is_v4_id(id: u128) -> bool {
    id & UUID_KIND_MASK == UUID_V4_KIND
}

/// `Uuid::new_v4`, as its 128-bit value (`Uuid::as_u128`): random bits with
/// the version nibble set to 4 and the variant bits to `10`, which is all
/// that is claimed of it.
#[verifier::external_body]
fn random_server_id() -> (id: u128)
    ensures
        is_v4_id(id),
{
    uuid::Uuid::new_v4().as_u128()
}

/// The most radios one fleet can run: the port bases are ten apart.
pub const MAX_RADIOS: usize = 8;

/// First port of each per-radio block; radio `i` gets `base + i`.
#[derive(Debug, Clone, Copy, PartialEq, Eq, Structural)]
pub struct PortBases {
    pub c2: u16,
    pub audio_out: u16,
    pub audio_in: u16,
    /// `0` disables the Beast feed on every child.
    pub beast: u16,
    /// `0` disables the AIVDM feed on every child.
    pub ais_nmea: u16,
    /// `0` disables the TNC2 APRS feed on every child.
    pub aprs: u16,
}

impl Default for PortBases {
    fn default() -> (r: Self)
        ensures
            r == (PortBases {
                c2: 8730,
                audio_out: 8740,
                audio_in: 8750,
                beast: 30005,
                ais_nmea: 10110,
                aprs: 10152,
            }),
    {
        PortBases { c2: 8730, audio_out: 8740, audio_in: 8750, beast: 30005, ais_nmea: 10110, aprs: 10152 }
    }
}

/// `[defaults]` of `fleet.toml`, as far as the merge reads it.
#[derive(Debug, Clone, Copy, PartialEq, Eq, Structural)]
pub struct Defaults {
    pub tls: Option<bool>,
    pub enable_tx: Option<bool>,
}

/// One `[[radio]]` block (or one `--radio` shorthand).
#[derive(Debug, Clone)]
pub struct RadioEntry {
    pub label: Option<String>,
    pub device: String,
    pub tls: Option<bool>,
    pub enable_tx: Option<bool>,
}

/// A parsed `fleet.toml`.
#[derive(Debug, Clone)]
pub struct FleetFile {
    pub defaults: Defaults,
    pub ports: PortBases,
    pub radios: Vec<RadioEntry>,
}

/// One radio's TCP/UDP ports.
#[derive(Debug, Clone, Copy, PartialEq, Eq, Structural)]
pub struct ChildPorts {
    pub c2: u16,
    pub audio_out: u16,
    pub audio_in: u16,
    pub beast: u16,
    pub ais_nmea: u16,
    pub aprs: u16,
}

/// A fully merged radio: ports assigned, identity pinned.
#[derive(Debug)]
pub struct RadioSpec {
    pub idx: usize,
    pub label: String,
    /// The filter as written in the config.
    pub device_filter: String,
    /// What the child is told to open.
    pub device_args: String,
    /// Human device name for the fleet view and beacon.
    pub device_label: String,
    pub device_serial: Option<String>,
    pub device_driver: Option<String>,
    /// The radio's identity, as the 128-bit value of its UUID.
    pub server_id: u128,
    pub ports: ChildPorts,
    pub tls: bool,
    pub enable_tx: bool,
}

/// Why a fleet cannot be started.
#[derive(Debug, Clone, PartialEq, Eq)]
pub enum FleetError {
    /// Neither `[[radio]]` blocks nor `--radio` were given.
    NoRadios,
    /// More radios than the port layout allows.
    TooManyRadios { count: usize },
    /// Two radios name the same device filter.
    SameDevice { first: usize, second: usize, filter: String },
}

/// A feed port: `0` stays disabled, any other base moves up by the index.
pub open spec fn step_port(base: u16, i: int) -> u16 {
    if base == 0 {
        0
    } else {
        (base + i) as u16
    }
}

/// The port block of radio `i`.
pub open spec fn child_ports(b: PortBases, i: int) -> ChildPorts {
    ChildPorts {
        c2: (b.c2 + i) as u16,
        audio_out: (b.audio_out + i) as u16,
        audio_in: (b.audio_in + i) as u16,
        beast: step_port(b.beast, i),
        ais_nmea: step_port(b.ais_nmea, i),
        aprs: step_port(b.aprs, i),
    }
}

/// A base leaves room for `n` consecutive ports.
pub open spec fn base_fits(base: u16, n: int) -> bool {
    base + n - 1 <= u16::MAX
}

/// Every block of an `n`-radio fleet stays within 16 bits (a disabled feed
/// needs no room). Fleets the merge refuses need nothing.
pub open spec fn ports_fit(b: PortBases, n: int) -> bool {
    n == 0 || n > MAX_RADIOS || (base_fits(b.c2, n) && base_fits(b.audio_out, n) && base_fits(
        b.audio_in,
        n,
    ) && (b.beast == 0 || base_fits(b.beast, n)) && (b.ais_nmea == 0 || base_fits(b.ais_nmea, n))
        && (b.aprs == 0 || base_fits(b.aprs, n)))
}

/// The first of `a`, `b` that is set, else `c`.
pub open spec fn first_set(a: Option<bool>, b: Option<bool>, c: bool) -> bool {
    match a {
        Some(x) => x,
        None => match b {
            Some(y) => y,
            None => c,
        },
    }
}

/// `radio-<i>`, the label of a radio that has none.
pub open spec fn default_label(i: nat) -> Seq<char> {
    seq!['r', 'a', 'd', 'i', 'o', '-'] + spec_decimal(i)
}

/// The label a radio entry gets at index `i`.
pub open spec fn entry_label(e: RadioEntry, i: nat) -> Seq<char> {
    match e.label {
        Some(l) => l@,
        None => default_label(i),
    }
}

/// The merged spec of entry `e` at index `i`.
pub open spec fn merged(s: RadioSpec, e: RadioEntry, i: int, file: FleetFile, tls: bool, enable_tx: bool) -> bool {
    &&& s.idx == i
    &&& s.label@ == entry_label(e, i as nat)
    &&& s.device_filter@ == e.device@
    &&& s.device_args@ == e.device@
    &&& s.device_label@ == e.device@
    &&& s.device_serial is None
    &&& s.device_driver is None
    &&& is_v4_id(s.server_id)
    &&& s.ports == child_ports(file.ports, i)
    &&& s.tls == first_set(e.tls, file.defaults.tls, tls)
    &&& s.enable_tx == first_set(e.enable_tx, file.defaults.enable_tx, enable_tx)
}

/// Radio `i` of the fleet: the config's blocks first, then the shorthands.
pub open spec fn entry_at(file: FleetFile, radio: Seq<String>, i: int) -> RadioEntry {
    if i < file.radios@.len() {
        file.radios@[i]
    } else {
        RadioEntry { label: None, device: radio[i - file.radios@.len()], tls: None, enable_tx: None }
    }
}

/// Builds `radio-<i>`.
fn make_default_label(i: usize) -> (s: String)
    ensures
        s@ == default_label(i as nat),
{
    let mut v: Vec<char> = Vec::new();
    append_str(&mut v, "radio-");
    push_decimal(&mut v, i as u64);
    proof {
        reveal_strlit("radio-");
        assert(v@ =~= default_label(i as nat));
    }
    string_from_chars(v.as_slice())
}

fn pick(a: Option<bool>, b: Option<bool>, c: bool) -> (r: bool)
    ensures
        r == first_set(a, b, c),
{
    match a {
        Some(x) => x,
        None => match b {
            Some(y) => y,
            None => c,
        },
    }
}

/// The spec of one entry at index `i`.
fn merge_one(e: &RadioEntry, i: usize, file: &FleetFile, tls: bool, enable_tx: bool) -> (s: RadioSpec)
    requires
        i < MAX_RADIOS,
        ports_fit(file.ports, i + 1),
    ensures
        merged(s, *e, i as int, *file, tls, enable_tx),
{
    let label = match &e.label {
        Some(l) => l.clone(),
        None => make_default_label(i),
    };
    let b = file.ports;
    let k = i as u16;
    let ports = ChildPorts {
        c2: b.c2 + k,
        audio_out: b.audio_out + k,
        audio_in: b.audio_in + k,
        beast: if b.beast == 0 { 0 } else { b.beast + k },
        ais_nmea: if b.ais_nmea == 0 { 0 } else { b.ais_nmea + k },
        aprs: if b.aprs == 0 { 0 } else { b.aprs + k },
    };
    RadioSpec {
        idx: i,
        label,
        device_filter: e.device.clone(),
        device_args: e.device.clone(),
        device_label: e.device.clone(),
        device_serial: None,
        device_driver: None,
        server_id: random_server_id(),
        ports,
        tls: pick(e.tls, file.defaults.tls, tls),
        enable_tx: pick(e.enable_tx, file.defaults.enable_tx, enable_tx),
    }
}

/// Merged radios get their ports and switches right: radio `i` listens on
/// every base plus `i` (an enabled feed) or keeps a disabled feed at 0, so
/// radio `i + 1`'s ports are each one above radio `i`'s; and a radio's own
/// `tls` / `enable_tx` wins over `[defaults]`, which wins over the flag.
pub proof fn lemma_merged_ports_and_switches(
    s: RadioSpec,
    e: RadioEntry,
    i: int,
    file: FleetFile,
    tls: bool,
    enable_tx: bool,
    n: int,
)
    requires
        merged(s, e, i, file, tls, enable_tx),
        0 <= i < n,
        1 <= n <= MAX_RADIOS,
        ports_fit(file.ports, n),
    ensures
        s.ports.c2 == file.ports.c2 + i,
        s.ports.audio_out == file.ports.audio_out + i,
        s.ports.audio_in == file.ports.audio_in + i,
        file.ports.beast == 0 ==> s.ports.beast == 0,
        file.ports.beast != 0 ==> s.ports.beast == file.ports.beast + i,
        file.ports.ais_nmea == 0 ==> s.ports.ais_nmea == 0,
        file.ports.ais_nmea != 0 ==> s.ports.ais_nmea == file.ports.ais_nmea + i,
        file.ports.aprs == 0 ==> s.ports.aprs == 0,
        file.ports.aprs != 0 ==> s.ports.aprs == file.ports.aprs + i,
        e.tls matches Some(x) ==> s.tls == x,
        e.tls is None ==> (file.defaults.tls matches Some(y) ==> s.tls == y),
        e.tls is None && file.defaults.tls is None ==> s.tls == tls,
        e.enable_tx matches Some(x) ==> s.enable_tx == x,
        e.enable_tx is None ==> (file.defaults.enable_tx matches Some(y) ==> s.enable_tx == y),
        e.enable_tx is None && file.defaults.enable_tx is None ==> s.enable_tx == enable_tx,
{
}

/// Whether the fits of `n` radios carry over to fewer.
proof fn lemma_ports_fit_prefix(b: PortBases, n: int, m: int)
    requires
        1 <= m <= n <= MAX_RADIOS,
        ports_fit(b, n),
    ensures
        ports_fit(b, m),
{
}

/// Merges the parsed `fleet.toml` with the `--radio` shorthands (appended
/// after the config's radios) and the command line's `--tls` and
/// `--enable-tx`: one spec per radio, radio `i` on port block `base + i`.
/// Per radio, its own `tls` / `enable_tx` win over `[defaults]`, which win
/// over the flags. Refused with no radio, or with more than eight.
pub fn load(file: &FleetFile, radio: &[String], tls: bool, enable_tx: bool) -> (r: Result<Vec<RadioSpec>, FleetError>)
    requires
        file.radios@.len() + radio@.len() <= usize::MAX,
        ports_fit(file.ports, (file.radios@.len() + radio@.len()) as int),
    ensures
        ({
            let n = file.radios@.len() + radio@.len();
            match r {
                Ok(specs) => 1 <= n <= MAX_RADIOS && specs@.len() == n && forall|i: int|
                    0 <= i < n ==> merged(
                        #[trigger] specs@[i],
                        entry_at(*file, radio@, i),
                        i,
                        *file,
                        tls,
                        enable_tx,
                    ),
                Err(e) => (n == 0 && e == FleetError::NoRadios) || (n > MAX_RADIOS && e
                    == FleetError::TooManyRadios { count: n as usize }),
            }
        }),
{
    let n = file.radios.len() + radio.len();
    if n == 0 {
        return Err(FleetError::NoRadios);
    }
    if n > MAX_RADIOS {
        return Err(FleetError::TooManyRadios { count: n });
    }
    let mut specs: Vec<RadioSpec> = Vec::new();
    let mut i: usize = 0;
    while i < n
        invariant
            n == file.radios@.len() + radio@.len(),
            1 <= n <= MAX_RADIOS,
            ports_fit(file.ports, n as int),
            i <= n,
            specs@.len() == i,
            forall|j: int|
                0 <= j < i ==> merged(
                    #[trigger] specs@[j],
                    entry_at(*file, radio@, j),
                    j,
                    *file,
                    tls,
                    enable_tx,
                ),
        decreases n - i,
    {
        proof {
            lemma_ports_fit_prefix(file.ports, n as int, i + 1);
        }
        let s = if i < file.radios.len() {
            merge_one(&file.radios[i], i, file, tls, enable_tx)
        } else {
            let e = RadioEntry { label: None, device: radio[i - file.radios.len()].clone(), tls: None, enable_tx: None };
            let s = merge_one(&e, i, file, tls, enable_tx);
            proof {
                assert(e.device@ == entry_at(*file, radio@, i as int).device@);
            }
            s
        };
        specs.push(s);
        i = i + 1;
    }
    Ok(specs)
}

/// Whether the port blocks of an `n`-radio fleet stay within 16 bits
/// (the condition `load` needs of its input).
pub fn ports_fit_for(b: &PortBases, n: usize) -> (r: bool)
    ensures
        r == ports_fit(*b, n as int),
{
    if n == 0 || n > MAX_RADIOS {
        return true;
    }
    let room = |base: u16| -> (ok: bool)
        ensures
            ok == base_fits(base, n as int),
        { (base as usize) + n - 1 <= 0xffff };
    room(b.c2) && room(b.audio_out) && room(b.audio_in) && (b.beast == 0 || room(b.beast)) && (
    b.ais_nmea == 0 || room(b.ais_nmea)) && (b.aprs == 0 || room(b.aprs))
}

/// Radio `k` is the first whose filter repeats an earlier one, radio `j`.
pub open spec fn first_same_filter(specs: Seq<RadioSpec>, j: int, k: int) -> bool {
    &&& 0 <= j < k < specs.len()
    &&& specs[j].device_filter@ == specs[k].device_filter@
    &&& forall|a: int, b: int|
        0 <= a < b < k ==> #[trigger] specs[a].device_filter@ != #[trigger] specs[b].device_filter@
}

/// No two radios name the same filter.
pub open spec fn filters_distinct(specs: Seq<RadioSpec>) -> bool {
    forall|a: int, b: int|
        0 <= a < b < specs.len() ==> #[trigger] specs[a].device_filter@
            != #[trigger] specs[b].device_filter@
}

/// Without device enumeration the filters are passed through as written,
/// so they must differ: the first radio that repeats an earlier radio's
/// filter is refused, naming both.
pub fn resolve(specs: &[RadioSpec]) -> (r: Result<(), FleetError>)
    ensures
        r is Ok <==> filters_distinct(specs@),
        r matches Err(e) ==> exists|j: int, k: int|
            first_same_filter(specs@, j, k) && e == (FleetError::SameDevice {
                first: specs@[j].idx,
                second: specs@[k].idx,
                filter: specs@[k].device_filter,
            }),
{
    let mut k: usize = 0;
    while k < specs.len()
        invariant
            k <= specs@.len(),
            forall|a: int, b: int|
                0 <= a < b < k ==> #[trigger] specs@[a].device_filter@
                    != #[trigger] specs@[b].device_filter@,
        decreases specs.len() - k,
    {
        let mut j: usize = 0;
        while j < k
            invariant
                j <= k < specs@.len(),
                forall|a: int| 0 <= a < j ==> specs@[a].device_filter@ != specs@[k as int].device_filter@,
                forall|a: int, b: int|
                    0 <= a < b < k ==> #[trigger] specs@[a].device_filter@
                        != #[trigger] specs@[b].device_filter@,
            decreases k - j,
        {
            if specs[j].device_filter == specs[k].device_filter {
                let e = FleetError::SameDevice {
                    first: specs[j].idx,
                    second: specs[k].idx,
                    filter: specs[k].device_filter.clone(),
                };
                proof {
                    assert(first_same_filter(specs@, j as int, k as int));
                }
                return Err(e);
            }
            j = j + 1;
        }
        k = k + 1;
    }
    Ok(())
}

/// The TCP listeners a child binds, in the order they are checked.
#[derive(Debug, Clone, Copy, PartialEq, Eq, Structural)]
pub enum PortRole {
    C2,
    Beast,
    AisNmea,
    Aprs,
}

impl PortRole {
    /// The role as the error messages name it.
    pub fn name(&self) -> (s: &'static str)
        ensures
            s@ == role_name(*self),
    {
        proof {
            reveal_strlit("c2");
            reveal_strlit("beast");
            reveal_strlit("ais_nmea");
            reveal_strlit("aprs");
        }
        match self {
            PortRole::C2 => "c2",
            PortRole::Beast => "beast",
            PortRole::AisNmea => "ais_nmea",
            PortRole::Aprs => "aprs",
        }
    }
}

pub open spec fn role_name(r: PortRole) -> Seq<char> {
    match r {
        PortRole::C2 => seq!['c', '2'],
        PortRole::Beast => seq!['b', 'e', 'a', 's', 't'],
        PortRole::AisNmea => seq!['a', 'i', 's', '_', 'n', 'm', 'e', 'a'],
        PortRole::Aprs => seq!['a', 'p', 'r', 's'],
    }
}

/// One TCP port a radio will bind.
#[derive(Debug, Clone, Copy, PartialEq, Eq, Structural)]
pub struct PortUse {
    pub idx: usize,
    pub role: PortRole,
    pub port: u16,
}

/// Two uses of one port; `earlier` was seen first.
#[derive(Debug, Clone, Copy, PartialEq, Eq, Structural)]
pub struct PortClash {
    pub earlier: PortUse,
    pub later: PortUse,
}

/// What the pre-flight finds: the ports to bind-check, in order, and the
/// first port assigned twice. With a clash, `checks` holds the uses before
/// it (those are bind-checked first, as the check goes port by port).
pub struct Preflight {
    pub checks: Vec<PortUse>,
    pub clash: Option<PortClash>,
}

/// A use, unless its port is `0` (a disabled feed).
pub open spec fn use_if_set(idx: usize, role: PortRole, port: u16) -> Seq<PortUse> {
    if port == 0 {
        Seq::empty()
    } else {
        seq![PortUse { idx, role, port }]
    }
}

/// The TCP ports of one radio: `c2`, `beast`, `ais_nmea`, `aprs`, each
/// unless disabled. (`audio_out` / `audio_in` are UDP and not checked.)
pub open spec fn radio_uses(s: RadioSpec) -> Seq<PortUse> {
    use_if_set(s.idx, PortRole::C2, s.ports.c2) + use_if_set(s.idx, PortRole::Beast, s.ports.beast)
        + use_if_set(s.idx, PortRole::AisNmea, s.ports.ais_nmea) + use_if_set(
        s.idx,
        PortRole::Aprs,
        s.ports.aprs,
    )
}

/// The TCP ports of the whole fleet, radio by radio.
pub open spec fn fleet_uses(specs: Seq<RadioSpec>) -> Seq<PortUse>
    decreases specs.len(),
{
    if specs.len() == 0 {
        Seq::empty()
    } else {
        fleet_uses(specs.drop_last()) + radio_uses(specs.last())
    }
}

/// Use `k` is the first whose port was already used, by use `j`.
pub open spec fn first_port_repeat(u: Seq<PortUse>, j: int, k: int) -> bool {
    &&& 0 <= j < k < u.len()
    &&& u[j].port == u[k].port
    &&& forall|a: int, b: int| 0 <= a < b < k ==> #[trigger] u[a].port != #[trigger] u[b].port
}

fn push_use(out: &mut Vec<PortUse>, idx: usize, role: PortRole, port: u16)
    ensures
        final(out)@ == old(out)@ + use_if_set(idx, role, port),
{
    if port != 0 {
        out.push(PortUse { idx, role, port });
    }
    proof {
        if port == 0 {
            assert(final(out)@ =~= old(out)@ + use_if_set(idx, role, port));
        } else {
            assert(final(out)@ =~= old(out)@ + use_if_set(idx, role, port));
        }
    }
}

/// Every TCP port each child will bind, in order, checked to be unique
/// across the fleet; the bind checks themselves are made by the caller on
/// `checks`, and a clash is reported after them.
pub fn preflight(specs: &[RadioSpec]) -> (r: Preflight)
    ensures
        ({
            let u = fleet_uses(specs@);
            match r.clash {
                Some(c) => exists|j: int, k: int|
                    first_port_repeat(u, j, k) && c == (PortClash { earlier: u[j], later: u[k] })
                        && r.checks@ == u.take(k),
                None => r.checks@ == u && forall|a: int, b: int|
                    0 <= a < b < u.len() ==> #[trigger] u[a].port != #[trigger] u[b].port,
            }
        }),
{
    let mut uses: Vec<PortUse> = Vec::new();
    let mut i: usize = 0;
    while i < specs.len()
        invariant
            i <= specs@.len(),
            uses@ == fleet_uses(specs@.take(i as int)),
        decreases specs.len() - i,
    {
        let s = &specs[i];
        push_use(&mut uses, s.idx, PortRole::C2, s.ports.c2);
        push_use(&mut uses, s.idx, PortRole::Beast, s.ports.beast);
        push_use(&mut uses, s.idx, PortRole::AisNmea, s.ports.ais_nmea);
        push_use(&mut uses, s.idx, PortRole::Aprs, s.ports.aprs);
        proof {
            let t = specs@.take(i + 1);
            assert(t.drop_last() =~= specs@.take(i as int));
            assert(uses@ =~= fleet_uses(t));
        }
        i = i + 1;
    }
    proof {
        assert(specs@.take(i as int) =~= specs@);
    }
    let ghost u = uses@;
    let mut checks: Vec<PortUse> = Vec::new();
    let mut k: usize = 0;
    while k < uses.len()
        invariant
            u == uses@,
            u == fleet_uses(specs@),
            k <= u.len(),
            checks@ == u.take(k as int),
            forall|a: int, b: int| 0 <= a < b < k ==> #[trigger] u[a].port != #[trigger] u[b].port,
        decreases uses.len() - k,
    {
        let mut j: usize = 0;
        while j < k
            invariant
                u == uses@,
                j <= k < u.len(),
                u == fleet_uses(specs@),
                checks@ == u.take(k as int),
                forall|a: int| 0 <= a < j ==> u[a].port != u[k as int].port,
                forall|a: int, b: int| 0 <= a < b < k ==> #[trigger] u[a].port != #[trigger] u[b].port,
            decreases k - j,
        {
            if uses[j].port == uses[k].port {
                proof {
                    assert(first_port_repeat(u, j as int, k as int));
                }
                return Preflight { checks, clash: Some(PortClash { earlier: uses[j], later: uses[k] }) };
            }
            j = j + 1;
        }
        checks.push(uses[k]);
        proof {
            assert(checks@ =~= u.take(k + 1));
        }
        k = k + 1;
    }
    proof {
        assert(u.take(k as int) =~= u);
    }
    Preflight { checks, clash: None }
}

/// The port radio `s` has for a TCP role.
pub open spec fn port_of(s: RadioSpec, r: PortRole) -> u16 {
    match r {
        PortRole::C2 => s.ports.c2,
        PortRole::Beast => s.ports.beast,
        PortRole::AisNmea => s.ports.ais_nmea,
        PortRole::Aprs => s.ports.aprs,
    }
}

/// The TCP roles in check order: `c2`, `beast`, `ais_nmea`, `aprs`.
pub open spec fn role_at(k: int) -> PortRole {
    if k == 0 {
        PortRole::C2
    } else if k == 1 {
        PortRole::Beast
    } else if k == 2 {
        PortRole::AisNmea
    } else {
        PortRole::Aprs
    }
}

/// Every TCP listener of the fleet, enabled or not: four per radio, radio
/// by radio, in role order.
pub open spec fn all_listeners(specs: Seq<RadioSpec>) -> Seq<PortUse> {
    Seq::new(
        4 * specs.len(),
        |k: int| PortUse { idx: specs[k / 4].idx, role: role_at(k % 4), port: port_of(specs[k / 4], role_at(k % 4)) },
    )
}

/// A listener that is not disabled.
pub open spec fn enabled() -> spec_fn(PortUse) -> bool {
    |u: PortUse| u.port != 0
}

proof fn lemma_filter_one(u: PortUse)
    ensures
        seq![u].filter(enabled()) == use_if_set(u.idx, u.role, u.port),
{
    reveal_with_fuel(Seq::filter, 2);
    assert(seq![u].drop_last() =~= Seq::<PortUse>::empty());
    if u.port == 0 {
        assert(seq![u].filter(enabled()) =~= Seq::<PortUse>::empty());
    } else {
        assert(seq![u].filter(enabled()) =~= seq![u]);
    }
}

/// The four listeners of radio `s`, in role order.
pub open spec fn radio_listeners(s: RadioSpec) -> Seq<PortUse> {
    seq![
        PortUse { idx: s.idx, role: PortRole::C2, port: s.ports.c2 },
        PortUse { idx: s.idx, role: PortRole::Beast, port: s.ports.beast },
        PortUse { idx: s.idx, role: PortRole::AisNmea, port: s.ports.ais_nmea },
        PortUse { idx: s.idx, role: PortRole::Aprs, port: s.ports.aprs },
    ]
}

proof fn lemma_listeners_split(specs: Seq<RadioSpec>)
    requires
        specs.len() > 0,
    ensures
        all_listeners(specs) == all_listeners(specs.drop_last()) + radio_listeners(specs.last()),
{
    let pre = specs.drop_last();
    let s = specs.last();
    let n = pre.len() as int;
    let l = all_listeners(specs);
    let r = all_listeners(pre) + radio_listeners(s);
    assert forall|k: int| 0 <= k < 4 * n + 4 implies #[trigger] l[k] == r[k] by {
        if k < 4 * n {
            assert(specs[k / 4] == pre[k / 4]);
        } else {
            assert(k / 4 == n);
            assert(specs[k / 4] == s);
        }
    }
    assert(l =~= r);
}

#[verifier::rlimit(30)]
proof fn lemma_filter_radio(s: RadioSpec)
    ensures
        radio_listeners(s).filter(enabled()) == radio_uses(s),
{
    let u0 = PortUse { idx: s.idx, role: PortRole::C2, port: s.ports.c2 };
    let u1 = PortUse { idx: s.idx, role: PortRole::Beast, port: s.ports.beast };
    let u2 = PortUse { idx: s.idx, role: PortRole::AisNmea, port: s.ports.ais_nmea };
    let u3 = PortUse { idx: s.idx, role: PortRole::Aprs, port: s.ports.aprs };
    assert(radio_listeners(s) =~= seq![u0] + seq![u1] + seq![u2] + seq![u3]);
    Seq::filter_distributes_over_add(seq![u0] + seq![u1] + seq![u2], seq![u3], enabled());
    Seq::filter_distributes_over_add(seq![u0] + seq![u1], seq![u2], enabled());
    Seq::filter_distributes_over_add(seq![u0], seq![u1], enabled());
    lemma_filter_one(u0);
    lemma_filter_one(u1);
    lemma_filter_one(u2);
    lemma_filter_one(u3);
}

/// The ports the pre-flight goes through are exactly the fleet's enabled
/// TCP listeners, in order: every radio's `c2`, `beast`, `ais_nmea` and
/// `aprs` port, radio by radio and in that role order, leaving out only the
/// disabled (zero) ones.
pub proof fn lemma_preflight_covers_every_listener(specs: Seq<RadioSpec>)
    ensures
        fleet_uses(specs) == all_listeners(specs).filter(enabled()),
    decreases specs.len(),
{
    if specs.len() == 0 {
        reveal(Seq::filter);
        assert(all_listeners(specs) =~= Seq::<PortUse>::empty());
    } else {
        let pre = specs.drop_last();
        let s = specs.last();
        lemma_preflight_covers_every_listener(pre);
        lemma_listeners_split(specs);
        Seq::filter_distributes_over_add(all_listeners(pre), radio_listeners(s), enabled());
        lemma_filter_radio(s);
    }
}

proof fn lemma_filter_position(l: Seq<PortUse>, p: int)
    requires
        0 <= p < l.len(),
        l[p].port != 0,
    ensures
        l.take(p + 1).filter(enabled()) == l.take(p).filter(enabled()).push(l[p]),
        l.take(p).filter(enabled()).len() < l.filter(enabled()).len(),
        l.filter(enabled())[l.take(p).filter(enabled()).len() as int] == l[p],
{
    let t = l.take(p + 1);
    reveal(Seq::filter);
    assert(t.drop_last() =~= l.take(p));
    assert(t.last() == l[p]);
    assert(l =~= t + l.skip(p + 1));
    Seq::filter_distributes_over_add(t, l.skip(p + 1), enabled());
}

proof fn lemma_filter_prefix_grows(l: Seq<PortUse>, p: int, q: int)
    requires
        0 <= p < q <= l.len(),
        l[p].port != 0,
    ensures
        l.take(p).filter(enabled()).len() < l.take(q).filter(enabled()).len(),
{
    lemma_filter_position(l, p);
    let t = l.take(p + 1);
    let rest = l.subrange(p + 1, q);
    assert(l.take(q) =~= t + rest);
    Seq::filter_distributes_over_add(t, rest, enabled());
}

/// Two enabled TCP listeners on one port, whether of two radios or of two
/// roles of one radio, make the list the pre-flight goes through repeat a
/// port, so the pre-flight reports a clash rather than passing. (Listener
/// `4 * i + r` is role `r` of radio `i`; the first named comes first.)
pub proof fn lemma_shared_port_is_a_clash(specs: Seq<RadioSpec>, i: int, ri: int, j: int, rj: int)
    requires
        0 <= i < specs.len(),
        0 <= j < specs.len(),
        0 <= ri < 4,
        0 <= rj < 4,
        4 * i + ri < 4 * j + rj,
        port_of(specs[i], role_at(ri)) != 0,
        port_of(specs[i], role_at(ri)) == port_of(specs[j], role_at(rj)),
    ensures
        exists|a: int, b: int|
            0 <= a < b < fleet_uses(specs).len() && #[trigger] fleet_uses(specs)[a].port
                == #[trigger] fleet_uses(specs)[b].port,
{
    let l = all_listeners(specs);
    let p = 4 * i + ri;
    let q = 4 * j + rj;
    assert(p / 4 == i && p % 4 == ri);
    assert(q / 4 == j && q % 4 == rj);
    assert(l[p].port == port_of(specs[i], role_at(ri)));
    assert(l[q].port == port_of(specs[j], role_at(rj)));
    lemma_preflight_covers_every_listener(specs);
    lemma_filter_position(l, p);
    lemma_filter_position(l, q);
    lemma_filter_prefix_grows(l, p, q);
    let f = l.filter(enabled());
    let a = l.take(p).filter(enabled()).len() as int;
    let b = l.take(q).filter(enabled()).len() as int;
    assert(f[a].port == f[b].port);
}

/// How one run of a child ended.
#[derive(Debug, Clone, Copy, PartialEq, Eq, Structural)]
pub enum RunOutcome {
    /// The process exited after running this long.
    Exited { up_nanos: u128 },
    /// The process could not be started.
    SpawnFailed,
    /// Shutdown was requested while it ran; it has been stopped.
    ShutdownRequested,
}

/// The supervisor's memory of one child: the backoff step and the restart
/// count shown in the fleet view.
#[derive(Debug, Clone, Copy, PartialEq, Eq, Structural)]
pub struct Backoff {
    pub attempt: u32,
    pub restarts: u32,
}

/// What the supervisor does next.
#[derive(Debug, Clone, Copy, PartialEq, Eq, Structural)]
pub enum NextStep {
    /// Shutting down: leave the loop.
    Stop,
    /// `--no-restart`: leave the child down.
    StayDown,
    /// Past `--max-restarts`: give up on the child.
    GiveUp,
    /// Wait this long, then start the child again.
    Restart { delay_secs: u64 },
    /// Spawning failed: wait this long and try again.
    RetrySpawn { delay_secs: u64 },
}

/// A run that lasted more than a minute counts as healthy.
pub const HEALTHY_NANOS: u128 = 60_000_000_000;

/// The restart delay for a backoff step: 1, 2, 4, 8, 16, then 32 seconds.
pub open spec fn backoff_delay(attempt: u32) -> u64 {
    if attempt == 0 {
        1
    } else if attempt == 1 {
        2
    } else if attempt == 2 {
        4
    } else if attempt == 3 {
        8
    } else if attempt == 4 {
        16
    } else {
        32
    }
}

/// The supervisor's rule after a run.
pub open spec fn next_after_run(b: Backoff, outcome: RunOutcome, shutdown: bool, no_restart: bool, max_restarts: u32) -> (Backoff, NextStep) {
    match outcome {
        RunOutcome::ShutdownRequested => (b, NextStep::Stop),
        RunOutcome::SpawnFailed => (b, NextStep::RetrySpawn { delay_secs: 5 }),
        RunOutcome::Exited { up_nanos } => {
            if shutdown {
                (b, NextStep::Stop)
            } else if no_restart {
                (b, NextStep::StayDown)
            } else {
                let attempt: u32 = if up_nanos > HEALTHY_NANOS { 0 } else { b.attempt };
                let restarts: u32 = if b.restarts == u32::MAX { 0 } else { (b.restarts + 1) as u32 };
                if max_restarts != 0 && restarts > max_restarts {
                    (Backoff { attempt, restarts }, NextStep::GiveUp)
                } else {
                    (
                        Backoff { attempt: (attempt + 1) as u32, restarts },
                        NextStep::Restart { delay_secs: backoff_delay(attempt) },
                    )
                }
            }
        },
    }
}

/// The restart backoff of a crashed child: the delay is `2^min(attempt, 5)`
/// seconds, where the attempt counts the short runs since the last healthy
/// one (a run of more than a minute starts it again at 0); so each further
/// short run doubles the delay, up to 32 s, and the count goes up by one.
pub proof fn lemma_backoff_doubles(b: Backoff, up_nanos: u128, max_restarts: u32)
    requires
        b.attempt < u32::MAX,
        max_restarts == 0,
    ensures
        ({
            let a: u32 = if up_nanos > HEALTHY_NANOS { 0 } else { b.attempt };
            let (b2, step) = next_after_run(b, RunOutcome::Exited { up_nanos }, false, false, max_restarts);
            &&& step == (NextStep::Restart {
                delay_secs: vstd::arithmetic::power2::pow2(if a < 5 { a as nat } else { 5 }) as u64,
            })
            &&& b2.attempt == a + 1
        }),
        ({
            let (b2, s1) = next_after_run(b, RunOutcome::Exited { up_nanos: 0 }, false, false, max_restarts);
            let (b3, s2) = next_after_run(b2, RunOutcome::Exited { up_nanos: 0 }, false, false, max_restarts);
            b.attempt + 1 < u32::MAX ==> (s1 matches NextStep::Restart { delay_secs: d1 } && s2 matches NextStep::Restart {
                delay_secs: d2,
            } && d2 == (if 2 * d1 > 32 { 32 } else { 2 * d1 }))
        }),
{
    vstd::arithmetic::power2::lemma2_to64();
}

/// Decides what follows one run of a child: stop on shutdown, stay down
/// with `--no-restart`, count the restart, give up past `max_restarts`
/// (`0` never gives up), else restart after an exponential backoff that a
/// healthy run resets; a failed spawn is retried after 5 s.
pub fn after_run(b: Backoff, outcome: RunOutcome, shutdown: bool, no_restart: bool, max_restarts: u32) -> (r: (Backoff, NextStep))
    requires
        b.attempt < u32::MAX,
    ensures
        r == next_after_run(b, outcome, shutdown, no_restart, max_restarts),
{
    match outcome {
        RunOutcome::ShutdownRequested => (b, NextStep::Stop),
        RunOutcome::SpawnFailed => (b, NextStep::RetrySpawn { delay_secs: 5 }),
        RunOutcome::Exited { up_nanos } => {
            if shutdown {
                return (b, NextStep::Stop);
            }
            if no_restart {
                return (b, NextStep::StayDown);
            }
            let mut attempt = b.attempt;
            if up_nanos > HEALTHY_NANOS {
                attempt = 0;
            }
            let restarts = b.restarts.wrapping_add(1);
            if max_restarts != 0 && restarts > max_restarts {
                return (Backoff { attempt, restarts }, NextStep::GiveUp);
            }
            let m: u32 = if attempt < 5 { attempt } else { 5 };
            let delay: u64 = 1u64 << m;
            assert(delay == backoff_delay(attempt)) by (bit_vector)
                requires
                    m == (if attempt < 5 { attempt } else { 5u32 }),
                    delay == 1u64 << m,
            ;
            (Backoff { attempt: attempt + 1, restarts }, NextStep::Restart { delay_secs: delay })
        },
    }
}

/// An uptime as the fleet page shows it: seconds under 90 s, minutes under
/// 90 min, else hours and minutes.
pub open spec fn uptime_text(secs: u64) -> Seq<char> {
    if secs < 90 {
        spec_decimal(secs as nat).push('s')
    } else if secs < 5400 {
        spec_decimal((secs / 60) as nat).push('m')
    } else {
        spec_decimal((secs / 3600) as nat).push('h') + spec_decimal(((secs % 3600) / 60) as nat).push(
            'm',
        )
    }
}

pub fn fmt_uptime(secs: u64) -> (s: String)
    ensures
        s@ == uptime_text(secs),
{
    let mut v: Vec<char> = Vec::new();
    if secs < 90 {
        push_decimal(&mut v, secs);
        v.push('s');
    } else if secs < 5400 {
        push_decimal(&mut v, secs / 60);
        v.push('m');
    } else {
        push_decimal(&mut v, secs / 3600);
        v.push('h');
        push_decimal(&mut v, (secs % 3600) / 60);
        v.push('m');
    }
    proof {
        assert(v@ =~= uptime_text(secs));
    }
    string_from_chars(v.as_slice())
}

/// One character made safe for HTML text and attribute values.
pub open spec fn html_escape_char(c: char) -> Seq<char> {
    if c == '&' {
        seq!['&', 'a', 'm', 'p', ';']
    } else if c == '<' {
        seq!['&', 'l', 't', ';']
    } else if c == '>' {
        seq!['&', 'g', 't', ';']
    } else if c == '"' {
        seq!['&', 'q', 'u', 'o', 't', ';']
    } else {
        seq![c]
    }
}

/// `s` with `&`, `<`, `>` and `"` replaced by their entities.
pub open spec fn html_escape(s: Seq<char>) -> Seq<char>
    decreases s.len(),
{
    if s.len() == 0 {
        Seq::empty()
    } else {
        html_escape(s.drop_last()) + html_escape_char(s.last())
    }
}

pub fn esc(s: &str) -> (r: String)
    ensures
        r@ == html_escape(s@),
{
    let cs = crate::text::chars_of(s);
    let mut v: Vec<char> = Vec::new();
    let mut i: usize = 0;
    while i < cs.len()
        invariant
            cs@ == s@,
            i <= cs@.len(),
            v@ == html_escape(cs@.take(i as int)),
        decreases cs.len() - i,
    {
        let c = cs[i];
        if c == '&' {
            v.push('&');
            v.push('a');
            v.push('m');
            v.push('p');
            v.push(';');
        } else if c == '<' {
            v.push('&');
            v.push('l');
            v.push('t');
            v.push(';');
        } else if c == '>' {
            v.push('&');
            v.push('g');
            v.push('t');
            v.push(';');
        } else if c == '"' {
            v.push('&');
            v.push('q');
            v.push('u');
            v.push('o');
            v.push('t');
            v.push(';');
        } else {
            v.push(c);
        }
        proof {
            let t = cs@.take(i + 1);
            assert(t.drop_last() =~= cs@.take(i as int));
            assert(v@ =~= html_escape(t));
        }
        i = i + 1;
    }
    proof {
        assert(cs@.take(i as int) =~= cs@);
    }
    string_from_chars(v.as_slice())
}

/// `https` with TLS, else `http`.
pub open spec fn scheme_text(tls: bool) -> Seq<char> {
    if tls {
        seq!['h', 't', 't', 'p', 's']
    } else {
        seq!['h', 't', 't', 'p']
    }
}

/// `<scheme>://<host>:<port>`.
pub open spec fn base_url_text(tls: bool, host: Seq<char>, port: u16) -> Seq<char> {
    scheme_text(tls) + seq![':', '/', '/'] + host + seq![':'] + spec_decimal(port as nat)
}

/// The URL a child (or the fleet endpoint, without TLS) is reached at.
pub fn base_url(tls: bool, host: &str, port: u16) -> (s: String)
    ensures
        s@ == base_url_text(tls, host@, port),
{
    let mut v: Vec<char> = Vec::new();
    v.push('h');
    v.push('t');
    v.push('t');
    v.push('p');
    if tls {
        v.push('s');
    }
    v.push(':');
    v.push('/');
    v.push('/');
    append_str(&mut v, host);
    v.push(':');
    push_decimal(&mut v, port as u64);
    proof {
        assert(v@ =~= base_url_text(tls, host@, port));
    }
    string_from_chars(v.as_slice())
}

/// The position of a role among a radio's checked ports.
pub open spec fn role_rank(r: PortRole) -> int {
    match r {
        PortRole::C2 => 0,
        PortRole::Beast => 1,
        PortRole::AisNmea => 2,
        PortRole::Aprs => 3,
    }
}

/// The base a role's ports count up from.
pub open spec fn role_base(b: PortBases, r: PortRole) -> u16 {
    match r {
        PortRole::C2 => b.c2,
        PortRole::Beast => b.beast,
        PortRole::AisNmea => b.ais_nmea,
        PortRole::Aprs => b.aprs,
    }
}

/// Two bases whose blocks of `n` ports cannot meet (a disabled one never
/// does).
pub open spec fn apart(x: u16, y: u16, n: int) -> bool {
    x == 0 || y == 0 || x + n <= y || y + n <= x
}

/// The control block (always enabled) and another block cannot meet.
pub open spec fn apart_c2(c2: u16, y: u16, n: int) -> bool {
    y == 0 || c2 + n <= y || y + n <= c2
}

/// The TCP bases leave room for `n` radios each: no two enabled blocks of
/// `n` ports overlap.
pub open spec fn tcp_bases_apart(b: PortBases, n: int) -> bool {
    &&& apart_c2(b.c2, b.beast, n)
    &&& apart_c2(b.c2, b.ais_nmea, n)
    &&& apart_c2(b.c2, b.aprs, n)
    &&& apart(b.beast, b.ais_nmea, n)
    &&& apart(b.beast, b.aprs, n)
    &&& apart(b.ais_nmea, b.aprs, n)
}

/// A merged fleet: radio `i` has index `i` and port block `i`.
pub open spec fn laid_out(specs: Seq<RadioSpec>, b: PortBases) -> bool {
    forall|i: int| 0 <= i < specs.len() ==> #[trigger] specs[i].idx == i && specs[i].ports == child_ports(b, i)
}

/// The uses of radio `i` gathered so far: its index, their ports counted up
/// from their bases, ranks increasing and below `bound`.
pub open spec fn radio_prefix_ok(q: Seq<PortUse>, b: PortBases, i: int, bound: int) -> bool {
    forall|k: int| 0 <= k < q.len() ==> {
        let u = #[trigger] q[k];
        &&& u.idx == i
        &&& (u.role != PortRole::C2 ==> role_base(b, u.role) != 0)
        &&& u.port == role_base(b, u.role) + u.idx
        &&& role_rank(u.role) < bound
        &&& (forall|k2: int| 0 <= k2 < k ==> role_rank(q[k2].role) < role_rank(u.role))
    }
}

proof fn lemma_append_use(q: Seq<PortUse>, b: PortBases, i: usize, role: PortRole, port: u16)
    requires
        radio_prefix_ok(q, b, i as int, role_rank(role)),
        port != 0 ==> port == role_base(b, role) + i,
        port != 0 && role != PortRole::C2 ==> role_base(b, role) != 0,
    ensures
        radio_prefix_ok(q + use_if_set(i, role, port), b, i as int, role_rank(role) + 1),
{
    let r = q + use_if_set(i, role, port);
    if port == 0 {
        assert(r =~= q);
    } else {
        assert(r =~= q.push(PortUse { idx: i, role, port }));
        assert forall|k: int| 0 <= k < r.len() implies {
            let u = #[trigger] r[k];
            &&& u.idx == i
            &&& (u.role != PortRole::C2 ==> role_base(b, u.role) != 0)
            &&& u.port == role_base(b, u.role) + u.idx
            &&& role_rank(u.role) < role_rank(role) + 1
            &&& (forall|k2: int| 0 <= k2 < k ==> role_rank(r[k2].role) < role_rank(u.role))
        } by {
            if k < q.len() {
                assert(r[k] == q[k]);
                assert forall|k2: int| 0 <= k2 < k implies role_rank(r[k2].role) < role_rank(r[k].role) by {
                    assert(r[k2] == q[k2]);
                }
            } else {
                assert forall|k2: int| 0 <= k2 < k implies role_rank(r[k2].role) < role_rank(r[k].role) by {
                    assert(r[k2] == q[k2]);
                }
            }
        }
    }
}

proof fn lemma_radio_uses(s: RadioSpec, b: PortBases, i: int, n: int)
    requires
        s.idx == i,
        0 <= i < n <= MAX_RADIOS,
        s.ports == child_ports(b, i),
        ports_fit(b, n),
    ensures
        radio_prefix_ok(radio_uses(s), b, i, 4),
{
    let e = Seq::<PortUse>::empty();
    assert(radio_prefix_ok(e, b, i, 0));
    lemma_append_use(e, b, s.idx, PortRole::C2, s.ports.c2);
    let q1 = e + use_if_set(s.idx, PortRole::C2, s.ports.c2);
    lemma_append_use(q1, b, s.idx, PortRole::Beast, s.ports.beast);
    let q2 = q1 + use_if_set(s.idx, PortRole::Beast, s.ports.beast);
    lemma_append_use(q2, b, s.idx, PortRole::AisNmea, s.ports.ais_nmea);
    let q3 = q2 + use_if_set(s.idx, PortRole::AisNmea, s.ports.ais_nmea);
    lemma_append_use(q3, b, s.idx, PortRole::Aprs, s.ports.aprs);
    assert(e + use_if_set(s.idx, PortRole::C2, s.ports.c2) =~= use_if_set(s.idx, PortRole::C2, s.ports.c2));
    assert(radio_uses(s) == q3 + use_if_set(s.idx, PortRole::Aprs, s.ports.aprs));
}

proof fn lemma_uses_shape(specs: Seq<RadioSpec>, b: PortBases)
    requires
        laid_out(specs, b),
        ports_fit(b, specs.len() as int),
        specs.len() <= MAX_RADIOS,
    ensures
        forall|a: int| 0 <= a < fleet_uses(specs).len() ==> {
            let u = #[trigger] fleet_uses(specs)[a];
            &&& u.idx < specs.len()
            &&& (u.role != PortRole::C2 ==> role_base(b, u.role) != 0)
            &&& u.port == role_base(b, u.role) + u.idx
        },
        forall|a: int, c: int| 0 <= a < c < fleet_uses(specs).len() ==> 4 * (#[trigger] fleet_uses(specs)[a]).idx
            + role_rank(fleet_uses(specs)[a].role) < 4 * (#[trigger] fleet_uses(specs)[c]).idx + role_rank(
            fleet_uses(specs)[c].role,
        ),
    decreases specs.len(),
{
    if specs.len() > 0 {
        let pre = specs.drop_last();
        let n = specs.len() as int;
        assert(laid_out(pre, b)) by {
            assert forall|i: int| 0 <= i < pre.len() implies #[trigger] pre[i].idx == i && pre[i].ports
                == child_ports(b, i) by {
                assert(pre[i] == specs[i]);
            }
        }
        lemma_uses_shape(pre, b);
        let last = specs.last();
        assert(last == specs[n - 1]);
        assert(last.idx == n - 1);
        lemma_radio_uses(last, b, n - 1, n);
        let p = fleet_uses(pre);
        let r = radio_uses(last);
        let q = fleet_uses(specs);
        assert(q == p + r);
        assert forall|a: int| 0 <= a < q.len() implies {
            let u = #[trigger] q[a];
            &&& u.idx < specs.len()
            &&& (u.role != PortRole::C2 ==> role_base(b, u.role) != 0)
            &&& u.port == role_base(b, u.role) + u.idx
        } by {
            if a < p.len() {
                assert(q[a] == p[a]);
            } else {
                assert(q[a] == r[a - p.len()]);
            }
        }
        assert forall|a: int, c: int| 0 <= a < c < q.len() implies 4 * (#[trigger] q[a]).idx + role_rank(
            q[a].role,
        ) < 4 * (#[trigger] q[c]).idx + role_rank(q[c].role) by {
            if c < p.len() {
                assert(q[a] == p[a] && q[c] == p[c]);
            } else if a < p.len() {
                assert(q[a] == p[a] && q[c] == r[c - p.len()]);
                assert(p[a].idx < n - 1);
            } else {
                assert(q[a] == r[a - p.len()] && q[c] == r[c - p.len()]);
            }
        }
    }
}

/// Port bases whose enabled TCP blocks are at least as far apart as the
/// fleet is large (as the defaults are, for up to eight radios) never put
/// two radios' listeners on one port: the pre-flight of a merged fleet
/// finds no clash.
pub proof fn lemma_spaced_bases_never_clash(specs: Seq<RadioSpec>, b: PortBases)
    requires
        laid_out(specs, b),
        specs.len() <= MAX_RADIOS,
        ports_fit(b, specs.len() as int),
        tcp_bases_apart(b, specs.len() as int),
    ensures
        forall|a: int, c: int|
            0 <= a < c < fleet_uses(specs).len() ==> #[trigger] fleet_uses(specs)[a].port
                != #[trigger] fleet_uses(specs)[c].port,
{
    lemma_uses_shape(specs, b);
}

/// The default bases are spaced for a full fleet.
pub proof fn lemma_default_bases_spaced()
    ensures
        ({
            let b = PortBases {
                c2: 8730,
                audio_out: 8740,
                audio_in: 8750,
                beast: 30005,
                ais_nmea: 10110,
                aprs: 10152,
            };
            tcp_bases_apart(b, MAX_RADIOS as int) && ports_fit(b, MAX_RADIOS as int)
        }),
{
}

} // verus!
