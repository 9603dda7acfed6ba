//! The command line the hypervisor gives each `lanline-server` child: every
//! port of its block, its identity, its state directories, and the fleet-wide
//! switches.

use vstd::prelude::*;
use crate::fleet::RadioSpec;
use crate::text::{append_str, decimal_string, hex_text, push_decimal, push_hex, spec_decimal, string_from_chars};

verus! {

/// The hyphenated lower-case form of the identity with value `v`
/// (`8-4-4-4-12` hexadecimal digits), as `uuid` displays it.
pub open spec fn uuid_text_of(v: u128) -> Seq<char> {
    let x = v as nat;
    hex_text(x / 0x1_0000_0000_0000_0000_0000_0000, 8) + seq!['-']
        + hex_text((x / 0x1_0000_0000_0000_0000_0000) % 0x1_0000, 4) + seq!['-']
        + hex_text((x / 0x1_0000_0000_0000_0000) % 0x1_0000, 4) + seq!['-']
        + hex_text((x / 0x1_0000_0000_0000) % 0x1_0000, 4) + seq!['-']
        + hex_text(x % 0x1_0000_0000_0000, 12)
}

/// Renders the identity with value `v` the way `uuid` displays it.
pub fn uuid_text(v: u128) -> (s: String)
    ensures
        s@ == uuid_text_of(v),
{
    let mut out: Vec<char> = Vec::new();
    push_hex(&mut out, v / 0x1_0000_0000_0000_0000_0000_0000, 8);
    out.push('-');
    push_hex(&mut out, (v / 0x1_0000_0000_0000_0000_0000) % 0x1_0000, 4);
    out.push('-');
    push_hex(&mut out, (v / 0x1_0000_0000_0000_0000) % 0x1_0000, 4);
    out.push('-');
    push_hex(&mut out, (v / 0x1_0000_0000_0000) % 0x1_0000, 4);
    out.push('-');
    push_hex(&mut out, v % 0x1_0000_0000_0000, 12);
    proof {
        assert(out@ =~= uuid_text_of(v));
    }
    string_from_chars(out.as_slice())
}

/// Where every child listens and reports, rendered for its command line.
pub struct LaunchOpts {
    /// The address the children bind to.
    pub bind: String,
    /// The address the children announce.
    pub advertise_host: String,
    /// The fleet endpoint handed down to each child, when there is one.
    pub fleet_url: Option<String>,
}

/// The views of a list of strings.
pub open spec fn texts(v: Seq<String>) -> Seq<Seq<char>> {
    v.map_values(|s: String| s@)
}

/// `--flag value` when the value is there, else nothing.
pub open spec fn opt_pair(flag: Seq<char>, v: Option<Seq<char>>) -> Seq<Seq<char>> {
    match v {
        Some(x) => seq![flag, x],
        None => Seq::empty(),
    }
}

/// `--flag` when it is set, else nothing.
pub open spec fn opt_flag(flag: Seq<char>, on: bool) -> Seq<Seq<char>> {
    if on {
        seq![flag]
    } else {
        Seq::empty()
    }
}

/// The view of an optional string.
pub open spec fn opt_text(v: Option<String>) -> Option<Seq<char>> {
    match v {
        Some(s) => Some(s@),
        None => None,
    }
}

/// The view of an optional string slice.
pub open spec fn opt_str(v: Option<&str>) -> Option<Seq<char>> {
    match v {
        Some(s) => Some(s@),
        None => None,
    }
}

/// `radio-<i>`, the directory of radio `i`'s IQ recordings under the state directory.
pub open spec fn iq_dir_text(idx: usize) -> Seq<char> {
    seq!['r', 'a', 'd', 'i', 'o', '-'] + spec_decimal(idx as nat)
}

/// `tls-radio-<i>`, the directory of radio `i`'s TLS material under the state directory.
pub open spec fn tls_dir_text(idx: usize) -> Seq<char> {
    seq!['t', 'l', 's', '-'] + iq_dir_text(idx)
}

/// `lanline-<i>`, the mDNS name of radio `i`.
pub open spec fn mdns_name_text(idx: usize) -> Seq<char> {
    seq!['l', 'a', 'n', 'l', 'i', 'n', 'e', '-'] + spec_decimal(idx as nat)
}

/// The arguments of the child that runs radio `s`, whose identity has value
/// `id`; `ppm` is the rendered frequency correction where it is not zero.
pub open spec fn child_args_text(
    s: RadioSpec,
    o: LaunchOpts,
    iq_dir: Seq<char>,
    tls_dir: Seq<char>,
    ppm: Option<Seq<char>>,
    id: u128,
) -> Seq<Seq<char>> {
    seq![
        "--bind"@, o.bind@,
        "--advertise-host"@, o.advertise_host@,
        "--c2-port"@, spec_decimal(s.ports.c2 as nat),
        "--audio-out-port"@, spec_decimal(s.ports.audio_out as nat),
        "--audio-in-port"@, spec_decimal(s.ports.audio_in as nat),
        "--beast-port"@, spec_decimal(s.ports.beast as nat),
        "--ais-nmea-port"@, spec_decimal(s.ports.ais_nmea as nat),
        "--aprs-port"@, spec_decimal(s.ports.aprs as nat),
        "--no-beacon"@,
        "--no-mdns"@,
        "--mdns-name"@, mdns_name_text(s.idx),
        "--instance-label"@, s.label@,
        "--server-id"@, uuid_text_of(id),
        "--device"@, s.device_args@,
        "--iq-dir"@, iq_dir,
        "--tls-dir"@, tls_dir,
    ]
        + opt_pair("--fleet-url"@, opt_text(o.fleet_url))
        + opt_pair("--freq-correction-ppm"@, ppm)
        + opt_flag("--tls"@, s.tls)
        + opt_flag("--enable-tx"@, s.enable_tx)
}

/// Name of the IQ recording directory of radio `idx`.
pub fn iq_dir_name(idx: usize) -> (s: String)
    ensures
        s@ == iq_dir_text(idx),
{
    let mut v: Vec<char> = Vec::new();
    v.push('r');
    v.push('a');
    v.push('d');
    v.push('i');
    v.push('o');
    v.push('-');
    push_decimal(&mut v, idx as u64);
    proof {
        assert(v@ =~= iq_dir_text(idx));
    }
    string_from_chars(v.as_slice())
}

/// Name of the TLS directory of radio `idx`.
pub fn tls_dir_name(idx: usize) -> (s: String)
    ensures
        s@ == tls_dir_text(idx),
{
    let mut v: Vec<char> = Vec::new();
    v.push('t');
    v.push('l');
    v.push('s');
    v.push('-');
    v.push('r');
    v.push('a');
    v.push('d');
    v.push('i');
    v.push('o');
    v.push('-');
    push_decimal(&mut v, idx as u64);
    proof {
        assert(v@ =~= tls_dir_text(idx));
    }
    string_from_chars(v.as_slice())
}

fn push_arg(out: &mut Vec<String>, a: String)
    ensures
        texts(final(out)@) == texts(old(out)@).push(a@),
{
    out.push(a);
    proof {
        assert(texts(out@) =~= texts(old(out)@).push(a@));
    }
}

/// The arguments of the child that runs radio `spec`, with its identity
/// given by value.
pub fn child_args_with_id(
    spec: &RadioSpec,
    opts: &LaunchOpts,
    iq_dir: &str,
    tls_dir: &str,
    ppm: Option<&str>,
    id: u128,
) -> (r: Vec<String>)
    ensures
        texts(r@) == child_args_text(*spec, *opts, iq_dir@, tls_dir@, opt_str(ppm), id),
{
    let mut out: Vec<String> = Vec::new();
    push_arg(&mut out, "--bind".to_owned());
    push_arg(&mut out, opts.bind.clone());
    push_arg(&mut out, "--advertise-host".to_owned());
    push_arg(&mut out, opts.advertise_host.clone());
    push_arg(&mut out, "--c2-port".to_owned());
    push_arg(&mut out, decimal_string(spec.ports.c2 as u64));
    push_arg(&mut out, "--audio-out-port".to_owned());
    push_arg(&mut out, decimal_string(spec.ports.audio_out as u64));
    push_arg(&mut out, "--audio-in-port".to_owned());
    push_arg(&mut out, decimal_string(spec.ports.audio_in as u64));
    push_arg(&mut out, "--beast-port".to_owned());
    push_arg(&mut out, decimal_string(spec.ports.beast as u64));
    push_arg(&mut out, "--ais-nmea-port".to_owned());
    push_arg(&mut out, decimal_string(spec.ports.ais_nmea as u64));
    push_arg(&mut out, "--aprs-port".to_owned());
    push_arg(&mut out, decimal_string(spec.ports.aprs as u64));
    push_arg(&mut out, "--no-beacon".to_owned());
    push_arg(&mut out, "--no-mdns".to_owned());
    push_arg(&mut out, "--mdns-name".to_owned());
    let mut name: Vec<char> = Vec::new();
    append_str(&mut name, "lanline-");
    push_decimal(&mut name, spec.idx as u64);
    proof {
        reveal_strlit("lanline-");
        assert(name@ =~= mdns_name_text(spec.idx));
    }
    push_arg(&mut out, string_from_chars(name.as_slice()));
    push_arg(&mut out, "--instance-label".to_owned());
    push_arg(&mut out, spec.label.clone());
    push_arg(&mut out, "--server-id".to_owned());
    push_arg(&mut out, uuid_text(id));
    push_arg(&mut out, "--device".to_owned());
    push_arg(&mut out, spec.device_args.clone());
    push_arg(&mut out, "--iq-dir".to_owned());
    push_arg(&mut out, iq_dir.to_owned());
    push_arg(&mut out, "--tls-dir".to_owned());
    push_arg(&mut out, tls_dir.to_owned());
    match &opts.fleet_url {
        Some(url) => {
            push_arg(&mut out, "--fleet-url".to_owned());
            push_arg(&mut out, url.clone());
        },
        None => {},
    }
    match ppm {
        Some(p) => {
            push_arg(&mut out, "--freq-correction-ppm".to_owned());
            push_arg(&mut out, p.to_owned());
        },
        None => {},
    }
    if spec.tls {
        push_arg(&mut out, "--tls".to_owned());
    }
    if spec.enable_tx {
        push_arg(&mut out, "--enable-tx".to_owned());
    }
    proof {
        assert(texts(out@) =~= child_args_text(*spec, *opts, iq_dir@, tls_dir@, opt_str(ppm), id));
    }
    out
}

/// The arguments of the child that runs radio `spec`, which reports the
/// radio's own identity.
pub fn child_args(spec: &RadioSpec, opts: &LaunchOpts, iq_dir: &str, tls_dir: &str, ppm: Option<&str>) -> (r: Vec<String>)
    ensures
        texts(r@) == child_args_text(*spec, *opts, iq_dir@, tls_dir@, opt_str(ppm), spec.server_id),
{
    child_args_with_id(spec, opts, iq_dir, tls_dir, ppm, spec.server_id)
}

} // verus!
