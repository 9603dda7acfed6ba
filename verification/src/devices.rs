//! Binding each radio's device filter to one physical SDR, from what the
//! SoapySDR enumeration reported: the filter must match exactly one unit, the
//! child is told the least ambiguous way to open it, and no two radios may
//! land on the same unit.

use vstd::prelude::*;
use crate::fleet::RadioSpec;
use crate::text::{append_str, chars_eq, chars_of, string_from_chars};

verus! {

/// One SoapySDR enumeration entry, as far as the binding reads it.
#[derive(Clone, Debug)]
pub struct DeviceEntry {
    pub driver: Option<String>,
    pub serial: Option<String>,
    pub label: Option<String>,
    /// SoapySDR's own rendering of the whole entry.
    pub canonical: String,
}

/// A unit already bound, with the radio that holds it.
#[derive(Clone, Debug)]
pub struct Claim {
    /// The unit's serial, or its opening arguments where it has none.
    pub key: String,
    pub idx: usize,
}

/// Why a radio cannot be bound to a device.
#[derive(Clone, Debug, PartialEq, Eq)]
pub enum BindError {
    /// No device matches the filter; `hint` lists what is attached.
    NoMatch { idx: usize, filter: String, hint: String },
    /// More than one device matches the filter.
    Ambiguous { idx: usize, filter: String, count: usize },
    /// The radio's unit is already held by radio `first`.
    SameUnit { first: usize, second: usize, name: String },
}

/// The view of an optional string.
pub open spec fn opt_view(v: Option<String>) -> Option<Seq<char>> {
    match v {
        Some(s) => Some(s@),
        None => None,
    }
}

/// The entry's serial, where it has a non-empty one.
pub open spec fn serial_of(e: DeviceEntry) -> Option<Seq<char>> {
    match e.serial {
        Some(s) => if s@.len() > 0 {
            Some(s@)
        } else {
            None
        },
        None => None,
    }
}

/// What the child opens: `driver=<d>,serial=<sn>` where both are known,
/// else SoapySDR's rendering of the entry.
pub open spec fn open_args(e: DeviceEntry) -> Seq<char> {
    match (e.driver, serial_of(e)) {
        (Some(d), Some(sn)) => "driver="@ + d@ + ",serial="@ + sn,
        _ => e.canonical@,
    }
}

/// The identity of the unit: its serial, or its opening arguments.
pub open spec fn unit_key(e: DeviceEntry) -> Seq<char> {
    match serial_of(e) {
        Some(sn) => sn,
        None => open_args(e),
    }
}

/// The unit's human name: its label, or its opening arguments.
pub open spec fn unit_name(e: DeviceEntry) -> Seq<char> {
    match e.label {
        Some(l) => l@,
        None => open_args(e),
    }
}

/// How an attached device is listed in the hint: label, else driver, else `?`.
pub open spec fn listed_name(e: DeviceEntry) -> Seq<char> {
    match e.label {
        Some(l) => l@,
        None => match e.driver {
            Some(d) => d@,
            None => seq!['?'],
        },
    }
}

/// The listed names of `all`, joined with `, `.
pub open spec fn joined_names(all: Seq<DeviceEntry>) -> Seq<char>
    decreases all.len(),
{
    if all.len() == 0 {
        Seq::empty()
    } else if all.len() == 1 {
        listed_name(all[0])
    } else {
        joined_names(all.drop_last()) + ", "@ + listed_name(all.last())
    }
}

/// The hint of a failed match: ` (none attached)`, or ` — attached: ` and the names.
pub open spec fn hint_text(all: Seq<DeviceEntry>) -> Seq<char> {
    if all.len() == 0 {
        " (none attached)"@
    } else {
        " — attached: "@ + joined_names(all)
    }
}

/// The keys of the claims.
pub open spec fn claim_keys(c: Seq<Claim>) -> Seq<Seq<char>> {
    c.map_values(|x: Claim| x.key@)
}

/// No unit is claimed twice.
pub open spec fn claims_distinct(c: Seq<Claim>) -> bool {
    forall|i: int, j: int| 0 <= i < j < c.len() ==> c[i].key@ != c[j].key@
}

/// The position of the claim on `key`, if any.
pub open spec fn claim_of(c: Seq<Claim>, key: Seq<char>) -> Option<int> {
    if exists|i: int| 0 <= i < c.len() && c[i].key@ == key {
        Some(choose|i: int| 0 <= i < c.len() && c[i].key@ == key)
    } else {
        None
    }
}

/// The radio spec after binding it to entry `e`.
pub open spec fn bound_to(after: RadioSpec, before: RadioSpec, e: DeviceEntry) -> bool {
    &&& after.device_label@ == unit_name(e)
    &&& opt_view(after.device_driver) == opt_view(e.driver)
    &&& opt_view(after.device_serial) == serial_of(e)
    &&& after.device_args@ == open_args(e)
    &&& after.idx == before.idx
    &&& after.label == before.label
    &&& after.device_filter == before.device_filter
    &&& after.server_id == before.server_id
    &&& after.ports == before.ports
    &&& after.tls == before.tls
    &&& after.enable_tx == before.enable_tx
}

/// The hint listing the attached devices, for a filter that matched none.
pub fn device_hint(all: &[DeviceEntry]) -> (s: String)
    ensures
        s@ == hint_text(all@),
{
    let mut v: Vec<char> = Vec::new();
    if all.len() == 0 {
        append_str(&mut v, " (none attached)");
        return string_from_chars(v.as_slice());
    }
    append_str(&mut v, " — attached: ");
    let ghost head = v@;
    let mut i: usize = 0;
    while i < all.len()
        invariant
            i <= all@.len(),
            all@.len() > 0,
            i == 0 ==> v@ == head,
            i > 0 ==> v@ == head + joined_names(all@.take(i as int)),
        decreases all.len() - i,
    {
        if i > 0 {
            append_str(&mut v, ", ");
        }
        let e = &all[i];
        match &e.label {
            Some(l) => append_str(&mut v, l.as_str()),
            None => match &e.driver {
                Some(d) => append_str(&mut v, d.as_str()),
                None => v.push('?'),
            },
        }
        proof {
            let t = all@.take(i + 1);
            assert(t.drop_last() =~= all@.take(i as int));
            assert(t.last() == all@[i as int]);
            if i == 0 {
                assert(joined_names(t) == listed_name(all@[0]));
                assert(v@ =~= head + joined_names(t));
            } else {
                assert(v@ =~= head + joined_names(t));
            }
        }
        i = i + 1;
    }
    proof {
        assert(all@.take(i as int) =~= all@);
    }
    string_from_chars(v.as_slice())
}

fn open_args_of(e: &DeviceEntry) -> (s: String)
    ensures
        s@ == open_args(*e),
{
    match (&e.driver, &e.serial) {
        (Some(d), Some(sn)) => {
            if chars_of(sn.as_str()).len() > 0 {
                let mut v: Vec<char> = Vec::new();
                append_str(&mut v, "driver=");
                append_str(&mut v, d.as_str());
                append_str(&mut v, ",serial=");
                append_str(&mut v, sn.as_str());
                return string_from_chars(v.as_slice());
            }
            e.canonical.clone()
        },
        _ => e.canonical.clone(),
    }
}

/// Finds the claim on `key`.
fn find_claim(claimed: &Vec<Claim>, key: &str) -> (r: Option<usize>)
    ensures
        match r {
            Some(j) => j < claimed@.len() && claimed@[j as int].key@ == key@,
            None => forall|i: int| 0 <= i < claimed@.len() ==> claimed@[i].key@ != key@,
        },
{
    let k = chars_of(key);
    let mut i: usize = 0;
    while i < claimed.len()
        invariant
            i <= claimed@.len(),
            k@ == key@,
            forall|j: int| 0 <= j < i ==> claimed@[j].key@ != key@,
        decreases claimed.len() - i,
    {
        let c = chars_of(claimed[i].key.as_str());
        if chars_eq(c.as_slice(), k.as_slice()) {
            return Some(i);
        }
        i = i + 1;
    }
    None
}

/// Binds radio `spec` to the one device its filter matched (`matches` is
/// the enumeration for that filter, `all` the enumeration of everything),
/// and records the unit in `claimed`. On an error the radio is left as it was.
pub fn bind_one(spec: &mut RadioSpec, matches: &[DeviceEntry], all: &[DeviceEntry], claimed: &mut Vec<Claim>) -> (r: Result<(), BindError>)
    requires
        claims_distinct(old(claimed)@),
    ensures
        claims_distinct(final(claimed)@),
        matches@.len() == 0 ==> (r matches Err(BindError::NoMatch { idx, filter, hint }) && idx == old(spec).idx
            && filter@ == old(spec).device_filter@ && hint@ == hint_text(all@)),
        matches@.len() > 1 ==> (r matches Err(BindError::Ambiguous { idx, filter, count }) && idx == old(spec).idx
            && filter@ == old(spec).device_filter@ && count == matches@.len()),
        matches@.len() == 1 ==> match claim_of(old(claimed)@, unit_key(matches@[0])) {
            Some(j) => (r matches Err(BindError::SameUnit { first, second, name }) && first == old(claimed)@[j].idx
                && second == old(spec).idx && name@ == unit_name(matches@[0])),
            None => r is Ok && bound_to(*final(spec), *old(spec), matches@[0])
                && claim_keys(final(claimed)@) == claim_keys(old(claimed)@).push(unit_key(matches@[0]))
                && final(claimed)@.last().idx == old(spec).idx
                && final(claimed)@.drop_last() == old(claimed)@,
        },
        r is Err ==> *final(spec) == *old(spec) && final(claimed)@ == old(claimed)@,
{
    if matches.len() == 0 {
        return Err(BindError::NoMatch { idx: spec.idx, filter: spec.device_filter.clone(), hint: device_hint(all) });
    }
    if matches.len() > 1 {
        return Err(BindError::Ambiguous { idx: spec.idx, filter: spec.device_filter.clone(), count: matches.len() });
    }
    let e = &matches[0];
    let args = open_args_of(e);
    let serial: Option<String> = match &e.serial {
        Some(sn) => if chars_of(sn.as_str()).len() > 0 {
            Some(sn.clone())
        } else {
            None
        },
        None => None,
    };
    let key: String = match &serial {
        Some(sn) => sn.clone(),
        None => args.clone(),
    };
    let name: String = match &e.label {
        Some(l) => l.clone(),
        None => args.clone(),
    };
    match find_claim(claimed, key.as_str()) {
        Some(j) => {
            proof {
                assert(exists|i: int| 0 <= i < claimed@.len() && claimed@[i].key@ == key@);
                let c = choose|i: int| 0 <= i < claimed@.len() && claimed@[i].key@ == key@;
                assert(c == j as int);
            }
            return Err(BindError::SameUnit { first: claimed[j].idx, second: spec.idx, name });
        },
        None => {},
    }
    proof {
        assert(!(exists|i: int| 0 <= i < claimed@.len() && claimed@[i].key@ == key@));
    }
    claimed.push(Claim { key, idx: spec.idx });
    proof {
        assert(claim_keys(claimed@) =~= claim_keys(old(claimed)@).push(unit_key(matches@[0])));
        assert(claimed@.drop_last() =~= old(claimed)@);
    }
    spec.device_label = name;
    spec.device_driver = match &e.driver {
        Some(d) => Some(d.clone()),
        None => None,
    };
    spec.device_serial = serial;
    spec.device_args = args;
    Ok(())
}

} // verus!
