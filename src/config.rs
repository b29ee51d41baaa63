use vstd::prelude::*;

use crate::text::{lemma_lex_total, lemma_lex_trans, lex_le, str_eq, str_le};

verus! {

/// Where a display target is reached on the network.
pub struct DeviceConfig {
    pub ip: String,
}

/// One rule of the schedule: the weekdays it applies on, the time of day at
/// which it fires (`HH:MM`), and the image it assigns to each target.
pub struct ScheduleEntry {
    pub days: Vec<String>,
    pub time: String,
    pub stage_left: Option<String>,
    pub stage_right: Option<String>,
}

/// The target registry and the rule set.
///
/// `devices` maps a target name to its address; where a name is listed more
/// than once, the first listing is the one that counts.
pub struct Config {
    pub devices: Vec<(String, DeviceConfig)>,
    pub schedule: Vec<ScheduleEntry>,
}

/// A target name that the registry does not list, with the names it does
/// list, in registry order.
pub struct UnknownDevice {
    pub name: String,
    pub available: Vec<String>,
}

/// The registry as (name, address) pairs of plain character sequences.
pub open spec fn registry_view(d: Seq<(String, DeviceConfig)>) -> Seq<(Seq<char>, Seq<char>)> {
    d.map_values(|p: (String, DeviceConfig)| (p.0@, p.1.ip@))
}

/// (name, address) pairs as plain character sequences.
pub open spec fn targets_view(v: Seq<(String, String)>) -> Seq<(Seq<char>, Seq<char>)> {
    v.map_values(|p: (String, String)| (p.0@, p.1@))
}

/// The pairs are in lexicographic order of their names.
pub open spec fn sorted_by_name(v: Seq<(Seq<char>, Seq<char>)>) -> bool {
    forall|i: int, j: int| 0 <= i < j < v.len() ==> lex_le(#[trigger] v[i].0, #[trigger] v[j].0)
}

/// Entry `i` is the first that the registry holds under `name`.
pub open spec fn first_listing(d: Seq<(String, DeviceConfig)>, name: Seq<char>, i: int) -> bool {
    &&& 0 <= i < d.len()
    &&& d[i].0@ == name
    &&& forall|j: int| 0 <= j < i ==> d[j].0@ != name
}

/// The registry holds an entry under `name`.
pub open spec fn is_listed(d: Seq<(String, DeviceConfig)>, name: Seq<char>) -> bool {
    exists|i: int| 0 <= i < d.len() && d[i].0@ == name
}

/// The position of the first registry entry under `name`.
pub fn find_device(devices: &Vec<(String, DeviceConfig)>, name: &str) -> (r: Option<usize>)
    ensures
        match r {
            Some(i) => first_listing(devices@, name@, i as int),
            None => !is_listed(devices@, name@),
        },
{
    let mut i: usize = 0;
    while i < devices.len()
        invariant
            i <= devices@.len(),
            forall|j: int| 0 <= j < i ==> devices@[j].0@ != name@,
        decreases devices@.len() - i,
    {
        if str_eq(devices[i].0.as_str(), name) {
            return Some(i);
        }
        i += 1;
    }
    None
}

/// Every registry entry as (name, address), sorted by name.
fn all_devices_sorted(devices: &Vec<(String, DeviceConfig)>) -> (r: Vec<(String, String)>)
    ensures
        sorted_by_name(targets_view(r@)),
        targets_view(r@).to_multiset() == registry_view(devices@).to_multiset(),
{
    let ghost reg = registry_view(devices@);
    let mut r: Vec<(String, String)> = Vec::new();
    let mut i: usize = 0;
    assert(reg.take(0) =~= Seq::empty());
    assert(targets_view(r@) =~= Seq::empty());
    while i < devices.len()
        invariant
            reg == registry_view(devices@),
            i <= devices@.len(),
            sorted_by_name(targets_view(r@)),
            targets_view(r@).to_multiset() == reg.take(i as int).to_multiset(),
        decreases devices@.len() - i,
    {
        let name = devices[i].0.clone();
        let ip = devices[i].1.ip.clone();
        let ghost old_v = targets_view(r@);
        let ghost k = name@;
        let mut p: usize = 0;
        while p < r.len() && str_le(r[p].0.as_str(), name.as_str())
            invariant
                old_v == targets_view(r@),
                k == name@,
                p <= r@.len(),
                forall|q: int| 0 <= q < p ==> lex_le(old_v[q].0, k),
            decreases r@.len() - p,
        {
            p += 1;
        }
        r.insert(p, (name, ip));
        proof {
            let v = targets_view(r@);
            assert(v =~= old_v.insert(p as int, (k, devices@[i as int].1.ip@)));
            let x = (k, devices@[i as int].1.ip@);
            assert(reg[i as int] == x);
            assert(reg.take(i + 1) =~= reg.take(i as int).push(x));
            vstd::seq_lib::to_multiset_insert(old_v, p as int, x);
            vstd::seq_lib::to_multiset_build(reg.take(i as int), x);
            if p < old_v.len() {
                lemma_lex_total(old_v[p as int].0, k);
            }
            assert forall|a: int, b: int| 0 <= a < b < v.len() implies lex_le(
                #[trigger] v[a].0,
                #[trigger] v[b].0,
            ) by {
                if a < p && b == p {
                } else if a == p && b > p {
                    if b - 1 > p {
                        assert(lex_le(old_v[p as int].0, old_v[b - 1].0));
                        lemma_lex_trans(k, old_v[p as int].0, old_v[b - 1].0);
                    }
                } else if a < p && b > p {
                    assert(lex_le(old_v[a].0, old_v[b - 1].0));
                } else if a > p {
                    assert(lex_le(old_v[a - 1].0, old_v[b - 1].0));
                } else {
                    assert(lex_le(old_v[a].0, old_v[b].0));
                }
            }
        }
        i += 1;
    }
    assert(reg.take(i as int) =~= reg);
    r
}

/// The targets that `name` selects, as (name, address) pairs: for `"all"`,
/// every registry entry sorted by name; otherwise the first entry listed
/// under `name`, or the error that names the registry's entries.
pub fn resolve_devices(config: &Config, name: &str) -> (r: Result<Vec<(String, String)>, UnknownDevice>)
    ensures
        name@ == "all"@ ==> (r matches Ok(v) && sorted_by_name(targets_view(v@)) && targets_view(
            v@,
        ).to_multiset() == registry_view(config.devices@).to_multiset()),
        name@ != "all"@ ==> match r {
            Ok(v) => exists|i: int|
                first_listing(config.devices@, name@, i) && #[trigger] targets_view(v@) == seq![
                    (name@, config.devices@[i].1.ip@),
                ],
            Err(e) => !is_listed(config.devices@, name@) && e.name@ == name@ && e.available@.len()
                == config.devices@.len() && forall|j: int|
                0 <= j < config.devices@.len() ==> #[trigger] e.available@[j]@
                    == config.devices@[j].0@,
        },
{
    if str_eq(name, "all") {
        return Ok(all_devices_sorted(&config.devices));
    }
    match find_device(&config.devices, name) {
        Some(i) => {
            let ip = config.devices[i].1.ip.clone();
            let v = vec![(name.to_string(), ip)];
            assert(targets_view(v@) =~= seq![(name@, config.devices@[i as int].1.ip@)]);
            Ok(v)
        },
        None => {
            let mut available: Vec<String> = Vec::new();
            let mut j: usize = 0;
            while j < config.devices.len()
                invariant
                    j <= config.devices@.len(),
                    available@.len() == j,
                    forall|q: int| 0 <= q < j ==> #[trigger] available@[q]@ == config.devices@[q].0@,
                decreases config.devices@.len() - j,
            {
                available.push(config.devices[j].0.clone());
                j += 1;
            }
            Err(UnknownDevice { name: name.to_string(), available })
        },
    }
}

/// The configuration file inside the configuration directory `dir`.
pub fn config_path(dir: &str) -> (r: String)
    ensures
        r@ == dir@ + "/config.toml"@,
{
    let mut r = String::from_str(dir);
    r.append("/config.toml");
    r
}

} // verus!
