//! The registry of language families the application knows, and which one is open.
use crate::models::{FamilyEntry, GlobalRegistry};
use crate::text::{to_zero_padded, zero_padded};
use vstd::prelude::*;

verus! {

/// The calendar fields of a timestamp: a year of 365 days, months of 30.
pub open spec fn iso_fields(secs: nat) -> (nat, nat, nat, nat, nat, nat) {
    let days = secs / 86400;
    (
        1970 + days / 365,
        (days % 365) / 30 + 1,
        (days % 365) % 30 + 1,
        (secs % 86400) / 3600,
        (secs % 3600) / 60,
        secs % 60,
    )
}

/// `YYYY-MM-DDThh:mm:ssZ` for the fields of `secs`.
pub open spec fn iso_text(secs: nat) -> Seq<char> {
    let f = iso_fields(secs);
    zero_padded(f.0, 4) + "-"@ + zero_padded(f.1, 2) + "-"@ + zero_padded(f.2, 2) + "T"@
        + zero_padded(f.3, 2) + ":"@ + zero_padded(f.4, 2) + ":"@ + zero_padded(f.5, 2) + "Z"@
}

/// A sortable timestamp for `secs` seconds since the Unix epoch.
pub fn now_iso(secs: u64) -> (r: String)
    ensures
        r@ == iso_text(secs as nat),
{
    let days = secs / 86400;
    let mut r = to_zero_padded(1970 + days / 365, 4);
    r.append("-");
    r.append(to_zero_padded((days % 365) / 30 + 1, 2).as_str());
    r.append("-");
    r.append(to_zero_padded((days % 365) % 30 + 1, 2).as_str());
    r.append("T");
    r.append(to_zero_padded((secs % 86400) / 3600, 2).as_str());
    r.append(":");
    r.append(to_zero_padded((secs % 3600) / 60, 2).as_str());
    r.append(":");
    r.append(to_zero_padded(secs % 60, 2).as_str());
    r.append("Z");
    r
}

/// Why a registry change was refused.
#[derive(Debug, PartialEq, Eq, Structural)]
pub enum RegistryError {
    IndexOutOfRange,
}

impl RegistryError {
    pub fn message(&self) -> (r: String)
        ensures
            r@ == "Family index out of range"@,
    {
        String::from_str("Family index out of range")
    }
}

pub open spec fn family_paths(s: Seq<FamilyEntry>) -> Seq<Seq<char>> {
    s.map_values(|f: FamilyEntry| f.conlang_file_path@)
}

/// The active family after the family at `index` is removed from a list that then has
/// `len` families.
pub open spec fn active_after_removal(active: Option<usize>, index: nat, len: nat) -> Option<nat> {
    if len == 0 {
        None
    } else {
        match active {
            Some(a) => if a >= len {
                Some((len - 1) as nat)
            } else if a > index {
                Some((a - 1) as nat)
            } else if a == index {
                Some(0)
            } else {
                Some(a as nat)
            },
            None => None,
        }
    }
}

pub open spec fn opt_nat(o: Option<usize>) -> Option<nat> {
    match o {
        Some(a) => Some(a as nat),
        None => None,
    }
}

/// Registers the family whose workspace file is `conlang_file_path`, or renames it and
/// marks it opened now where it is registered already; makes it the active family.
pub fn register_family(
    registry: &mut GlobalRegistry,
    name: String,
    conlang_file_path: String,
    now: String,
)
    ensures
        final(registry).registry_version == old(registry).registry_version,
        ({
            let old_f = old(registry).families@;
            let new_f = final(registry).families@;
            let known = crate::lexicon::first_index(family_paths(old_f), conlang_file_path@) >= 0;
            &&& known ==> new_f.len() == old_f.len() && forall|i: int|
                0 <= i < old_f.len() ==> if (#[trigger] old_f[i]).conlang_file_path@
                    == conlang_file_path@ {
                    new_f[i].name@ == name@ && new_f[i].last_opened@ == now@
                        && new_f[i].conlang_file_path == old_f[i].conlang_file_path
                } else {
                    new_f[i] == old_f[i]
                }
            &&& !known ==> new_f.len() == old_f.len() + 1 && new_f.drop_last() == old_f
                && new_f.last().name@ == name@ && new_f.last().conlang_file_path@
                == conlang_file_path@ && new_f.last().last_opened@ == now@
            &&& known ==> opt_nat(final(registry).active_family_index) == Some(
                crate::lexicon::first_index(family_paths(old_f), conlang_file_path@) as nat,
            )
            &&& !known ==> final(registry).active_family_index == Some(old_f.len() as usize)
        }),
{
    let ghost old_f = registry.families@;
    proof {
        crate::lexicon::lemma_first_index(family_paths(old_f), conlang_file_path@);
    }
    let mut found: Option<usize> = None;
    let mut i: usize = 0;
    let n = registry.families.len();
    while i < n
        invariant
            n == old_f.len(),
            registry.registry_version == old(registry).registry_version,
            registry.families@.len() == n,
            i <= n,
            forall|k: int|
                i <= k < n ==> #[trigger] registry.families@[k] == old_f[k],
            forall|k: int|
                0 <= k < i ==> if (#[trigger] old_f[k]).conlang_file_path@ == conlang_file_path@ {
                    registry.families@[k].name@ == name@ && registry.families@[k].last_opened@
                        == now@ && registry.families@[k].conlang_file_path
                        == old_f[k].conlang_file_path
                } else {
                    registry.families@[k] == old_f[k]
                },
            match found {
                Some(f) => f < i && old_f[f as int].conlang_file_path@ == conlang_file_path@
                    && forall|k: int| 0 <= k < f ==> family_paths(old_f)[k] != conlang_file_path@,
                None => forall|k: int| 0 <= k < i ==> family_paths(old_f)[k] != conlang_file_path@,
            },
        decreases n - i,
    {
        assert(family_paths(old_f)[i as int] == old_f[i as int].conlang_file_path@);
        if registry.families[i].conlang_file_path == conlang_file_path {
            let f = registry.families.remove(i);
            registry.families.insert(
                i,
                FamilyEntry {
                    name: name.clone(),
                    conlang_file_path: f.conlang_file_path,
                    last_opened: now.clone(),
                },
            );
            if found.is_none() {
                found = Some(i);
            }
        }
        i = i + 1;
    }
    match found {
        Some(f) => {
            proof {
                let fi = crate::lexicon::first_index(family_paths(old_f), conlang_file_path@);
                assert(family_paths(old_f)[f as int] == conlang_file_path@);
                if fi >= 0 && fi < f {
                    assert(family_paths(old_f)[fi] != conlang_file_path@);
                }
            }
            registry.active_family_index = Some(f);
        },
        None => {
            let ghost path = conlang_file_path@;
            assert forall|k: int| 0 <= k < n implies registry.families@[k] == old_f[k] by {
                assert(family_paths(old_f)[k] == old_f[k].conlang_file_path@);
            }
            registry.families.push(FamilyEntry { name, conlang_file_path, last_opened: now });
            assert(registry.families@.drop_last() =~= old_f);
            registry.active_family_index = Some(n);
        },
    }
}

/// Removes the family at `index` (its files stay) and keeps the active index on a
/// family: the same one where it can, else the first or the last.
pub fn unregister_family(registry: &mut GlobalRegistry, index: usize) -> (r: Result<(), RegistryError>)
    ensures
        r is Err <==> index >= old(registry).families@.len(),
        r is Err ==> *final(registry) == *old(registry),
        r is Ok ==> final(registry).registry_version == old(registry).registry_version
            && final(registry).families@ == old(registry).families@.remove(index as int)
            && opt_nat(final(registry).active_family_index) == active_after_removal(
            old(registry).active_family_index,
            index as nat,
            (old(registry).families@.len() - 1) as nat,
        ),
{
    if index >= registry.families.len() {
        return Err(RegistryError::IndexOutOfRange);
    }
    registry.families.remove(index);
    let len = registry.families.len();
    if len == 0 {
        registry.active_family_index = None;
    } else {
        match registry.active_family_index {
            Some(a) => {
                if a >= len {
                    registry.active_family_index = Some(len - 1);
                } else if a > index {
                    registry.active_family_index = Some(a - 1);
                } else if a == index {
                    registry.active_family_index = Some(0);
                }
            },
            None => {},
        }
    }
    Ok(())
}

/// Makes the family at `index` the active one and marks it opened now.
pub fn set_active_family(registry: &mut GlobalRegistry, index: usize, now: String) -> (r: Result<
    (),
    RegistryError,
>)
    ensures
        r is Err <==> index >= old(registry).families@.len(),
        r is Err ==> *final(registry) == *old(registry),
        r is Ok ==> ({
            let old_f = old(registry).families@;
            let new_f = final(registry).families@;
            &&& final(registry).registry_version == old(registry).registry_version
            &&& final(registry).active_family_index == Some(index)
            &&& new_f.len() == old_f.len()
            &&& forall|i: int| 0 <= i < old_f.len() && i != index ==> new_f[i] == old_f[i]
            &&& new_f[index as int].name == old_f[index as int].name
            &&& new_f[index as int].conlang_file_path == old_f[index as int].conlang_file_path
            &&& new_f[index as int].last_opened@ == now@
        }),
{
    if index >= registry.families.len() {
        return Err(RegistryError::IndexOutOfRange);
    }
    registry.active_family_index = Some(index);
    let f = registry.families.remove(index);
    registry.families.insert(
        index,
        FamilyEntry { name: f.name, conlang_file_path: f.conlang_file_path, last_opened: now },
    );
    Ok(())
}

} // verus!
