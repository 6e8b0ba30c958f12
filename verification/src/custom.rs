//! A Custom module's panel: the pads it groups, which of them can still be
//! added, and what its **Update** button does.

use vstd::prelude::*;
use std::collections::{HashMap, HashSet};
use vstd::std_specs::iter::IteratorSpec;
use crate::modules::{copy_usizes, CustomModuleConfig};
use crate::moves::PinEdit;
use crate::naming::{custom_pins_sig, pins_sig, views};
use crate::pins::PinFunction;
use crate::pwm::{increasing_usize, insert_sorted};
use crate::text::{dec, owned, push_dec, same_text};

verus! {

broadcast use vstd::std_specs::hash::group_hash_axioms;

/// How a pad is named in a message: its name, else `pin<n>`.
pub open spec fn name_or_pin(names: Map<usize, String>, n: usize) -> Seq<char> {
    if names.contains_key(n) {
        names[n]@
    } else {
        "pin"@ + dec(n as nat)
    }
}

/// The names of the pads of `pins` that carry no function yet (a pad the map
/// does not know counts as one), in list order.
pub open spec fn unconfigured(
    pins: Seq<usize>,
    current: Map<usize, PinFunction>,
    names: Map<usize, String>,
) -> Seq<Seq<char>>
    decreases pins.len(),
{
    if pins.len() == 0 {
        Seq::empty()
    } else {
        let rest = unconfigured(pins.drop_last(), current, names);
        let n = pins.last();
        if !current.contains_key(n) || current[n] == PinFunction::Unset {
            rest.push(name_or_pin(names, n))
        } else {
            rest
        }
    }
}

/// **Update** has something to do: the module has pads, and their
/// fingerprint is not the one its struct was last generated from.
pub open spec fn update_pending(cfg: CustomModuleConfig, sigs: Map<usize, String>) -> bool {
    cfg.pins@.len() > 0 && pins_sig(cfg.pins@, sigs) != cfg.applied_sig@
}

impl CustomModuleConfig {
    /// Whether the pads changed since the struct was last generated: their
    /// fingerprint `current_sig` is not the applied one.
    pub fn has_pending_pins(&self, current_sig: &str) -> (r: bool)
        ensures
            r == (current_sig@ != self.applied_sig@),
    {
        !same_text(current_sig, self.applied_sig.as_str())
    }
}

/// What a press of a Custom module's **Update** button came to.
pub enum CustomUpdate {
    /// Nothing to generate (the button is disabled).
    Unchanged,
    /// Some pads carry no function yet, so no struct can be generated; these
    /// are their names, for the warning.
    Unconfigured(Vec<String>),
    /// The struct is regenerated from the current pads.
    Generated,
}

/// Press **Update** on a Custom module: when the pads changed since the last
/// generation and every one of them carries a function, the struct is
/// regenerated — into a new file revision when one was generated before —
/// from the current pads and fingerprint; when some carry none, nothing
/// changes and their names come back for the warning.
pub fn custom_update(
    cfg: &mut CustomModuleConfig,
    pin_sigs: &HashMap<usize, String>,
    pin_names: &HashMap<usize, String>,
    pin_funcs_current: &HashMap<usize, PinFunction>,
) -> (r: CustomUpdate)
    requires
        old(cfg).revision < u32::MAX,
    ensures
        !update_pending(*old(cfg), pin_sigs@) ==> r is Unchanged && *final(cfg) == *old(cfg),
        update_pending(*old(cfg), pin_sigs@) && unconfigured(old(cfg).pins@, pin_funcs_current@, pin_names@).len() > 0
            ==> (r matches CustomUpdate::Unconfigured(v) && views(v@) == unconfigured(
            old(cfg).pins@,
            pin_funcs_current@,
            pin_names@,
        )) && *final(cfg) == *old(cfg),
        update_pending(*old(cfg), pin_sigs@) && unconfigured(old(cfg).pins@, pin_funcs_current@, pin_names@).len() == 0
            ==> {
            &&& r is Generated
            &&& final(cfg).applied_pins@ == old(cfg).pins@
            &&& final(cfg).applied_sig@ == pins_sig(old(cfg).pins@, pin_sigs@)
            &&& final(cfg).revision == old(cfg).revision + if old(cfg).applied_pins@.len() > 0 {
                1int
            } else {
                0int
            }
            &&& final(cfg).name == old(cfg).name
            &&& final(cfg).struct_name == old(cfg).struct_name
            &&& final(cfg).pins == old(cfg).pins
        },
{
    let sig = custom_pins_sig(cfg.pins.as_slice(), pin_sigs);
    if !(cfg.pins.len() > 0 && cfg.has_pending_pins(sig.as_str())) {
        return CustomUpdate::Unchanged;
    }
    let mut unc: Vec<String> = Vec::new();
    let mut i: usize = 0;
    while i < cfg.pins.len()
        invariant
            i <= cfg.pins@.len(),
            views(unc@) == unconfigured(cfg.pins@.subrange(0, i as int), pin_funcs_current@, pin_names@),
        decreases cfg.pins@.len() - i,
    {
        let n = cfg.pins[i];
        let ghost sub = cfg.pins@.subrange(0, i + 1);
        assert(sub.drop_last() =~= cfg.pins@.subrange(0, i as int));
        assert(sub.last() == n);
        let unset = match pin_funcs_current.get(&n) {
            Some(f) => *f == PinFunction::Unset,
            None => true,
        };
        if unset {
            let name = match pin_names.get(&n) {
                Some(s) => s.clone(),
                None => {
                    let mut t = owned("pin");
                    push_dec(&mut t, n as u64);
                    t
                },
            };
            let ghost prev = unc@;
            unc.push(name);
            assert(views(unc@) =~= views(prev).push(name@));
        }
        i = i + 1;
    }
    assert(cfg.pins@.subrange(0, cfg.pins@.len() as int) =~= cfg.pins@);
    if unc.len() > 0 {
        return CustomUpdate::Unconfigured(unc);
    }
    if cfg.applied_pins.len() > 0 {
        cfg.revision = cfg.revision + 1;
    }
    cfg.applied_pins = copy_usizes(&cfg.pins);
    cfg.applied_sig = sig;
    CustomUpdate::Generated
}


/// The pads that can still be added to the module, in increasing order: the
/// chip's named pads that the module does not hold yet and that are not
/// blocked (reserved, assigned, or owned by another module).
pub fn custom_addable_pins(
    cfg: &CustomModuleConfig,
    pin_names: &HashMap<usize, String>,
    pin_blocked: &HashSet<usize>,
) -> (r: Vec<usize>)
    ensures
        increasing_usize(r@),
        forall|n: usize|
            r@.contains(n) <==> pin_names@.contains_key(n) && !cfg.pins@.contains(n)
                && !pin_blocked@.contains(n),
{
    let mut r: Vec<usize> = Vec::new();
    let ghost dom = pin_names@.dom();
    let ghost mut seen: Seq<usize> = Seq::empty();
    let ghost all: Seq<usize> = vstd::std_specs::hash::spec_keys_iter(pin_names).remaining().unref();
    for k in it: pin_names.keys()
        invariant
            increasing_usize(r@),
            all == it.seq().unref(),
            all.to_set() == dom,
            seen == all.take(it.index() as int),
            forall|n: usize|
                r@.contains(n) <==> seen.contains(n) && !cfg.pins@.contains(n) && !pin_blocked@.contains(n),
    {
        let n = *k;
        let ghost before = r@;
        let held = contains_usize(&cfg.pins, n);
        let blocked = pin_blocked.contains(&n);
        assert(blocked == pin_blocked@.contains(n));
        if !held && !blocked {
            insert_sorted(&mut r, n);
        }
        proof {
            let old_seen = seen;
            assert(n == all[it.index() as int]);
            seen = old_seen.push(n);
            assert(seen =~= all.take(it.index() + 1));
            assert forall|x: usize|
                r@.contains(x) <==> seen.contains(x) && !cfg.pins@.contains(x) && !pin_blocked@.contains(x) by {
                assert(before.contains(x) <==> old_seen.contains(x) && !cfg.pins@.contains(x) && !pin_blocked@.contains(x));
                assert(seen.contains(x) <==> (old_seen.contains(x) || x == n)) by {
                    if seen.contains(x) && x != n {
                        let j = choose|j: int| 0 <= j < seen.len() && seen[j] == x;
                        assert(old_seen[j] == x);
                    }
                    if old_seen.contains(x) {
                        let j = choose|j: int| 0 <= j < old_seen.len() && old_seen[j] == x;
                        assert(seen[j] == x);
                    }
                    if x == n {
                        assert(seen[old_seen.len() as int] == n);
                    }
                }
                assert(r@.contains(x) <==> (before.contains(x) || (x == n && !held && !blocked)));
            }
        }
    }
    assert(seen =~= all);
    r
}

fn contains_usize(v: &Vec<usize>, n: usize) -> (r: bool)
    ensures
        r == v@.contains(n),
{
    let mut i: usize = 0;
    while i < v.len()
        invariant
            i <= v.len(),
            forall|k: int| 0 <= k < i ==> v@[k] != n,
        decreases v.len() - i,
    {
        if v[i] == n {
            return true;
        }
        i = i + 1;
    }
    false
}

/// One edit made in a Custom module's panel.
#[derive(Clone, Copy, PartialEq, Eq, Debug, Structural)]
pub enum CustomEdit {
    /// "+ Add pin": the pad with this number joins the module.
    AddPin(usize),
    /// The ✕ on the pad row at this position.
    RemovePin(usize),
    /// A function picked from a pad's name button.
    PickFunction(usize, PinFunction),
}

/// Apply one edit of a Custom module's panel: a pad is added when it is
/// neither held nor blocked; the pad row at a position is removed; a picked
/// function changes nothing here and comes back as the pin edit the caller
/// makes, exactly as a click on the canvas would.
pub fn apply_custom_edit(cfg: &mut CustomModuleConfig, e: CustomEdit, pin_blocked: &HashSet<usize>) -> (r: Option<PinEdit>)
    ensures
        final(cfg).name == old(cfg).name,
        final(cfg).struct_name == old(cfg).struct_name,
        final(cfg).revision == old(cfg).revision,
        final(cfg).applied_pins == old(cfg).applied_pins,
        final(cfg).applied_sig == old(cfg).applied_sig,
        match e {
            CustomEdit::AddPin(n) => r is None && final(cfg).pins@ == if !old(cfg).pins@.contains(n)
                && !pin_blocked@.contains(n) {
                old(cfg).pins@.push(n)
            } else {
                old(cfg).pins@
            },
            CustomEdit::RemovePin(i) => r is None && final(cfg).pins@ == if i < old(cfg).pins@.len() {
                old(cfg).pins@.remove(i as int)
            } else {
                old(cfg).pins@
            },
            CustomEdit::PickFunction(n, f) => r == Some(PinEdit::Assign(n, f)) && final(cfg).pins@
                == old(cfg).pins@,
        },
{
    match e {
        CustomEdit::AddPin(n) => {
            if !contains_usize(&cfg.pins, n) && !pin_blocked.contains(&n) {
                cfg.pins.push(n);
            }
            None
        },
        CustomEdit::RemovePin(i) => {
            if i < cfg.pins.len() {
                cfg.pins.remove(i);
            }
            None
        },
        CustomEdit::PickFunction(n, f) => Some(PinEdit::Assign(n, f)),
    }
}

} // verus!
