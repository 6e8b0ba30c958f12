//! Devices: named sets of pads that the canvas draws, saves and comments
//! together. A pad belongs to at most one device.

use vstd::prelude::*;
use std::collections::BTreeSet;
use vstd::std_specs::iter::IteratorSpec;
use crate::assign::wired_pads;
use crate::model::{group_live, Mcu, PinGroup};
use crate::modules::VirtualModule;
use crate::text::{blank, is_blank, owned, trim, trimmed_eq};

verus! {

broadcast use vstd::std_specs::btree::group_btree_axioms, vstd::laws_cmp::group_laws_cmp;

/// A device as the spec sees it: its name and its pads.
pub type GroupView = (Seq<char>, Set<usize>);

/// A device as plain values.
pub open spec fn group_view(g: PinGroup) -> GroupView {
    (g.name@, g.pins@)
}

/// The devices as plain values, in roster order.
pub open spec fn groups_view(gs: Seq<PinGroup>) -> Seq<GroupView> {
    gs.map_values(|g: PinGroup| group_view(g))
}

/// Every device with `pin` taken out of it.
pub open spec fn strip_pin(gs: Seq<GroupView>, pin: usize) -> Seq<GroupView> {
    gs.map_values(|g: GroupView| (g.0, g.1.remove(pin)))
}

/// The first device at or after `i` whose name, trimmed, is `name` trimmed.
pub open spec fn named_from(gs: Seq<GroupView>, name: Seq<char>, i: int) -> Option<int>
    decreases gs.len() - i,
{
    if i < 0 || i >= gs.len() {
        None
    } else if trim(gs[i].0) == trim(name) {
        Some(i)
    } else {
        named_from(gs, name, i + 1)
    }
}

/// `pin` added to the device answering to `name` (the first one, when two
/// transiently share it), or to a new device called `name` at the end. A
/// blank name adds the pad nowhere.
pub open spec fn add_to_named(gs: Seq<GroupView>, pin: usize, name: Seq<char>) -> Seq<GroupView> {
    if is_blank(name) {
        gs
    } else {
        match named_from(gs, name, 0) {
            Some(j) => gs.update(j, (gs[j].0, gs[j].1.insert(pin))),
            None => gs.push((name, set![pin])),
        }
    }
}

/// Device `i` of `orig` held `pin` and nothing else, so taking the pad out
/// empties it.
pub open spec fn emptied_by(orig: Seq<GroupView>, pin: usize, i: int) -> bool {
    0 <= i < orig.len() && orig[i].1.contains(pin) && orig[i].1.remove(pin).is_empty()
}

/// The first `n` entries of `s` for which `keep` holds, in order.
pub open spec fn keep_where(s: Seq<GroupView>, keep: spec_fn(int) -> bool, n: int) -> Seq<GroupView>
    decreases n,
{
    if n <= 0 {
        Seq::empty()
    } else if keep(n - 1) {
        keep_where(s, keep, n - 1).push(s[n - 1])
    } else {
        keep_where(s, keep, n - 1)
    }
}

/// The devices after `pin` joins the one called `name`: the pad leaves every
/// device, joins the named one (created if new), and a device this emptied is
/// dropped unless the pad came straight back to it.
pub open spec fn joined(orig: Seq<GroupView>, pin: usize, name: Seq<char>) -> Seq<GroupView> {
    let g2 = add_to_named(strip_pin(orig, pin), pin, name);
    keep_where(g2, join_keep(orig, pin, g2), g2.len() as int)
}

/// Which devices survive a join: all but those the join emptied and left
/// empty.
pub open spec fn join_keep(orig: Seq<GroupView>, pin: usize, g2: Seq<GroupView>) -> spec_fn(
    int,
) -> bool {
    |i: int| !(emptied_by(orig, pin, i) && g2[i].1.is_empty())
}

/// The devices after group `idx` is renamed to `name` when the field is left:
/// onto a name another device answers to, the two merge into that one;
/// otherwise the name is stored verbatim.
pub open spec fn renamed(gs: Seq<GroupView>, idx: int, name: Seq<char>) -> Seq<GroupView> {
    if idx < 0 || idx >= gs.len() {
        gs
    } else {
        match other_named(gs, idx, name, 0) {
            Some(o) => gs.update(o, (gs[o].0, gs[o].1.union(gs[idx].1))).remove(idx),
            None => gs.update(idx, (name, gs[idx].1)),
        }
    }
}

/// The first device at or after `i`, other than `idx`, answering to a
/// non-blank `name`.
pub open spec fn other_named(gs: Seq<GroupView>, idx: int, name: Seq<char>, i: int) -> Option<int>
    decreases gs.len() - i,
{
    if i < 0 || i >= gs.len() || is_blank(name) {
        None
    } else if i != idx && trim(gs[i].0) == trim(name) {
        Some(i)
    } else {
        other_named(gs, idx, name, i + 1)
    }
}

/// The first live device at or after `i` holding `pin`.
pub open spec fn live_holder_from(gs: Seq<PinGroup>, pin: usize, i: int) -> Option<int>
    decreases gs.len() - i,
{
    if i < 0 || i >= gs.len() {
        None
    } else if group_live(gs[i]) && gs[i].pins@.contains(pin) {
        Some(i)
    } else {
        live_holder_from(gs, pin, i + 1)
    }
}

fn union_into(dst: &mut BTreeSet<usize>, src: &BTreeSet<usize>)
    ensures
        final(dst)@ == old(dst)@.union(src@),
{
    let ghost start = dst@;
    let mut v: Vec<usize> = Vec::new();
    let iter = src.iter();
    assert(iter.remaining().unref().to_set() == src@);
    assert(iter.remaining().unref().take(iter.remaining().len() as int) =~= iter.remaining().unref());
    for x in it: iter
        invariant
            v@ == it.seq().unref().take(it.index() as int),
            it.seq().unref().to_set() == src@,
            it.index() <= it.seq().len(),
            it.seq().unref().take(it.seq().len() as int) == it.seq().unref(),
        ensures
            v@.to_set() == src@,
    {
        assert(it.index() < it.seq().len());
        v.push(*x);
        assert(v@ =~= it.seq().unref().take(it.index() + 1));
    }
    let mut i: usize = 0;
    while i < v.len()
        invariant
            i <= v.len(),
            dst@ == start.union(v@.take(i as int).to_set()),
        decreases v.len() - i,
    {
        dst.insert(v[i]);
        assert(v@.take(i + 1) =~= v@.take(i as int).push(v@[i as int]));
        proof {
            v@.take(i as int).lemma_push_to_set_commute(v@[i as int]);
        }
        i = i + 1;
    }
    assert(v@.take(v@.len() as int) =~= v@);
}

/// The devices after every pad of `pins`, in order, joins `name`.
pub open spec fn joined_all(gs: Seq<GroupView>, pins: Seq<usize>, name: Seq<char>) -> Seq<
    GroupView,
>
    decreases pins.len(),
{
    if pins.len() == 0 {
        gs
    } else {
        joined(joined_all(gs, pins.drop_last(), name), pins.last(), name)
    }
}

/// Takes `pin` out of every device; returns, per device, whether that
/// emptied it.
pub(crate) fn strip_groups(groups: &mut Vec<PinGroup>, pin: usize) -> (flags: Vec<bool>)
    ensures
        groups_view(final(groups)@) == strip_pin(groups_view(old(groups)@), pin),
        flags@.len() == old(groups)@.len(),
        forall|j: int|
            0 <= j < flags@.len() ==> flags@[j] == emptied_by(groups_view(old(groups)@), pin, j),
{
    let ghost orig = groups_view(groups@);
    let n = groups.len();
    let mut flags: Vec<bool> = Vec::new();
    let mut i: usize = 0;
    while i < n
        invariant
            n == groups.len(),
            orig == groups_view(old(groups)@),
            orig.len() == n,
            i <= n,
            flags@.len() == i,
            forall|j: int| 0 <= j < i ==> flags@[j] == emptied_by(orig, pin, j),
            forall|j: int|
                0 <= j < i ==> #[trigger] groups_view(groups@)[j] == (
                    orig[j].0,
                    orig[j].1.remove(pin),
                ),
            forall|j: int| i <= j < n ==> #[trigger] groups_view(groups@)[j] == orig[j],
        decreases n - i,
    {
        let ghost before = groups@;
        let mut pins: BTreeSet<usize> = BTreeSet::new();
        std::mem::swap(&mut pins, &mut groups[i].pins);
        let ghost op = pins@;
        let removed = pins.remove(&pin);
        assert(pins@ == op.remove(pin));
        let now_empty = pins.is_empty();
        std::mem::swap(&mut pins, &mut groups[i].pins);
        flags.push(removed && now_empty);
        assert(groups@[i as int].pins@ == op.remove(pin));
        assert(groups@[i as int].name == before[i as int].name);
        assert(groups_view(groups@)[i as int] == group_view(groups@[i as int]));
        assert(groups_view(before)[i as int] == group_view(before[i as int]));
        assert(groups_view(groups@)[i as int] == (orig[i as int].0, orig[i as int].1.remove(pin)));
        assert forall|j: int| 0 <= j < n && j != i implies #[trigger] groups_view(groups@)[j]
            == groups_view(before)[j] by {
            assert(groups@[j] == before[j]);
        }
        i = i + 1;
    }
    assert(groups_view(groups@) =~= strip_pin(orig, pin));
    flags
}

/// Adds `pin` to the device answering to `name`, or to a new one.
fn add_named(groups: &mut Vec<PinGroup>, pin: usize, name: &str)
    ensures
        groups_view(final(groups)@) == add_to_named(groups_view(old(groups)@), pin, name@),
        final(groups)@.len() >= old(groups)@.len(),
{
    let ghost g1 = groups_view(groups@);
    if blank(name) {
        return;
    }
    let mut found: Option<usize> = None;
    let mut k: usize = 0;
    while k < groups.len()
        invariant_except_break
            found is None,
            named_from(g1, name@, 0) == named_from(g1, name@, k as int),
        invariant
            k <= groups.len(),
            g1 == groups_view(groups@),
        ensures
            match found {
                Some(j) => named_from(g1, name@, 0) == Some(j as int) && j < groups.len(),
                None => named_from(g1, name@, 0) is None,
            },
        decreases groups.len() - k,
    {
        if trimmed_eq(groups[k].name.as_str(), name) {
            assert(g1[k as int].0 == groups@[k as int].name@);
            found = Some(k);
            break;
        }
        k = k + 1;
    }
    match found {
        Some(j) => {
            groups[j].pins.insert(pin);
            assert(groups_view(groups@) =~= g1.update(
                j as int,
                (g1[j as int].0, g1[j as int].1.insert(pin)),
            ));
        },
        None => {
            let mut pins: BTreeSet<usize> = BTreeSet::new();
            pins.insert(pin);
            let g = PinGroup { name: owned(name), pins };
            groups.push(g);
            assert(groups_view(groups@) =~= g1.push((name@, set![pin])));
        },
    }
}

/// Drops the devices a join emptied and left empty.
pub(crate) fn drop_emptied(
    groups: &mut Vec<PinGroup>,
    flags: &Vec<bool>,
    Ghost(orig): Ghost<Seq<GroupView>>,
    pin: usize,
)
    requires
        flags@.len() == orig.len(),
        orig.len() <= old(groups)@.len(),
        forall|j: int| 0 <= j < flags@.len() ==> flags@[j] == emptied_by(orig, pin, j),
    ensures
        groups_view(final(groups)@) == keep_where(
            groups_view(old(groups)@),
            join_keep(orig, pin, groups_view(old(groups)@)),
            old(groups)@.len() as int,
        ),
{
    let ghost g2s = groups@;
    let ghost g2 = groups_view(g2s);
    let ghost keep = join_keep(orig, pin, g2);
    let n = flags.len();
    let mut rest: Vec<PinGroup> = Vec::new();
    std::mem::swap(&mut rest, groups);
    let m = rest.len();
    let mut i: usize = 0;
    assert(rest@.subrange(0, m as int) =~= rest@);
    assert(groups_view(groups@) =~= keep_where(g2, keep, 0));
    while i < m
        invariant
            m == g2s.len(),
            n <= m,
            flags@.len() == n,
            orig.len() == n,
            forall|j: int| 0 <= j < n ==> flags@[j] == emptied_by(orig, pin, j),
            i <= m,
            g2 == groups_view(g2s),
            keep == join_keep(orig, pin, g2),
            rest@ == g2s.subrange(i as int, m as int),
            groups_view(groups@) == keep_where(g2, keep, i as int),
        decreases m - i,
    {
        let g = rest.remove(0);
        assert(g == g2s[i as int]);
        assert(rest@ =~= g2s.subrange(i + 1, m as int));
        let dead = i < n && flags[i] && g.pins.is_empty();
        assert(dead == !keep(i as int)) by {
            assert(g2[i as int] == group_view(g2s[i as int]));
            if i >= n {
                assert(!emptied_by(orig, pin, i as int));
            }
        }
        let ghost prev = groups_view(groups@);
        if !dead {
            groups.push(g);
            assert(groups_view(groups@) =~= prev.push(g2[i as int]));
        }
        i = i + 1;
    }
}

/// `f` maps each entry of `keep_where(s, keep, n)` to the source index it
/// came from: distinct, increasing, kept indices, covering every kept one.
pub open spec fn keep_map(s: Seq<GroupView>, keep: spec_fn(int) -> bool, n: int, f: spec_fn(int) -> int) -> bool {
    let kw = keep_where(s, keep, n);
    &&& forall|r: int| 0 <= r < kw.len() ==> 0 <= #[trigger] f(r) < n && keep(f(r)) && kw[r] == s[f(r)]
    &&& forall|r1: int, r2: int| 0 <= r1 < r2 < kw.len() ==> #[trigger] f(r1) < #[trigger] f(r2)
    &&& forall|i: int|
        0 <= i < n && #[trigger] keep(i) ==> exists|r: int| 0 <= r < kw.len() && #[trigger] f(r) == i
}

/// `keep_where` keeps entries in order: each kept entry comes from a distinct,
/// increasing source index whose entry was kept, and every kept source index
/// appears.
pub proof fn lemma_keep_where_index(s: Seq<GroupView>, keep: spec_fn(int) -> bool, n: int)
    requires
        0 <= n <= s.len(),
    ensures
        exists|f: spec_fn(int) -> int| #[trigger] keep_map(s, keep, n, f),
    decreases n,
{
    if n == 0 {
        let f = |r: int| 0int;
        assert(keep_where(s, keep, n).len() == 0);
        assert(keep_map(s, keep, n, f));
    } else {
        lemma_keep_where_index(s, keep, n - 1);
        let prev = keep_where(s, keep, n - 1);
        let f0 = choose|f: spec_fn(int) -> int| #[trigger] keep_map(s, keep, n - 1, f);
        if keep(n - 1) {
            let f = |r: int|
                if r == prev.len() {
                    n - 1
                } else {
                    f0(r)
                };
            let kw = keep_where(s, keep, n);
            assert(kw == prev.push(s[n - 1]));
            assert forall|i: int| 0 <= i < n && #[trigger] keep(i) implies exists|r: int|
                0 <= r < kw.len() && #[trigger] f(r) == i by {
                if i == n - 1 {
                    assert(f(prev.len() as int) == i);
                } else {
                    let r = choose|r: int| 0 <= r < prev.len() && #[trigger] f0(r) == i;
                    assert(f(r) == i);
                }
            }
            assert forall|r1: int, r2: int| 0 <= r1 < r2 < kw.len() implies #[trigger] f(r1)
                < #[trigger] f(r2) by {
                if r2 < prev.len() {
                    assert(f0(r1) < f0(r2));
                }
            }
            assert(keep_map(s, keep, n, f));
        } else {
            assert(keep_where(s, keep, n) == prev);
            assert forall|i: int| 0 <= i < n && #[trigger] keep(i) implies exists|r: int|
                0 <= r < prev.len() && #[trigger] f0(r) == i by {}
            assert(keep_map(s, keep, n, f0));
        }
    }
}

/// The devices holding `pin`, by index.
pub open spec fn holds(gs: Seq<GroupView>, k: int, pin: usize) -> bool {
    0 <= k < gs.len() && gs[k].1.contains(pin)
}

/// Where a join puts the pad before empty devices are dropped: nowhere (-1)
/// for a blank name, else the device answering to the name, or a new last one.
pub open spec fn join_target(orig: Seq<GroupView>, pin: usize, name: Seq<char>) -> int {
    if is_blank(name) {
        -1
    } else {
        match named_from(strip_pin(orig, pin), name, 0) {
            Some(x) => x,
            None => orig.len() as int,
        }
    }
}

/// The devices of a join before empty ones are dropped.
pub open spec fn join_added(orig: Seq<GroupView>, pin: usize, name: Seq<char>) -> Seq<GroupView> {
    add_to_named(strip_pin(orig, pin), pin, name)
}

proof fn lemma_join_setup(orig: Seq<GroupView>, pin: usize, name: Seq<char>)
    ensures
        ({
            let g2 = join_added(orig, pin, name);
            let t = join_target(orig, pin, name);
            &&& orig.len() <= g2.len() <= orig.len() + 1
            &&& is_blank(name) ==> t == -1
            &&& !is_blank(name) ==> 0 <= t < g2.len() && trim(g2[t].0) == trim(name)
            &&& forall|i: int| 0 <= i < g2.len() ==> (#[trigger] g2[i].1.contains(pin) <==> i == t)
            &&& forall|i: int|
                0 <= i < orig.len() ==> #[trigger] g2[i].0 == orig[i].0 && (forall|q: usize|
                    q != pin ==> (g2[i].1.contains(q) <==> orig[i].1.contains(q)))
            &&& g2.len() > orig.len() ==> g2[orig.len() as int].1 == set![pin]
            &&& forall|i: int|
                0 <= i < orig.len() && !orig[i].1.contains(pin) ==> (#[trigger] g2[i]).1.remove(pin)
                    == orig[i].1
        }),
{
    let g1 = strip_pin(orig, pin);
    let g2 = join_added(orig, pin, name);
    let t = join_target(orig, pin, name);
    lemma_named_from(g1, name, 0);
    assert forall|i: int| 0 <= i < g2.len() implies (#[trigger] g2[i].1.contains(pin) <==> i
        == t) by {
        if i < orig.len() && i != t {
            assert(g2[i] == g1[i]);
        }
    }
    assert forall|i: int|
        0 <= i < orig.len() && !orig[i].1.contains(pin) implies (#[trigger] g2[i]).1.remove(pin)
        == orig[i].1 by {
        assert(orig[i].1.remove(pin) =~= orig[i].1);
        if i == t {
            assert(g2[i].1.remove(pin) =~= orig[i].1);
        } else {
            assert(g2[i] == g1[i]);
        }
    }
    assert forall|i: int| 0 <= i < orig.len() implies #[trigger] g2[i].0 == orig[i].0 && (forall|
        q: usize,
    | q != pin ==> (g2[i].1.contains(q) <==> orig[i].1.contains(q))) by {
        if i != t {
            assert(g2[i] == g1[i]);
        }
    }
}

/// The source-index map of a join's survivors.
pub open spec fn join_map(orig: Seq<GroupView>, pin: usize, name: Seq<char>) -> spec_fn(int) -> int {
    let g2 = join_added(orig, pin, name);
    choose|f: spec_fn(int) -> int| #[trigger] keep_map(g2, join_keep(orig, pin, g2), g2.len() as int, f)
}

proof fn lemma_join_map(orig: Seq<GroupView>, pin: usize, name: Seq<char>)
    ensures
        ({
            let g2 = join_added(orig, pin, name);
            &&& joined(orig, pin, name) == keep_where(g2, join_keep(orig, pin, g2), g2.len() as int)
            &&& keep_map(g2, join_keep(orig, pin, g2), g2.len() as int, join_map(orig, pin, name))
        }),
{
    let g2 = join_added(orig, pin, name);
    lemma_keep_where_index(g2, join_keep(orig, pin, g2), g2.len() as int);
}

/// After a join the pad is in at most one device: a pad belongs to one device
/// at a time. With a blank name it is in none; otherwise it is in one that
/// answers to the name.
pub proof fn lemma_join_one_device(orig: Seq<GroupView>, pin: usize, name: Seq<char>)
    ensures
        ({
            let j = joined(orig, pin, name);
            &&& forall|a: int, b: int| holds(j, a, pin) && holds(j, b, pin) ==> a == b
            &&& is_blank(name) ==> forall|a: int| !holds(j, a, pin)
            &&& !is_blank(name) ==> exists|a: int| holds(j, a, pin) && trim(j[a].0) == trim(name)
        }),
{
    lemma_join_setup(orig, pin, name);
    lemma_join_map(orig, pin, name);
    let g2 = join_added(orig, pin, name);
    let keep = join_keep(orig, pin, g2);
    let j = joined(orig, pin, name);
    let f = join_map(orig, pin, name);
    let t = join_target(orig, pin, name);
    assert forall|a: int, b: int| holds(j, a, pin) && holds(j, b, pin) implies a == b by {
        assert(g2[f(a)].1.contains(pin));
        assert(g2[f(b)].1.contains(pin));
        if a < b {
            assert(f(a) < f(b));
        } else if b < a {
            assert(f(b) < f(a));
        }
    }
    assert forall|a: int| is_blank(name) implies !holds(j, a, pin) by {
        if holds(j, a, pin) {
            assert(g2[f(a)].1.contains(pin));
        }
    }
    if !is_blank(name) {
        assert(g2[t].1.contains(pin));
        assert(keep(t));
        let r = choose|r: int| 0 <= r < j.len() && #[trigger] f(r) == t;
        assert(holds(j, r, pin) && trim(j[r].0) == trim(name));
    }
}

/// A device that did not hold the pad survives a join, with its name and its
/// pads (a device the user has not filled yet is not swept up).
pub proof fn lemma_join_keeps_others(orig: Seq<GroupView>, pin: usize, name: Seq<char>)
    ensures
        ({
            let j = joined(orig, pin, name);
            forall|i: int|
                0 <= i < orig.len() && !orig[i].1.contains(pin) ==> exists|r: int|
                    0 <= r < j.len() && j[r].0 == orig[i].0 && j[r].1.remove(pin) == orig[i].1
        }),
{
    lemma_join_setup(orig, pin, name);
    lemma_join_map(orig, pin, name);
    let g2 = join_added(orig, pin, name);
    let keep = join_keep(orig, pin, g2);
    let j = joined(orig, pin, name);
    let f = join_map(orig, pin, name);
    assert forall|i: int|
        0 <= i < orig.len() && !orig[i].1.contains(pin) implies exists|r: int|
        0 <= r < j.len() && j[r].0 == orig[i].0 && j[r].1.remove(pin) == orig[i].1 by {
        assert(!emptied_by(orig, pin, i));
        assert(keep(i));
        let r = choose|r: int| 0 <= r < j.len() && #[trigger] f(r) == i;
        assert(j[r] == g2[i]);
        assert(g2[i].0 == orig[i].0);
    }
}

/// Every other pad keeps exactly the devices, by name, it was in.
pub proof fn lemma_join_other_pads(orig: Seq<GroupView>, pin: usize, name: Seq<char>)
    ensures
        ({
            let j = joined(orig, pin, name);
            &&& forall|q: usize, i: int|
                q != pin && holds(orig, i, q) ==> exists|r: int| holds(j, r, q) && j[r].0 == orig[i].0
            &&& forall|q: usize, r: int|
                q != pin && holds(j, r, q) ==> exists|i: int| holds(orig, i, q) && orig[i].0 == j[r].0
        }),
{
    lemma_join_setup(orig, pin, name);
    lemma_join_map(orig, pin, name);
    let g2 = join_added(orig, pin, name);
    let keep = join_keep(orig, pin, g2);
    let j = joined(orig, pin, name);
    let f = join_map(orig, pin, name);
    assert forall|q: usize, i: int| q != pin && holds(orig, i, q) implies exists|r: int|
        holds(j, r, q) && j[r].0 == orig[i].0 by {
        assert(g2[i].0 == orig[i].0);
        assert(g2[i].1.contains(q));
        assert(keep(i));
        let r = choose|r: int| 0 <= r < j.len() && #[trigger] f(r) == i;
        assert(holds(j, r, q));
    }
    assert forall|q: usize, r: int| q != pin && holds(j, r, q) implies exists|i: int|
        holds(orig, i, q) && orig[i].0 == j[r].0 by {
        let i = f(r);
        assert(g2[i].1.contains(q));
        if i < orig.len() {
            assert(g2[i].0 == orig[i].0);
            assert(holds(orig, i, q));
        } else {
            assert(g2[i].1 == set![pin]);
        }
    }
}

/// The device a name lookup finds answers to the name, and none before it
/// does.
pub proof fn lemma_named_from(gs: Seq<GroupView>, name: Seq<char>, i: int)
    requires
        0 <= i,
    ensures
        named_from(gs, name, i) matches Some(k) ==> i <= k < gs.len() && trim(gs[k].0) == trim(
            name,
        ),
        named_from(gs, name, i) is None ==> forall|k: int|
            i <= k < gs.len() ==> trim(gs[k].0) != trim(name),
    decreases gs.len() - i,
{
    if i < gs.len() {
        lemma_named_from(gs, name, i + 1);
    }
}

impl Mcu {
    /// The group a pad belongs to, if any: the first LIVE device holding it
    /// (a device with no name yet marks nothing).
    pub fn group_of_pin(&self, pin: usize) -> (r: Option<&PinGroup>)
        ensures
            r matches Some(g) ==> live_holder_from(self.groups@, pin, 0) matches Some(i) && *g
                == self.groups@[i],
            r is None ==> live_holder_from(self.groups@, pin, 0) is None,
    {
        let mut i: usize = 0;
        while i < self.groups.len()
            invariant
                i <= self.groups.len(),
                live_holder_from(self.groups@, pin, 0) == live_holder_from(
                    self.groups@,
                    pin,
                    i as int,
                ),
            decreases self.groups.len() - i,
        {
            let g = &self.groups[i];
            if !blank(g.name.as_str()) && g.pins.contains(&pin) {
                return Some(g);
            }
            i = i + 1;
        }
        None
    }

    /// Start an empty device, named by the roster. It holds nothing yet, so it
    /// is not saved and reaches no generated comment.
    pub fn new_group(&mut self, name: String)
        ensures
            groups_view(final(self).groups@) == groups_view(old(self).groups@).push(
                (name@, Set::<usize>::empty()),
            ),
            *final(self) == (Mcu { groups: final(self).groups, ..*old(self) }),
    {
        let g = PinGroup { name, pins: BTreeSet::new() };
        let ghost prev = self.groups@;
        self.groups.push(g);
        assert(groups_view(self.groups@) =~= groups_view(prev).push(
            (name@, Set::<usize>::empty()),
        ));
    }

    /// Set group `idx`'s name without ever merging: what the roster calls
    /// while its field still has focus.
    pub fn set_group_name(&mut self, idx: usize, name: &str)
        ensures
            groups_view(final(self).groups@) == if idx < old(self).groups@.len() {
                groups_view(old(self).groups@).update(
                    idx as int,
                    (name@, old(self).groups@[idx as int].pins@),
                )
            } else {
                groups_view(old(self).groups@)
            },
            *final(self) == (Mcu { groups: final(self).groups, ..*old(self) }),
    {
        if idx < self.groups.len() {
            let ghost prev = self.groups@;
            self.groups[idx].name = owned(name);
            assert(groups_view(self.groups@) =~= groups_view(prev).update(
                idx as int,
                (name@, prev[idx as int].pins@),
            ));
        }
    }

    /// Rename group `idx`, merging onto a name another device answers to.
    /// Called when the roster's field is left, never while it is typed in.
    #[verifier::rlimit(40)]
    pub fn rename_group(&mut self, idx: usize, name: &str)
        ensures
            groups_view(final(self).groups@) == renamed(
                groups_view(old(self).groups@),
                idx as int,
                name@,
            ),
            *final(self) == (Mcu { groups: final(self).groups, ..*old(self) }),
    {
        let ghost gv = groups_view(self.groups@);
        if idx >= self.groups.len() {
            return;
        }
        let is_blank_name = blank(name);
        let mut other: Option<usize> = None;
        let mut k: usize = 0;
        while k < self.groups.len()
            invariant_except_break
                other is None,
                other_named(gv, idx as int, name@, 0) == other_named(
                    gv,
                    idx as int,
                    name@,
                    k as int,
                ),
            invariant
                k <= self.groups.len(),
                gv == groups_view(self.groups@),
                idx < self.groups.len(),
                is_blank_name == is_blank(name@),
            ensures
                match other {
                    Some(o) => other_named(gv, idx as int, name@, 0) == Some(o as int) && o
                        < self.groups.len() && o != idx,
                    None => other_named(gv, idx as int, name@, 0) is None,
                },
            decreases self.groups.len() - k,
        {
            if !is_blank_name && k != idx && trimmed_eq(self.groups[k].name.as_str(), name) {
                assert(gv[k as int].0 == self.groups@[k as int].name@);
                other = Some(k);
                break;
            }
            k = k + 1;
        }
        match other {
            Some(o) => {
                let ghost prev = self.groups@;
                let mut moved: BTreeSet<usize> = BTreeSet::new();
                std::mem::swap(&mut moved, &mut self.groups[idx].pins);
                union_into(&mut self.groups[o].pins, &moved);
                self.groups.remove(idx);
                assert(groups_view(self.groups@) =~= gv.update(
                    o as int,
                    (gv[o as int].0, gv[o as int].1.union(gv[idx as int].1)),
                ).remove(idx as int));
            },
            None => {
                let ghost prev = self.groups@;
                self.groups[idx].name = owned(name);
                assert(groups_view(self.groups@) =~= gv.update(idx as int, (name@, gv[idx as int].1)));
            },
        }
    }

    /// Put `pin` in the group called `name`, creating it if it is new. An
    /// empty name is how a pad leaves its group. A device that gave this pad up
    /// and has nothing left is dropped; one the user created and has not filled
    /// yet survives.
    pub fn join_group(&mut self, pin: usize, name: &str)
        ensures
            groups_view(final(self).groups@) == joined(groups_view(old(self).groups@), pin, name@),
            *final(self) == (Mcu { groups: final(self).groups, ..*old(self) }),
    {
        let ghost orig = groups_view(self.groups@);
        let flags = strip_groups(&mut self.groups, pin);
        add_named(&mut self.groups, pin, name);
        let ghost g2 = groups_view(self.groups@);
        drop_emptied(&mut self.groups, &flags, Ghost(orig), pin);
    }

    /// Put every pad of `m` in `name` at once - the gesture the panel offers
    /// on a module, since grouping "the UART" means its pads, not one of them.
    pub fn join_group_module(&mut self, m: &VirtualModule, name: &str)
        ensures
            groups_view(final(self).groups@) == joined_all(
                groups_view(old(self).groups@),
                wired_pads(m.connections@),
                name@,
            ),
            *final(self) == (Mcu { groups: final(self).groups, ..*old(self) }),
    {
        let ghost pads = wired_pads(m.connections@);
        let mut i: usize = 0;
        while i < m.connections.len()
            invariant
                i <= m.connections@.len(),
                pads == wired_pads(m.connections@),
                groups_view(self.groups@) == joined_all(
                    groups_view(old(self).groups@),
                    pads.subrange(0, i as int),
                    name@,
                ),
                *self == (Mcu { groups: self.groups, ..*old(self) }),
            decreases m.connections@.len() - i,
        {
            assert(pads.subrange(0, i + 1).drop_last() =~= pads.subrange(0, i as int));
            self.join_group(m.connections[i].mcu_pin, name);
            i = i + 1;
        }
        assert(pads.subrange(0, pads.len() as int) =~= pads);
    }

    /// The group a MODULE belongs to: the one holding any of its pads - the
    /// first wire, in order, whose pad is in a live device.
    pub fn group_of_module(&self, m: &VirtualModule) -> (r: Option<&PinGroup>)
        ensures
            r matches Some(g) ==> module_holder(self.groups@, wired_pads(m.connections@), 0) matches Some(
                i,
            ) && *g == self.groups@[i],
            r is None ==> module_holder(self.groups@, wired_pads(m.connections@), 0) is None,
    {
        let ghost pads = wired_pads(m.connections@);
        let mut c: usize = 0;
        while c < m.connections.len()
            invariant
                c <= m.connections@.len(),
                pads == wired_pads(m.connections@),
                module_holder(self.groups@, pads, 0) == module_holder(self.groups@, pads, c as int),
            decreases m.connections@.len() - c,
        {
            match self.group_of_pin(m.connections[c].mcu_pin) {
                Some(g) => {
                    return Some(g);
                },
                None => {},
            }
            c = c + 1;
        }
        None
    }
}

/// The live device holding the first pad, at or after wire `c`, that any
/// live device holds.
pub open spec fn module_holder(gs: Seq<PinGroup>, pads: Seq<usize>, c: int) -> Option<int>
    decreases pads.len() - c,
{
    if c < 0 || c >= pads.len() {
        None
    } else {
        match live_holder_from(gs, pads[c], 0) {
            Some(i) => Some(i),
            None => module_holder(gs, pads, c + 1),
        }
    }
}

/// Renaming a device onto a name another device answers to merges the two:
/// one device fewer, and the one answering to the name holds the pads of
/// both. Onto a free (or blank) name, the device keeps its pads and takes the
/// name verbatim.
pub proof fn lemma_rename_merges(gs: Seq<GroupView>, idx: int, name: Seq<char>)
    requires
        0 <= idx < gs.len(),
    ensures
        other_named(gs, idx, name, 0) matches Some(o) ==> {
            let r = renamed(gs, idx, name);
            &&& r.len() == gs.len() - 1
            &&& r.contains((gs[o].0, gs[o].1.union(gs[idx].1)))
            &&& trim(gs[o].0) == trim(name)
        },
        other_named(gs, idx, name, 0) is None ==> renamed(gs, idx, name) == gs.update(
            idx,
            (name, gs[idx].1),
        ),
{
    lemma_other_named(gs, idx, name, 0);
    if let Some(o) = other_named(gs, idx, name, 0) {
        let merged = gs.update(o, (gs[o].0, gs[o].1.union(gs[idx].1)));
        let r = merged.remove(idx);
        if o < idx {
            assert(r[o] == merged[o]);
        } else {
            assert(r[o - 1] == merged[o]);
        }
    }
}

proof fn lemma_other_named(gs: Seq<GroupView>, idx: int, name: Seq<char>, i: int)
    requires
        0 <= i,
    ensures
        other_named(gs, idx, name, i) matches Some(o) ==> i <= o < gs.len() && o != idx && trim(gs[o].0)
            == trim(name),
    decreases gs.len() - i,
{
    if i < gs.len() {
        lemma_other_named(gs, idx, name, i + 1);
    }
}


/// Every pad is in at most one device.
pub open spec fn one_device_per_pad(gs: Seq<GroupView>) -> bool {
    forall|q: usize, a: int, b: int| holds(gs, a, q) && holds(gs, b, q) ==> a == b
}

/// A join keeps every pad in at most one device: the joined pad ends in at
/// most one, and every other pad in no more devices than before.
pub proof fn lemma_join_keeps_one_device_per_pad(orig: Seq<GroupView>, pin: usize, name: Seq<char>)
    requires
        one_device_per_pad(orig),
    ensures
        one_device_per_pad(joined(orig, pin, name)),
{
    lemma_join_one_device(orig, pin, name);
    lemma_join_setup(orig, pin, name);
    lemma_join_map(orig, pin, name);
    let g2 = join_added(orig, pin, name);
    let j = joined(orig, pin, name);
    let f = join_map(orig, pin, name);
    assert forall|q: usize, a: int, b: int| holds(j, a, q) && holds(j, b, q) implies a == b by {
        if q != pin {
            assert(g2[f(a)].1.contains(q));
            assert(g2[f(b)].1.contains(q));
            if f(a) >= orig.len() {
                assert(g2[f(a)].1 == set![pin]);
            }
            if f(b) >= orig.len() {
                assert(g2[f(b)].1 == set![pin]);
            }
            let fa = f(a);
            let fb = f(b);
            assert(g2[fa].0 == orig[fa].0);
            assert(g2[fb].0 == orig[fb].0);
            assert(orig[fa].1.contains(q));
            assert(orig[fb].1.contains(q));
            assert(holds(orig, fa, q));
            assert(holds(orig, fb, q));
            if a < b {
                assert(f(a) < f(b));
            } else if b < a {
                assert(f(b) < f(a));
            }
        }
    }
}

/// A rename keeps every pad in at most one device: a merge pours the renamed
/// device's pads into the other one and drops it, so no pad gains a device.
pub proof fn lemma_rename_keeps_one_device_per_pad(gs: Seq<GroupView>, idx: int, name: Seq<char>)
    requires
        one_device_per_pad(gs),
    ensures
        one_device_per_pad(renamed(gs, idx, name)),
{
    if 0 <= idx < gs.len() {
        lemma_other_named(gs, idx, name, 0);
        let r = renamed(gs, idx, name);
        match other_named(gs, idx, name, 0) {
            Some(o) => {
                let u = gs.update(o, (gs[o].0, gs[o].1.union(gs[idx].1)));
                assert forall|q: usize, a: int, b: int| holds(r, a, q) && holds(r, b, q) implies a
                    == b by {
                    let a2 = if a < idx {
                        a
                    } else {
                        a + 1
                    };
                    let b2 = if b < idx {
                        b
                    } else {
                        b + 1
                    };
                    assert(r[a] == u[a2]);
                    assert(r[b] == u[b2]);
                    if a2 != o {
                        assert(holds(gs, a2, q));
                    }
                    if b2 != o {
                        assert(holds(gs, b2, q));
                    }
                    if a2 == o && b2 != o {
                        if gs[o].1.contains(q) {
                            assert(holds(gs, o, q));
                        } else {
                            assert(holds(gs, idx, q));
                        }
                    }
                    if b2 == o && a2 != o {
                        if gs[o].1.contains(q) {
                            assert(holds(gs, o, q));
                        } else {
                            assert(holds(gs, idx, q));
                        }
                    }
                }
            },
            None => {
                assert forall|q: usize, a: int, b: int| holds(r, a, q) && holds(r, b, q) implies a
                    == b by {
                    assert(holds(gs, a, q));
                    assert(holds(gs, b, q));
                }
            },
        }
    }
}


/// Putting a module's pads in a device keeps every pad in at most one device.
pub proof fn lemma_join_all_keeps_one_device_per_pad(gs: Seq<GroupView>, pins: Seq<usize>, name: Seq<char>)
    requires
        one_device_per_pad(gs),
    ensures
        one_device_per_pad(joined_all(gs, pins, name)),
    decreases pins.len(),
{
    if pins.len() > 0 {
        lemma_join_all_keeps_one_device_per_pad(gs, pins.drop_last(), name);
        lemma_join_keeps_one_device_per_pad(joined_all(gs, pins.drop_last(), name), pins.last(), name);
    }
}

} // verus!
