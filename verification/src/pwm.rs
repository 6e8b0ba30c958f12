//! What the module panel offers for a timer's channels and a signal's pads:
//! derived from the chip's own pin-function table, never from a fixed list.

use vstd::prelude::*;
use std::collections::{BTreeSet, HashMap};
use vstd::std_specs::iter::IteratorSpec;
use crate::canvas::moves_as_group;
use crate::pins::PinFunction;
use crate::naming::views;
use crate::text::{
    char_views, chars_eq, dec, insert_sorted_chars, lex_sorted, push_dec, push_str, str_chars,
    string_of,
};

verus! {

broadcast use vstd::std_specs::hash::group_hash_axioms, vstd::std_specs::btree::group_btree_axioms, vstd::laws_cmp::group_laws_cmp;

// ── Parsing a channel label ─────────────────────────────────────────────────

/// The value of a string of decimal digits.
pub open spec fn digits_value(d: Seq<char>) -> nat
    decreases d.len(),
{
    if d.len() == 0 {
        0
    } else {
        digits_value(d.drop_last()) * 10 + ((d.last() as u32) - 48) as nat
    }
}

/// Every character of `d` is a decimal digit.
pub open spec fn all_digits(d: Seq<char>) -> bool {
    forall|i: int| 0 <= i < d.len() ==> '0' <= #[trigger] d[i] <= '9'
}

/// What `u8::from_str` accepts: an optional `+`, then one or more decimal
/// digits whose value fits in a byte.
pub open spec fn parse_u8(s: Seq<char>) -> Option<u8> {
    let d = if s.len() > 0 && s[0] == '+' {
        s.drop_first()
    } else {
        s
    };
    if d.len() > 0 && all_digits(d) && digits_value(d) <= 255 {
        Some(digits_value(d) as u8)
    } else {
        None
    }
}

/// A plain channel label: `CH` then a byte (`"CH3"` → 3). `CH3N`, `BKIN` and
/// every non-PWM signal are not.
pub open spec fn plain_channel(sig: Seq<char>) -> Option<u8> {
    if sig.len() >= 2 && sig[0] == 'C' && sig[1] == 'H' {
        parse_u8(sig.subrange(2, sig.len() as int))
    } else {
        None
    }
}

/// Parses `v[from..]` as `u8::from_str` would.
fn parse_u8_from(v: &Vec<char>, from: usize) -> (r: Option<u8>)
    requires
        from <= v.len(),
    ensures
        r == parse_u8(v@.subrange(from as int, v@.len() as int)),
{
    let ghost s = v@.subrange(from as int, v@.len() as int);
    let mut start = from;
    if start < v.len() && v[start] == '+' {
        start = start + 1;
    }
    let ghost d = v@.subrange(start as int, v@.len() as int);
    assert(d =~= if s.len() > 0 && s[0] == '+' {
        s.drop_first()
    } else {
        s
    });
    if start >= v.len() {
        return None;
    }
    let mut acc: u32 = 0;
    let mut i = start;
    while i < v.len()
        invariant
            from <= start <= i <= v.len(),
            start < v.len(),
            d == v@.subrange(start as int, v@.len() as int),
            parse_u8(v@.subrange(from as int, v@.len() as int)) == (if all_digits(d)
                && digits_value(d) <= 255 {
                Some(digits_value(d) as u8)
            } else {
                None
            }),
            all_digits(v@.subrange(start as int, i as int)),
            acc as nat == if digits_value(v@.subrange(start as int, i as int)) < 256 {
                digits_value(v@.subrange(start as int, i as int))
            } else {
                256
            },
        decreases v.len() - i,
    {
        let c = v[i];
        if c < '0' || c > '9' {
            assert(d[i - start] == c);
            assert(!('0' <= d[i - start] <= '9'));
            assert(!all_digits(d));
            return None;
        }
        let ghost p = v@.subrange(start as int, i + 1);
        assert(p.drop_last() =~= v@.subrange(start as int, i as int));
        let dig = (c as u32) - 48;
        let next = acc * 10 + dig;
        acc = if next < 256 {
            next
        } else {
            256
        };
        i = i + 1;
    }
    assert(v@.subrange(start as int, v@.len() as int) =~= d);
    if acc <= 255 {
        Some(acc as u8)
    } else {
        None
    }
}

/// `"CH3"` -> `Some(3)`; `None` for `CH3N`, `BKIN` and every non-PWM signal.
///
/// The complementary pad is deliberately excluded: it is welded to its channel
/// on every part that has one, so there is nothing to choose.
pub fn pwm_plain_channel(sig: &str) -> (r: Option<u8>)
    ensures
        r == plain_channel(sig@),
{
    let v = str_chars(sig);
    if v.len() >= 2 && v[0] == 'C' && v[1] == 'H' {
        parse_u8_from(&v, 2)
    } else {
        None
    }
}

// ── Channel pickers ─────────────────────────────────────────────────────────

/// The timers whose complementary outputs and break input embassy can drive:
/// TIM1, TIM8 and TIM20.
pub open spec fn advanced_timer(t: u8) -> bool {
    t == 1 || t == 8 || t == 20
}

/// Whether embassy can drive timer `t`'s complementary and break pads
/// (`ComplementaryPwm` covers TIM1, TIM8 and TIM20).
pub fn is_advanced_timer(t: u8) -> (r: bool)
    ensures
        r == advanced_timer(t),
{
    t == 1 || t == 8 || t == 20
}

/// The functions pad `pin` can carry, by the chip's map of pads.
pub open spec fn funcs_of(m: Map<usize, Vec<PinFunction>>, pin: usize) -> Seq<PinFunction> {
    if m.contains_key(pin) {
        m[pin]@
    } else {
        Seq::empty()
    }
}

/// `table` lists the pads of `m`, each once, with its functions.
pub open spec fn lists(table: Seq<(usize, Vec<PinFunction>)>, m: Map<usize, Vec<PinFunction>>) -> bool {
    &&& forall|i: int|
        0 <= i < table.len() ==> m.contains_key(#[trigger] table[i].0) && m[table[i].0]@ == table[i].1@
    &&& forall|n: usize| m.contains_key(n) ==> exists|i: int| 0 <= i < table.len() && #[trigger] table[i].0 == n
    &&& forall|i: int, j: int| 0 <= i < j < table.len() ==> #[trigger] table[i].0 != #[trigger] table[j].0
}

fn copy_funcs(v: &Vec<PinFunction>) -> (r: Vec<PinFunction>)
    ensures
        r@ == v@,
{
    let mut r: Vec<PinFunction> = Vec::new();
    let mut i: usize = 0;
    while i < v.len()
        invariant
            i <= v.len(),
            r@ == v@.subrange(0, i as int),
        decreases v.len() - i,
    {
        r.push(v[i]);
        i = i + 1;
        assert(r@ =~= v@.subrange(0, i as int));
    }
    assert(r@ =~= v@);
    r
}

/// The pads of `m` with their functions, as a list.
pub(crate) fn table_entries(m: &HashMap<usize, Vec<PinFunction>>) -> (r: Vec<(usize, Vec<PinFunction>)>)
    ensures
        lists(r@, m@),
{
    let mut r: Vec<(usize, Vec<PinFunction>)> = Vec::new();
    let ghost all: Seq<usize> = vstd::std_specs::hash::spec_keys_iter(m).remaining().unref();
    let ghost mut seen: Seq<usize> = Seq::empty();
    for k in it: m.keys()
        invariant
            all == it.seq().unref(),
            all.to_set() == m@.dom(),
            all.no_duplicates(),
            seen == all.take(it.index() as int),
            r@.len() == seen.len(),
            forall|i: int| 0 <= i < r@.len() ==> #[trigger] r@[i].0 == seen[i],
            forall|i: int|
                0 <= i < r@.len() ==> m@.contains_key(#[trigger] r@[i].0) && m@[r@[i].0]@ == r@[i].1@,
    {
        let n = *k;
        proof {
            assert(n == all[it.index() as int]);
            assert(all.to_set().contains(n));
        }
        match m.get(&n) {
            Some(v) => {
                let ghost old_r = r@;
                r.push((n, copy_funcs(v)));
                proof {
                    let old_seen = seen;
                    seen = old_seen.push(n);
                    assert(seen =~= all.take(it.index() + 1));
                    assert forall|i: int|
                        0 <= i < r@.len() implies m@.contains_key(#[trigger] r@[i].0) && m@[r@[i].0]@
                            == r@[i].1@ by {
                        if i < old_r.len() {
                            assert(r@[i] == old_r[i]);
                        }
                    }
                    assert forall|i: int| 0 <= i < r@.len() implies #[trigger] r@[i].0 == seen[i] by {
                        if i < old_r.len() {
                            assert(r@[i] == old_r[i]);
                        }
                    }
                }
            },
            None => {
                proof {
                    assert(false);
                }
            },
        }
    }
    proof {
        assert(seen =~= all);
        assert forall|n: usize| m@.contains_key(n) implies exists|i: int| 0 <= i < r@.len() && #[trigger] r@[i].0 == n by {
            assert(all.to_set().contains(n));
            let i = choose|i: int| 0 <= i < all.len() && all[i] == n;
            assert(r@[i].0 == n);
        }
        assert forall|i: int, j: int| 0 <= i < j < r@.len() implies #[trigger] r@[i].0 != #[trigger] r@[j].0 by {
            assert(r@[i].0 == all[i]);
            assert(r@[j].0 == all[j]);
        }
    }
    r
}

/// Whether `fns` holds channel `c` of `timer`.
pub open spec fn drives_channel(fns: Seq<PinFunction>, timer: u8, c: u8) -> bool {
    fns.contains(PinFunction::TimerPwm { timer, channel: c })
}

pub(crate) fn has_function(fns: &Vec<PinFunction>, f: PinFunction) -> (r: bool)
    ensures
        r == fns@.contains(f),
{
    let mut i: usize = 0;
    while i < fns.len()
        invariant
            i <= fns.len(),
            forall|k: int| 0 <= k < i ==> fns@[k] != f,
        decreases fns.len() - i,
    {
        if fns[i] == f {
            return true;
        }
        i = i + 1;
    }
    false
}

/// A strictly increasing sequence.
pub open spec fn increasing_u8(s: Seq<u8>) -> bool {
    forall|i: int, j: int| 0 <= i < j < s.len() ==> s[i] < s[j]
}

/// Which channels of `timer` this PAD could drive, the one it drives now
/// included, minus those in `taken` (another pad of the same timer already
/// drives them). In increasing order, each once.
pub fn pwm_channel_choices(
    timer: u8,
    pin: usize,
    pin_funcs: &HashMap<usize, Vec<PinFunction>>,
    taken: &BTreeSet<u8>,
) -> (r: Vec<u8>)
    ensures
        increasing_u8(r@),
        forall|c: u8|
            r@.contains(c) <==> drives_channel(funcs_of(pin_funcs@, pin), timer, c)
                && !taken@.contains(c),
{
    let mut out: Vec<u8> = Vec::new();
    let fns = match pin_funcs.get(&pin) {
        Some(v) => v,
        None => {
            assert forall|c: u8|
                out@.contains(c) <==> drives_channel(funcs_of(pin_funcs@, pin), timer, c)
                    && !taken@.contains(c) by {}
            return out;
        },
    };
    let mut c: u16 = 0;
    while c < 256
        invariant
            c <= 256,
            fns@ == funcs_of(pin_funcs@, pin),
            increasing_u8(out@),
            forall|i: int| 0 <= i < out@.len() ==> (out@[i] as u16) < c,
            forall|x: u8|
                (x as u16) < c ==> (out@.contains(x) <==> drives_channel(fns@, timer, x)
                    && !taken@.contains(x)),
        decreases 256 - c,
    {
        let ch = c as u8;
        let ghost before = out@;
        let pick = has_function(fns, PinFunction::TimerPwm { timer, channel: ch }) && !taken.contains(
            &ch,
        );
        if pick {
            out.push(ch);
        }
        assert forall|x: u8|
            (x as u16) < c + 1 implies (out@.contains(x) <==> drives_channel(fns@, timer, x)
                && !taken@.contains(x)) by {
            if x == ch {
                if before.contains(x) {
                    let i = choose|i: int| 0 <= i < before.len() && before[i] == x;
                    assert(before[i] as u16 == c);
                }
                if pick {
                    assert(out@[before.len() as int] == x);
                } else if out@.contains(x) {
                    assert(before.contains(x));
                }
            } else {
                if out@.contains(x) {
                    let i = choose|i: int| 0 <= i < out@.len() && out@[i] == x;
                    assert(i < before.len());
                    assert(before[i] == x);
                }
                if before.contains(x) {
                    let i = choose|i: int| 0 <= i < before.len() && before[i] == x;
                    assert(out@[i] == x);
                }
            }
        }
        c = c + 1;
    }
    out
}

// ── Free pads for a signal ─────────────────────────────────────────────────

/// Pad `n` is free: nothing assigned to it, or `Unset`.
pub open spec fn pad_free(current: Map<usize, PinFunction>, n: usize) -> bool {
    current.contains_key(n) ==> current[n] == PinFunction::Unset
}

/// Pad `n` could carry `want` instead of `holder`: the chip lists it with
/// `want` among its functions, it is not `holder`, and it is free.
pub open spec fn pad_candidate(
    want: PinFunction,
    holder: usize,
    funcs: Map<usize, Vec<PinFunction>>,
    current: Map<usize, PinFunction>,
    n: usize,
) -> bool {
    &&& funcs.contains_key(n)
    &&& funcs[n]@.contains(want)
    &&& n != holder
    &&& pad_free(current, n)
}

/// A strictly increasing sequence.
pub open spec fn increasing_usize(s: Seq<usize>) -> bool {
    forall|i: int, j: int| 0 <= i < j < s.len() ==> s[i] < s[j]
}

/// Inserts `x` into an increasing vector, keeping it increasing; a value
/// already present is not added twice.
pub(crate) fn insert_sorted(v: &mut Vec<usize>, x: usize)
    requires
        increasing_usize(old(v)@),
    ensures
        increasing_usize(final(v)@),
        forall|y: usize| final(v)@.contains(y) <==> (old(v)@.contains(y) || y == x),
{
    let mut k: usize = 0;
    while k < v.len() && v[k] < x
        invariant
            k <= v.len(),
            forall|i: int| 0 <= i < k ==> v@[i] < x,
            v@ == old(v)@,
        decreases v.len() - k,
    {
        k = k + 1;
    }
    if k < v.len() && v[k] == x {
        return;
    }
    v.insert(k, x);
    assert forall|y: usize| v@.contains(y) <==> (old(v)@.contains(y) || y == x) by {
        if old(v)@.contains(y) {
            let i = choose|i: int| 0 <= i < old(v)@.len() && old(v)@[i] == y;
            if i < k {
                assert(v@[i] == y);
            } else {
                assert(v@[i + 1] == y);
            }
        }
        if y == x {
            assert(v@[k as int] == x);
        }
        if v@.contains(y) {
            let i = choose|i: int| 0 <= i < v@.len() && v@[i] == y;
            if i < k {
                assert(old(v)@[i] == y);
            } else if i > k {
                assert(old(v)@[i - 1] == y);
            }
        }
    }
}

/// Pads that could carry `want` and are FREE, other than `holder`, in
/// increasing order, each once. On stm32f1 a peripheral with more than one
/// pad moves as a group, so none is offered there.
pub fn free_pads_for(
    want: &PinFunction,
    holder: usize,
    pin_funcs: &HashMap<usize, Vec<PinFunction>>,
    pin_funcs_current: &HashMap<usize, PinFunction>,
    family: &str,
    module_pads: usize,
) -> (r: Vec<usize>)
    ensures
        increasing_usize(r@),
        moves_as_group(family@, module_pads) ==> r@.len() == 0,
        !moves_as_group(family@, module_pads) ==> forall|n: usize|
            r@.contains(n) <==> pad_candidate(*want, holder, pin_funcs@, pin_funcs_current@, n),
{
    let mut v: Vec<usize> = Vec::new();
    if crate::canvas::f1_moves_as_a_group(family, module_pads) {
        return v;
    }
    let t = table_entries(pin_funcs);
    let mut i: usize = 0;
    while i < t.len()
        invariant
            i <= t@.len(),
            lists(t@, pin_funcs@),
            increasing_usize(v@),
            forall|n: usize|
                v@.contains(n) <==> (exists|k: int| 0 <= k < i && #[trigger] t@[k].0 == n)
                    && pad_candidate(*want, holder, pin_funcs@, pin_funcs_current@, n),
        decreases t@.len() - i,
    {
        let n = t[i].0;
        assert(t@[i as int].0 == n);
        let free = match pin_funcs_current.get(&n) {
            None => true,
            Some(f) => *f == PinFunction::Unset,
        };
        let ok = n != holder && has_function(&t[i].1, *want) && free;
        let ghost before = v@;
        if ok {
            insert_sorted(&mut v, n);
        }
        assert forall|m: usize|
            v@.contains(m) <==> (exists|k: int| 0 <= k < i + 1 && #[trigger] t@[k].0 == m)
                && pad_candidate(*want, holder, pin_funcs@, pin_funcs_current@, m) by {
            if (exists|k: int| 0 <= k < i + 1 && #[trigger] t@[k].0 == m) {
                let k = choose|k: int| 0 <= k < i + 1 && #[trigger] t@[k].0 == m;
                if k < i {
                    assert(exists|k: int| 0 <= k < i && #[trigger] t@[k].0 == m);
                }
            }
            if v@.contains(m) && !before.contains(m) {
                assert(m == n);
            }
        }
        i = i + 1;
    }
    assert forall|n: usize| v@.contains(n) <==> pad_candidate(*want, holder, pin_funcs@, pin_funcs_current@, n) by {
        if pad_candidate(*want, holder, pin_funcs@, pin_funcs_current@, n) {
            let k = choose|k: int| 0 <= k < t@.len() && #[trigger] t@[k].0 == n;
        }
    }
    v
}

// ── Free timer channels ─────────────────────────────────────────────────────

/// The channel row a pin function offers on `timer`: `CH<n>` for a channel,
/// `CH<n>N` for a complementary pad and `BKIN` / `BKIN<n>` for a break input,
/// the last two only on a timer embassy can drive them on.
pub open spec fn channel_label(f: PinFunction, timer: u8) -> Option<Seq<char>> {
    match f {
        PinFunction::TimerPwm { timer: t, channel } => if t == timer {
            Some("CH"@ + dec(channel as nat))
        } else {
            None
        },
        PinFunction::TimerPwmN { timer: t, channel } => if t == timer && advanced_timer(t) {
            Some("CH"@ + dec(channel as nat) + "N"@)
        } else {
            None
        },
        PinFunction::TimerBreak { timer: t, input } => if t == timer && advanced_timer(t) {
            if input == 1 {
                Some("BKIN"@)
            } else {
                Some("BKIN"@ + dec(input as nat))
            }
        } else {
            None
        },
        _ => None,
    }
}

fn label_of(f: PinFunction, timer: u8) -> (r: Option<Vec<char>>)
    ensures
        r matches Some(v) ==> channel_label(f, timer) == Some(v@),
        r is None ==> channel_label(f, timer) is None,
{
    let mut s = String::new();
    match f {
        PinFunction::TimerPwm { timer: t, channel } => {
            if t != timer {
                return None;
            }
            push_str(&mut s, "CH");
            push_dec(&mut s, channel as u64);
        },
        PinFunction::TimerPwmN { timer: t, channel } => {
            if t != timer || !is_advanced_timer(t) {
                return None;
            }
            push_str(&mut s, "CH");
            push_dec(&mut s, channel as u64);
            push_str(&mut s, "N");
        },
        PinFunction::TimerBreak { timer: t, input } => {
            if t != timer || !is_advanced_timer(t) {
                return None;
            }
            push_str(&mut s, "BKIN");
            if input != 1 {
                push_dec(&mut s, input as u64);
            }
        },
        _ => {
            return None;
        },
    }
    let v = str_chars(s.as_str());
    assert(channel_label(f, timer) == Some(v@));
    Some(v)
}

/// Label `l` is offered by the function at `(i, j)` of the table.
pub open spec fn offered_at(
    table: Seq<(usize, Vec<PinFunction>)>,
    timer: u8,
    l: Seq<char>,
    i: int,
    j: int,
) -> bool {
    0 <= i < table.len() && 0 <= j < table[i].1@.len() && channel_label(table[i].1@[j], timer)
        == Some(l)
}

/// Some pad of the chip offers label `l` on `timer`.
pub open spec fn on_chip(table: Seq<(usize, Vec<PinFunction>)>, timer: u8, l: Seq<char>) -> bool {
    exists|i: int, j: int| offered_at(table, timer, l, i, j)
}

/// Label `l` is offered by a function before `(i, j)` in table order.
pub open spec fn offered_before(
    table: Seq<(usize, Vec<PinFunction>)>,
    timer: u8,
    l: Seq<char>,
    i: int,
    j: int,
) -> bool {
    exists|a: int, b: int| (a < i || (a == i && b < j)) && offered_at(table, timer, l, a, b)
}

fn is_wired(wired: &Vec<String>, l: &Vec<char>) -> (r: bool)
    ensures
        r == views(wired@).contains(l@),
{
    let mut i: usize = 0;
    while i < wired.len()
        invariant
            i <= wired.len(),
            forall|k: int| 0 <= k < i ==> views(wired@)[k] != l@,
        decreases wired.len() - i,
    {
        let w = str_chars(wired[i].as_str());
        if chars_eq(&w, l) {
            assert(views(wired@)[i as int] == l@);
            return true;
        }
        i = i + 1;
    }
    false
}

/// The labels a listing of the chip's pads offers on `timer`, minus the
/// wired ones, in string order, each once.
fn free_channels_in(
    timer: u8,
    wired: &Vec<String>,
    pin_funcs: &Vec<(usize, Vec<PinFunction>)>,
) -> (r: Vec<String>)
    ensures
        lex_sorted(views(r@)),
        forall|l: Seq<char>|
            views(r@).contains(l) <==> on_chip(pin_funcs@, timer, l) && !views(wired@).contains(l),
{
    let mut acc: Vec<Vec<char>> = Vec::new();
    let mut i: usize = 0;
    while i < pin_funcs.len()
        invariant
            i <= pin_funcs.len(),
            lex_sorted(char_views(acc@)),
            forall|l: Seq<char>|
                char_views(acc@).contains(l) <==> offered_before(pin_funcs@, timer, l, i as int, 0)
                    && !views(wired@).contains(l),
        decreases pin_funcs.len() - i,
    {
        let fns = &pin_funcs[i].1;
        let mut j: usize = 0;
        while j < fns.len()
            invariant
                i < pin_funcs.len(),
                fns == &pin_funcs@[i as int].1,
                j <= fns.len(),
                lex_sorted(char_views(acc@)),
                forall|l: Seq<char>|
                    char_views(acc@).contains(l) <==> offered_before(
                        pin_funcs@,
                        timer,
                        l,
                        i as int,
                        j as int,
                    ) && !views(wired@).contains(l),
            decreases fns.len() - j,
        {
            let ghost before = char_views(acc@);
            let lab = label_of(fns[j], timer);
            let mut added = false;
            let ghost mut lv: Seq<char> = Seq::empty();
            if let Some(v) = lab {
                proof {
                    lv = v@;
                }
                if !is_wired(wired, &v) {
                    insert_sorted_chars(&mut acc, v);
                    added = true;
                }
            }
            assert forall|l: Seq<char>|
                char_views(acc@).contains(l) <==> offered_before(
                    pin_funcs@,
                    timer,
                    l,
                    i as int,
                    j + 1,
                ) && !views(wired@).contains(l) by {
                if offered_before(pin_funcs@, timer, l, i as int, j + 1) {
                    let (a, b) = choose|a: int, b: int|
                        (a < i || (a == i && b < j + 1)) && offered_at(pin_funcs@, timer, l, a, b);
                    if !(a == i && b == j) {
                        assert(offered_before(pin_funcs@, timer, l, i as int, j as int));
                    }
                }
                if offered_before(pin_funcs@, timer, l, i as int, j as int) {
                    let (a, b) = choose|a: int, b: int|
                        (a < i || (a == i && b < j)) && offered_at(pin_funcs@, timer, l, a, b);
                    assert(offered_at(pin_funcs@, timer, l, a, b));
                }
                if added && l == lv {
                    assert(offered_at(pin_funcs@, timer, l, i as int, j as int));
                }
            }
            j = j + 1;
        }
        assert forall|l: Seq<char>|
            offered_before(pin_funcs@, timer, l, i as int, j as int) <==> offered_before(
                pin_funcs@,
                timer,
                l,
                i + 1,
                0,
            ) by {
            if offered_before(pin_funcs@, timer, l, i + 1, 0) {
                let (a, b) = choose|a: int, b: int|
                    (a < i + 1 || (a == i + 1 && b < 0)) && offered_at(pin_funcs@, timer, l, a, b);
                assert(offered_at(pin_funcs@, timer, l, a, b));
            }
            if offered_before(pin_funcs@, timer, l, i as int, j as int) {
                let (a, b) = choose|a: int, b: int|
                    (a < i || (a == i && b < j)) && offered_at(pin_funcs@, timer, l, a, b);
                assert(offered_at(pin_funcs@, timer, l, a, b));
            }
        }
        i = i + 1;
    }
    assert forall|l: Seq<char>|
        offered_before(pin_funcs@, timer, l, i as int, 0) <==> on_chip(pin_funcs@, timer, l) by {
        if on_chip(pin_funcs@, timer, l) {
            let (a, b) = choose|a: int, b: int| offered_at(pin_funcs@, timer, l, a, b);
            assert(a < i);
        }
        if offered_before(pin_funcs@, timer, l, i as int, 0) {
            let (a, b) = choose|a: int, b: int|
                (a < i || (a == i && b < 0)) && offered_at(pin_funcs@, timer, l, a, b);
            assert(offered_at(pin_funcs@, timer, l, a, b));
        }
    }
    let mut out: Vec<String> = Vec::new();
    let mut k: usize = 0;
    while k < acc.len()
        invariant
            k <= acc.len(),
            views(out@) == char_views(acc@).subrange(0, k as int),
        decreases acc.len() - k,
    {
        let s = string_of(&acc[k]);
        let ghost prev = out@;
        out.push(s);
        assert(out@ == prev.push(s));
        assert(views(out@) =~= views(prev).push(s@));
        assert(char_views(acc@)[k as int] == acc@[k as int]@);
        assert(views(out@) =~= char_views(acc@).subrange(0, k + 1));
        k = k + 1;
    }
    assert(char_views(acc@).subrange(0, acc@.len() as int) =~= char_views(acc@));
    out
}


/// Some pad of the chip offers label `l` on `timer`.
pub open spec fn offered_by_chip(m: Map<usize, Vec<PinFunction>>, timer: u8, l: Seq<char>) -> bool {
    exists|n: usize, j: int|
        m.contains_key(n) && 0 <= j < m[n]@.len() && #[trigger] channel_label(m[n]@[j], timer) == Some(l)
}

proof fn lemma_on_chip_listed(t: Seq<(usize, Vec<PinFunction>)>, m: Map<usize, Vec<PinFunction>>, timer: u8, l: Seq<char>)
    requires
        lists(t, m),
    ensures
        on_chip(t, timer, l) <==> offered_by_chip(m, timer, l),
{
    if on_chip(t, timer, l) {
        let (a, b) = choose|a: int, b: int| offered_at(t, timer, l, a, b);
        assert(m.contains_key(t[a].0));
        assert(channel_label(m[t[a].0]@[b], timer) == Some(l));
    }
    if offered_by_chip(m, timer, l) {
        let (n, j) = choose|n: usize, j: int|
            m.contains_key(n) && 0 <= j < m[n]@.len() && #[trigger] channel_label(m[n]@[j], timer) == Some(l);
        let a = choose|a: int| 0 <= a < t.len() && #[trigger] t[a].0 == n;
        assert(offered_at(t, timer, l, a, j));
    }
}

/// The channels of `timer` this chip still has a free pad for: every channel
/// row any pad can serve, minus the ones already wired, in string order, each
/// once.
pub fn free_pwm_channels(
    timer: u8,
    wired: &Vec<String>,
    pin_funcs: &HashMap<usize, Vec<PinFunction>>,
) -> (r: Vec<String>)
    ensures
        lex_sorted(views(r@)),
        forall|l: Seq<char>|
            views(r@).contains(l) <==> offered_by_chip(pin_funcs@, timer, l) && !views(wired@).contains(l),
{
    let t = table_entries(pin_funcs);
    let r = free_channels_in(timer, wired, &t);
    assert forall|l: Seq<char>|
        views(r@).contains(l) <==> offered_by_chip(pin_funcs@, timer, l) && !views(wired@).contains(l) by {
        lemma_on_chip_listed(t@, pin_funcs@, timer, l);
    }
    r
}

} // verus!
