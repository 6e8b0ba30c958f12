//! What the module panel says about an RP2040 / RP2350 PWM slice: on these
//! chips the pad decides the channel, so the notes name pads, not channels.

use vstd::prelude::*;
use std::collections::HashMap;
use crate::naming::{join, views};
use crate::pins::PinFunction;
use crate::pwm::{drives_channel, has_function, increasing_usize, insert_sorted, lists, plain_channel, pwm_plain_channel, table_entries};
use crate::text::{dec, owned, push_dec, push_str};

verus! {

broadcast use vstd::std_specs::hash::group_hash_axioms;

/// The increasing list of the members of `s`.
pub open spec fn sorted_of(s: Set<usize>) -> Seq<usize> {
    choose|v: Seq<usize>| increasing_usize(v) && forall|x: usize| v.contains(x) <==> s.contains(x)
}

/// Two increasing lists with the same members are the same list.
pub proof fn lemma_increasing_unique(a: Seq<usize>, b: Seq<usize>)
    requires
        increasing_usize(a),
        increasing_usize(b),
        forall|x: usize| a.contains(x) <==> b.contains(x),
    ensures
        a == b,
    decreases a.len(),
{
    if a.len() == 0 {
        if b.len() > 0 {
            assert(b.contains(b[0]));
        }
        assert(a =~= b);
    } else {
        assert(a.contains(a[0]));
        let j = choose|j: int| 0 <= j < b.len() && b[j] == a[0];
        assert(b.contains(b[0]));
        let i = choose|i: int| 0 <= i < a.len() && a[i] == b[0];
        assert(a[0] == b[0]);
        let a1 = a.drop_first();
        let b1 = b.drop_first();
        assert forall|x: usize| a1.contains(x) <==> b1.contains(x) by {
            if a1.contains(x) {
                let k = choose|k: int| 0 <= k < a1.len() && a1[k] == x;
                assert(a[k + 1] == x);
                assert(b.contains(x));
                let m = choose|m: int| 0 <= m < b.len() && b[m] == x;
                assert(m != 0);
                assert(b1[m - 1] == x);
            }
            if b1.contains(x) {
                let k = choose|k: int| 0 <= k < b1.len() && b1[k] == x;
                assert(b[k + 1] == x);
                assert(a.contains(x));
                let m = choose|m: int| 0 <= m < a.len() && a[m] == x;
                assert(m != 0);
                assert(a1[m - 1] == x);
            }
        }
        lemma_increasing_unique(a1, b1);
        assert forall|k: int| 0 <= k < a.len() implies a[k] == b[k] by {
            if k > 0 {
                assert(a[k] == a1[k - 1]);
                assert(b[k] == b1[k - 1]);
            }
        }
        assert(a =~= b);
    }
}

/// The pads of the chip's table that can drive channel `ch` of `slice`.
pub open spec fn slice_pads(table: Seq<(usize, Vec<PinFunction>)>, slice: u8, ch: u8) -> Set<usize> {
    Set::new(
        |n: usize|
            exists|i: int|
                0 <= i < table.len() && #[trigger] table[i].0 == n && drives_channel(
                    table[i].1@,
                    slice,
                    ch,
                ),
    )
}

/// How a pad is named in the notes: its recorded name, else `pin<n>`.
pub open spec fn pad_name(names: Map<usize, String>, n: usize) -> Seq<char> {
    if names.contains_key(n) {
        names[n]@
    } else {
        "pin"@ + dec(n as nat)
    }
}

/// The pads of the chip that can drive channel `ch` of `slice`.
pub open spec fn slice_pads_of(m: Map<usize, Vec<PinFunction>>, slice: u8, ch: u8) -> Set<usize> {
    Set::new(|n: usize| m.contains_key(n) && drives_channel(m[n]@, slice, ch))
}

proof fn lemma_slice_pads_listed(t: Seq<(usize, Vec<PinFunction>)>, m: Map<usize, Vec<PinFunction>>, slice: u8, ch: u8)
    requires
        lists(t, m),
    ensures
        slice_pads(t, slice, ch) == slice_pads_of(m, slice, ch),
{
    assert forall|n: usize| slice_pads(t, slice, ch).contains(n) <==> slice_pads_of(m, slice, ch).contains(n) by {
        if slice_pads_of(m, slice, ch).contains(n) {
            let i = choose|i: int| 0 <= i < t.len() && #[trigger] t[i].0 == n;
            assert(drives_channel(t[i].1@, slice, ch));
        }
        if slice_pads(t, slice, ch).contains(n) {
            let i = choose|i: int|
                0 <= i < t.len() && #[trigger] t[i].0 == n && drives_channel(t[i].1@, slice, ch);
            assert(m.contains_key(t[i].0));
        }
    }
    assert(slice_pads(t, slice, ch) =~= slice_pads_of(m, slice, ch));
}

/// The names of the pads that can drive channel `ch` of `slice`, in pad
/// order.
pub open spec fn pads_for(
    table: Map<usize, Vec<PinFunction>>,
    names: Map<usize, String>,
    slice: u8,
    ch: u8,
) -> Seq<Seq<char>> {
    sorted_of(slice_pads_of(table, slice, ch)).map_values(|n: usize| pad_name(names, n))
}

fn name_of(names: &HashMap<usize, String>, n: usize) -> (r: String)
    ensures
        r@ == pad_name(names@, n),
{
    match names.get(&n) {
        Some(v) => v.clone(),
        None => {
            let mut s = owned("pin");
            push_dec(&mut s, n as u64);
            s
        },
    }
}

fn pad_names_for(
    table: &Vec<(usize, Vec<PinFunction>)>,
    funcs: &HashMap<usize, Vec<PinFunction>>,
    names: &HashMap<usize, String>,
    slice: u8,
    ch: u8,
) -> (r: Vec<String>)
    requires
        lists(table@, funcs@),
    ensures
        views(r@) == pads_for(funcs@, names@, slice, ch),
{
    let want = PinFunction::TimerPwm { timer: slice, channel: ch };
    let mut nums: Vec<usize> = Vec::new();
    let mut i: usize = 0;
    while i < table.len()
        invariant
            i <= table@.len(),
            want == (PinFunction::TimerPwm { timer: slice, channel: ch }),
            increasing_usize(nums@),
            forall|n: usize|
                nums@.contains(n) <==> exists|k: int|
                    0 <= k < i && #[trigger] table@[k].0 == n && drives_channel(
                        table@[k].1@,
                        slice,
                        ch,
                    ),
        decreases table@.len() - i,
    {
        let ghost before = nums@;
        let hit = has_function(&table[i].1, want);
        assert(hit == drives_channel(table@[i as int].1@, slice, ch));
        if hit {
            insert_sorted(&mut nums, table[i].0);
        }
        assert forall|n: usize|
            nums@.contains(n) <==> exists|k: int|
                0 <= k < i + 1 && #[trigger] table@[k].0 == n && drives_channel(
                    table@[k].1@,
                    slice,
                    ch,
                ) by {
            if exists|k: int|
                0 <= k < i + 1 && #[trigger] table@[k].0 == n && drives_channel(
                    table@[k].1@,
                    slice,
                    ch,
                ) {
                let k = choose|k: int|
                    0 <= k < i + 1 && #[trigger] table@[k].0 == n && drives_channel(
                        table@[k].1@,
                        slice,
                        ch,
                    );
                if k < i {
                    assert(before.contains(n));
                } else {
                    assert(hit);
                }
            }
            if nums@.contains(n) && !before.contains(n) {
                assert(hit && table@[i as int].0 == n);
            }
        }
        i = i + 1;
    }
    proof {
        lemma_slice_pads_listed(table@, funcs@, slice, ch);
    }
    let ghost s = slice_pads(table@, slice, ch);
    assert(forall|x: usize| nums@.contains(x) <==> s.contains(x));
    proof {
        lemma_increasing_unique(nums@, sorted_of(s));
    }
    let mut out: Vec<String> = Vec::new();
    let mut k: usize = 0;
    while k < nums.len()
        invariant
            k <= nums@.len(),
            nums@ == sorted_of(s),
            views(out@) == nums@.subrange(0, k as int).map_values(|n: usize| pad_name(names@, n)),
        decreases nums@.len() - k,
    {
        let ghost prev = out@;
        let nm = name_of(names, nums[k]);
        out.push(nm);
        assert(views(out@) =~= views(prev).push(nm@));
        k = k + 1;
        assert(views(out@) =~= nums@.subrange(0, k as int).map_values(
            |n: usize| pad_name(names@, n),
        ));
    }
    assert(nums@.subrange(0, nums@.len() as int) =~= nums@);
    out
}

/// Why an RP shows no DMA channel picker: every channel serves every
/// peripheral there.
pub const RP_DMA_NOTE: &'static str = "embassy-rp allocates DMA itself - any channel serves any peripheral, and the Configuration tab's DMA card shows which ones were taken";

/// Why an RP shows no I2C transport choice.
pub const RP_I2C_NOTE: &'static str = "embassy-rp's async I2C is interrupt driven and takes no DMA channel, so there is no transport to choose";

/// The note every slice starts with.
pub open spec fn intro() -> Seq<char> {
    "On this chip the pad decides the channel - slice (GPIO / 2) mod 8, channel A for an even GPIO and B for an odd one - and both HALs make that a compile-time bound, so the channel is not selectable here."@
}

/// The channel letter: `A` for channel 1, `B` otherwise.
pub open spec fn letter(c: u8) -> Seq<char> {
    if c == 1 {
        "A"@
    } else {
        "B"@
    }
}

fn letter_str(c: u8) -> (r: &'static str)
    ensures
        r@ == letter(c),
{
    if c == 1 {
        "A"
    } else {
        "B"
    }
}

/// A connection row as plain values: its signal and its pad's name.
pub open spec fn row_views(rows: Seq<(&str, String, usize)>) -> Seq<(Seq<char>, Seq<char>)> {
    rows.map_values(|r: (&str, String, usize)| (r.0@, r.1@))
}

/// The GPIO a row's pad sorts by; a pad with no GPIO index sorts last.
pub open spec fn gpio_rank(g: Option<u8>) -> u8 {
    match g {
        Some(v) => v,
        None => 255,
    }
}

/// Row `j` is wired to plain channel `ch`.
pub open spec fn on_channel(rows: Seq<(Seq<char>, Seq<char>)>, j: int, ch: u8) -> bool {
    plain_channel(rows[j].0) == Some(ch)
}

/// The row whose pad drives channel `ch`, looking at the first `n` rows: of
/// the rows wired to it, the one whose pad has the least GPIO, the earliest
/// of those on a tie (as the generator resolves it); `None` when no row is
/// wired to it. See [`lemma_driver_is_least_gpio`].
pub open spec fn driver_row(rows: Seq<(Seq<char>, Seq<char>)>, gpio: Seq<Option<u8>>, ch: u8, n: int) -> Option<int>
    decreases n,
{
    if n <= 0 {
        None
    } else {
        let prev = driver_row(rows, gpio, ch, n - 1);
        if on_channel(rows, n - 1, ch) && (match prev {
            None => true,
            Some(p) => gpio_rank(gpio[n - 1]) < gpio_rank(gpio[p]),
        }) {
            Some(n - 1)
        } else {
            prev
        }
    }
}

/// The driver of channel `ch` among all the rows.
pub open spec fn driver_of(rows: Seq<(Seq<char>, Seq<char>)>, gpio: Seq<Option<u8>>, ch: u8) -> Option<int> {
    driver_row(rows, gpio, ch, rows.len() as int)
}

/// A channel has a driver exactly when some row is wired to it; the driver
/// is wired to it, no row wired to it has a lower GPIO, and every row before
/// the driver that is wired to it has a higher one.
pub proof fn lemma_driver_is_least_gpio(
    rows: Seq<(Seq<char>, Seq<char>)>,
    gpio: Seq<Option<u8>>,
    ch: u8,
    n: int,
)
    requires
        0 <= n <= rows.len(),
    ensures
        driver_row(rows, gpio, ch, n) is Some <==> exists|j: int| 0 <= j < n && #[trigger] on_channel(rows, j, ch),
        driver_row(rows, gpio, ch, n) matches Some(d) ==> {
            &&& 0 <= d < n
            &&& on_channel(rows, d, ch)
            &&& forall|j: int|
                0 <= j < n && #[trigger] on_channel(rows, j, ch) ==> gpio_rank(gpio[d]) <= gpio_rank(
                    gpio[j],
                )
            &&& forall|j: int|
                0 <= j < d && #[trigger] on_channel(rows, j, ch) ==> gpio_rank(gpio[d]) < gpio_rank(
                    gpio[j],
                )
        },
    decreases n,
{
    if n > 0 {
        lemma_driver_is_least_gpio(rows, gpio, ch, n - 1);
        if on_channel(rows, n - 1, ch) {
            assert(exists|j: int| 0 <= j < n && #[trigger] on_channel(rows, j, ch));
        }
        if exists|j: int| 0 <= j < n && #[trigger] on_channel(rows, j, ch) {
            let j = choose|j: int| 0 <= j < n && #[trigger] on_channel(rows, j, ch);
            if j < n - 1 {
                assert(exists|j: int| 0 <= j < n - 1 && #[trigger] on_channel(rows, j, ch));
            }
        }
    }
}

/// The note on a silent pad `pad`, wired to channel `ch` that `driver` drives.
pub open spec fn lost_line(slice: u8, ch: u8, pad: Seq<char>, driver: Seq<char>) -> Seq<char> {
    pad + " is wired to slice "@ + dec(slice as nat) + " channel "@ + letter(ch)
        + " as well, but one channel reaches one pad - "@ + driver + " drives it and "@ + pad
        + " gets no code."@
}

/// The notes on the silent pads among the first `n` rows, in the order the
/// clashes are found: when a row meets a channel some earlier row is already
/// wired to, the one of the two that does not hold the channel so far (the
/// higher GPIO; the new row on a tie) is reported, naming the pad that drives
/// the channel in the end.
pub open spec fn clash_lines(
    rows: Seq<(Seq<char>, Seq<char>)>,
    gpio: Seq<Option<u8>>,
    slice: u8,
    n: int,
) -> Seq<Seq<char>>
    decreases n,
{
    if n <= 0 {
        Seq::empty()
    } else {
        let prev = clash_lines(rows, gpio, slice, n - 1);
        match plain_channel(rows[n - 1].0) {
            Some(ch) => match driver_row(rows, gpio, ch, n - 1) {
                Some(p) => {
                    let silent = if gpio_rank(gpio[p]) <= gpio_rank(gpio[n - 1]) {
                        rows[n - 1].1
                    } else {
                        rows[p].1
                    };
                    prev.push(lost_line(slice, ch, silent, rows[driver_of(rows, gpio, ch).unwrap()].1))
                },
                None => prev,
            },
            None => prev,
        }
    }
}

/// Row `j` is wired to plain channel number `c`.
pub open spec fn carries(rows: Seq<(Seq<char>, Seq<char>)>, j: int, c: usize) -> bool {
    match plain_channel(rows[j].0) {
        Some(x) => x as usize == c,
        None => false,
    }
}

/// The plain channels some row is wired to.
pub open spec fn channel_set(rows: Seq<(Seq<char>, Seq<char>)>) -> Set<usize> {
    Set::new(
        |c: usize|
            exists|j: int|
                0 <= j < rows.len() && #[trigger] carries(rows, j, c),
    )
}

/// Some row is wired to pad `p`.
pub open spec fn wired(rows: Seq<(Seq<char>, Seq<char>)>, p: Seq<char>) -> bool {
    exists|i: int| 0 <= i < rows.len() && #[trigger] rows[i].1 == p
}

/// The pads of `pads` that are free alternatives to `pin`: not `pin` and
/// wired by no row.
pub open spec fn alternatives(
    pads: Seq<Seq<char>>,
    pin: Seq<char>,
    rows: Seq<(Seq<char>, Seq<char>)>,
) -> Seq<Seq<char>>
    decreases pads.len(),
{
    if pads.len() == 0 {
        pads
    } else {
        let rest = alternatives(pads.drop_last(), pin, rows);
        let p = pads.last();
        if p != pin && !wired(rows, p) {
            rest.push(p)
        } else {
            rest
        }
    }
}

/// The notes on the drivers of the first `n` of the channels `cs`: each
/// names the pads that could drive its channel instead, when there are any.
pub open spec fn driver_lines(
    cs: Seq<usize>,
    n: int,
    slice: u8,
    rows: Seq<(Seq<char>, Seq<char>)>,
    gpio: Seq<Option<u8>>,
    table: Map<usize, Vec<PinFunction>>,
    names: Map<usize, String>,
) -> Seq<Seq<char>>
    decreases n,
{
    if n <= 0 {
        Seq::empty()
    } else {
        let ch = cs[n - 1] as u8;
        let pin = rows[driver_of(rows, gpio, ch).unwrap()].1;
        let others = alternatives(pads_for(table, names, slice, ch), pin, rows);
        driver_lines(cs, n - 1, slice, rows, gpio, table, names) + if others.len() > 0 {
            seq![
                pin + " drives slice "@ + dec(slice as nat) + " channel "@ + letter(ch)
                    + " - and so can "@ + join(others, " / "@)
                    + ", if that pad suits the board better."@,
            ]
        } else {
            Seq::empty()
        }
    }
}

/// The note on channel `ch` when no row uses it: the pads that would join
/// it, when there are any.
pub open spec fn free_line(
    ch: u8,
    slice: u8,
    rows: Seq<(Seq<char>, Seq<char>)>,
    table: Map<usize, Vec<PinFunction>>,
    names: Map<usize, String>,
) -> Seq<Seq<char>> {
    let pads = pads_for(table, names, slice, ch);
    if exists|i: int| 0 <= i < rows.len() && #[trigger] plain_channel(rows[i].0) == Some(ch) {
        Seq::empty()
    } else if pads.len() > 0 {
        seq![
            "Slice "@ + dec(slice as nat) + " channel "@ + letter(ch) + " is free - wire "@ + join(
                pads,
                " / "@,
            ) + " on the Pins canvas and it joins this module, sharing its frequency."@,
        ]
    } else {
        Seq::empty()
    }
}

/// Everything [`rp_pwm_notes`] says, in order: the intro, a line on each
/// silent pad (naming its channel's driver), a line on each wired channel's
/// free alternatives (channels ascending), and a line on each channel of the
/// slice no row uses.
pub open spec fn notes(
    slice: u8,
    rows: Seq<(Seq<char>, Seq<char>)>,
    gpio: Seq<Option<u8>>,
    table: Map<usize, Vec<PinFunction>>,
    names: Map<usize, String>,
) -> Seq<Seq<char>> {
    let cs = sorted_of(channel_set(rows));
    seq![intro()] + clash_lines(rows, gpio, slice, rows.len() as int) + driver_lines(
        cs,
        cs.len() as int,
        slice,
        rows,
        gpio,
        table,
        names,
    ) + free_line(1, slice, rows, table, names) + free_line(2, slice, rows, table, names)
}

/// `list` joined by `sep`.
pub(crate) fn join_with(list: &Vec<String>, sep: &str) -> (r: String)
    ensures
        r@ == join(views(list@), sep@),
{
    let mut out = String::new();
    let mut i: usize = 0;
    while i < list.len()
        invariant
            i <= list@.len(),
            out@ == join(views(list@).subrange(0, i as int), sep@),
        decreases list@.len() - i,
    {
        let ghost sub = views(list@).subrange(0, i + 1);
        assert(sub.drop_last() =~= views(list@).subrange(0, i as int));
        if i > 0 {
            push_str(&mut out, sep);
        }
        push_str(&mut out, list[i].as_str());
        i = i + 1;
    }
    assert(views(list@).subrange(0, list@.len() as int) =~= views(list@));
    out
}

/// Whether some row is wired to pad `p`.
fn is_wired(rows: &[(&str, String, usize)], p: &String) -> (r: bool)
    ensures
        r == wired(row_views(rows@), p@),
{
    let mut i: usize = 0;
    while i < rows.len()
        invariant
            i <= rows@.len(),
            forall|k: int| 0 <= k < i ==> row_views(rows@)[k].1 != p@,
        decreases rows@.len() - i,
    {
        if rows[i].1 == *p {
            assert(row_views(rows@)[i as int].1 == p@);
            return true;
        }
        i = i + 1;
    }
    false
}

fn alternatives_to(pads: &Vec<String>, pin: &String, rows: &[(&str, String, usize)]) -> (r: Vec<
    String,
>)
    ensures
        views(r@) == alternatives(views(pads@), pin@, row_views(rows@)),
{
    let mut out: Vec<String> = Vec::new();
    let mut i: usize = 0;
    while i < pads.len()
        invariant
            i <= pads@.len(),
            views(out@) == alternatives(views(pads@).subrange(0, i as int), pin@, row_views(rows@)),
        decreases pads@.len() - i,
    {
        let ghost sub = views(pads@).subrange(0, i + 1);
        assert(sub.drop_last() =~= views(pads@).subrange(0, i as int));
        let p = &pads[i];
        if *p != *pin && !is_wired(rows, p) {
            let ghost prev = out@;
            out.push(p.clone());
            assert(views(out@) =~= views(prev).push(p@));
        }
        i = i + 1;
    }
    assert(views(pads@).subrange(0, pads@.len() as int) =~= views(pads@));
    out
}

/// The row whose pad drives channel `ch`.
fn driver_index(rows: &[(&str, String, usize)], gpio: &[Option<u8>], ch: u8, n: usize) -> (r: Option<usize>)
    requires
        gpio@.len() == rows@.len(),
        n <= rows@.len(),
    ensures
        match r {
            Some(d) => driver_row(row_views(rows@), gpio@, ch, n as int) == Some(d as int) && d < n,
            None => driver_row(row_views(rows@), gpio@, ch, n as int) is None,
        },
{
    let ghost rv = row_views(rows@);
    let mut best: Option<usize> = None;
    let mut i: usize = 0;
    while i < n
        invariant
            i <= n <= rows@.len(),
            gpio@.len() == rows@.len(),
            rv == row_views(rows@),
            match best {
                Some(d) => driver_row(rv, gpio@, ch, i as int) == Some(d as int) && d < i,
                None => driver_row(rv, gpio@, ch, i as int) is None,
            },
        decreases n - i,
    {
        assert(rv[i as int].0 == rows@[i as int].0@);
        if pwm_plain_channel(rows[i].0) == Some(ch) {
            let here = match gpio[i] {
                Some(v) => v,
                None => 255u8,
            };
            match best {
                None => {
                    best = Some(i);
                },
                Some(d) => {
                    let held = match gpio[d] {
                        Some(v) => v,
                        None => 255u8,
                    };
                    if here < held {
                        best = Some(i);
                    }
                },
            }
        }
        i = i + 1;
    }
    best
}

/// What a Pico owner can actually decide about a PWM slice: not the channel
/// (the GPIO number fixes it, and both HALs enforce it), but the PAD. The
/// notes say so, name each pad that is wired but silent because another
/// drives its channel (of the pads wired to one channel, the one with the
/// least GPIO drives it, as the generator resolves it), offer each driven
/// channel's free alternative pads, and offer the pads of a channel of the
/// slice nothing uses yet.
///
/// `gpio[i]` is the GPIO index of row `i`'s pad, where it has one.
pub fn rp_pwm_notes(
    slice: u8,
    conn_rows: &[(&str, String, usize)],
    gpio: &[Option<u8>],
    pin_funcs: &HashMap<usize, Vec<PinFunction>>,
    pin_names: &HashMap<usize, String>,
) -> (r: Vec<String>)
    requires
        gpio@.len() == conn_rows@.len(),
    ensures
        views(r@) == notes(slice, row_views(conn_rows@), gpio@, pin_funcs@, pin_names@),
{
    let ghost rows = row_views(conn_rows@);
    let table = table_entries(pin_funcs);
    let mut out: Vec<String> = Vec::new();
    out.push(owned("On this chip the pad decides the channel - slice (GPIO / 2) mod 8, channel A for an even GPIO and B for an odd one - and both HALs make that a compile-time bound, so the channel is not selectable here."));
    let mut i: usize = 0;
    while i < conn_rows.len()
        invariant
            i <= conn_rows@.len(),
            gpio@.len() == conn_rows@.len(),
            rows == row_views(conn_rows@),
            views(out@) == seq![intro()] + clash_lines(rows, gpio@, slice, i as int),
        decreases conn_rows@.len() - i,
    {
        let ghost prev = views(out@);
        assert(rows[i as int] == (conn_rows@[i as int].0@, conn_rows@[i as int].1@));
        match pwm_plain_channel(conn_rows[i].0) {
            Some(ch) => {
                match driver_index(conn_rows, gpio, ch, i) {
                    Some(p) => {
                        proof {
                            lemma_driver_is_least_gpio(rows, gpio@, ch, rows.len() as int);
                            lemma_driver_is_least_gpio(rows, gpio@, ch, i as int);
                            assert(on_channel(rows, i as int, ch));
                        }
                        let d = match driver_index(conn_rows, gpio, ch, conn_rows.len()) {
                            Some(d) => d,
                            None => {
                                assert(false);
                                0
                            },
                        };
                        let held = match gpio[p] {
                            Some(v) => v,
                            None => 255u8,
                        };
                        let here = match gpio[i] {
                            Some(v) => v,
                            None => 255u8,
                        };
                        let e = if held <= here {
                            &conn_rows[i].1
                        } else {
                            &conn_rows[p].1
                        };
                        assert(rows[p as int] == (conn_rows@[p as int].0@, conn_rows@[p as int].1@));
                        assert(rows[d as int] == (conn_rows@[d as int].0@, conn_rows@[d as int].1@));
                        let h = &conn_rows[d].1;
                        let mut line = owned(e.as_str());
                        push_str(&mut line, " is wired to slice ");
                        push_dec(&mut line, slice as u64);
                        push_str(&mut line, " channel ");
                        push_str(&mut line, letter_str(ch));
                        push_str(&mut line, " as well, but one channel reaches one pad - ");
                        push_str(&mut line, h.as_str());
                        push_str(&mut line, " drives it and ");
                        push_str(&mut line, e.as_str());
                        push_str(&mut line, " gets no code.");
                        out.push(line);
                        assert(views(out@) =~= prev.push(line@));
                    },
                    None => {},
                }
            },
            None => {},
        }
        i = i + 1;
    }
    let mut chans: Vec<usize> = Vec::new();
    let mut i: usize = 0;
    while i < conn_rows.len()
        invariant
            i <= conn_rows@.len(),
            rows == row_views(conn_rows@),
            increasing_usize(chans@),
            forall|c: usize|
                chans@.contains(c) <==> exists|j: int|
                    0 <= j < i && #[trigger] carries(rows, j, c),
        decreases conn_rows@.len() - i,
    {
        let ghost before = chans@;
        assert(rows[i as int].0 == conn_rows@[i as int].0@);
        let got = pwm_plain_channel(conn_rows[i].0);
        match got {
            Some(ch) => {
                insert_sorted(&mut chans, ch as usize);
            },
            None => {},
        }
        assert forall|c: usize|
            chans@.contains(c) <==> exists|j: int|
                0 <= j < i + 1 && #[trigger] carries(rows, j, c) by {
            if exists|j: int|
                0 <= j < i + 1 && #[trigger] carries(rows, j, c) {
                let j = choose|j: int|
                    0 <= j < i + 1 && #[trigger] carries(rows, j, c);
                if j < i {
                    assert(before.contains(c));
                }
            }
            if chans@.contains(c) && !before.contains(c) {
                assert(carries(rows, i as int, c));
            }
        }
        i = i + 1;
    }
    let ghost cs = sorted_of(channel_set(rows));
    assert(forall|c: usize| chans@.contains(c) <==> channel_set(rows).contains(c));
    proof {
        lemma_increasing_unique(chans@, cs);
    }
    let ghost head = views(out@);
    let mut c: usize = 0;
    while c < chans.len()
        invariant
            c <= chans@.len(),
            chans@ == cs,
            gpio@.len() == conn_rows@.len(),
            rows == row_views(conn_rows@),
            cs == sorted_of(channel_set(rows)),
            forall|x: usize| chans@.contains(x) <==> channel_set(rows).contains(x),
            lists(table@, pin_funcs@),
            views(out@) == head + driver_lines(cs, c as int, slice, rows, gpio@, pin_funcs@, pin_names@),
        decreases chans@.len() - c,
    {
        assert(chans@.contains(chans@[c as int]));
        let ghost j0 = choose|j: int|
            0 <= j < rows.len() && #[trigger] carries(rows, j, chans@[c as int]);
        let ch = chans[c] as u8;
        assert(on_channel(rows, j0, ch));
        proof {
            lemma_driver_is_least_gpio(rows, gpio@, ch, rows.len() as int);
        }
        let d = match driver_index(conn_rows, gpio, ch, conn_rows.len()) {
            Some(d) => d,
            None => {
                assert(false);
                0
            },
        };
        assert(rows[d as int] == (conn_rows@[d as int].0@, conn_rows@[d as int].1@));
        let pin = &conn_rows[d].1;
        let pads = pad_names_for(&table, pin_funcs, pin_names, slice, ch);
        let others = alternatives_to(&pads, pin, conn_rows);
        let ghost prev = views(out@);
        if others.len() > 0 {
            let mut line = owned(pin.as_str());
            push_str(&mut line, " drives slice ");
            push_dec(&mut line, slice as u64);
            push_str(&mut line, " channel ");
            push_str(&mut line, letter_str(ch));
            push_str(&mut line, " - and so can ");
            let joined = join_with(&others, " / ");
            push_str(&mut line, joined.as_str());
            push_str(&mut line, ", if that pad suits the board better.");
            out.push(line);
            assert(views(out@) =~= prev.push(line@));
        }
        c = c + 1;
    }
    let ghost mid = views(out@);
    let mut ch: u8 = 1;
    while ch <= 2
        invariant
            1 <= ch <= 3,
            rows == row_views(conn_rows@),
            lists(table@, pin_funcs@),
            views(out@) == mid + (if ch > 1 {
                free_line(1, slice, rows, pin_funcs@, pin_names@)
            } else {
                Seq::empty()
            }) + (if ch > 2 {
                free_line(2, slice, rows, pin_funcs@, pin_names@)
            } else {
                Seq::empty()
            }),
        decreases 3 - ch,
    {
        let mut used = false;
        let mut k: usize = 0;
        while k < conn_rows.len()
            invariant
                k <= conn_rows@.len(),
                rows == row_views(conn_rows@),
                used == exists|t: int| 0 <= t < k && #[trigger] plain_channel(rows[t].0) == Some(ch),
            decreases conn_rows@.len() - k,
        {
            if pwm_plain_channel(conn_rows[k].0) == Some(ch) {
                used = true;
            }
            assert(rows[k as int].0 == conn_rows@[k as int].0@);
            k = k + 1;
        }
        let ghost prev = views(out@);
        if !used {
            let pads = pad_names_for(&table, pin_funcs, pin_names, slice, ch);
            if pads.len() > 0 {
                let mut line = owned("Slice ");
                push_dec(&mut line, slice as u64);
                push_str(&mut line, " channel ");
                push_str(&mut line, letter_str(ch));
                push_str(&mut line, " is free - wire ");
                let joined = join_with(&pads, " / ");
                push_str(&mut line, joined.as_str());
                push_str(&mut line, " on the Pins canvas and it joins this module, sharing its frequency.");
                out.push(line);
                assert(views(out@) =~= prev.push(line@));
            }
        }
        assert(views(out@) =~= prev + free_line(ch, slice, rows, pin_funcs@, pin_names@));
        ch = ch + 1;
    }
    out
}

} // verus!
