//! Keeping the virtual modules in step with the pin assignments: a peripheral
//! instance with any assigned signal pad gets (or keeps) a module wired to
//! exactly those pads, and a new module gets an id nothing else is using.

use vstd::prelude::*;
use vstd::relations::injective_on;
use vstd::set_lib::{lemma_int_range, lemma_len_subset, lemma_map_size, set_int_range};
use crate::model::Mcu;
use crate::modules::{
    is_default_config, kind_index, short_name, signal_rank, Connection, ModuleConfig, ModuleKind,
    signal_function, ModuleSignal, VirtualModule,
};
use crate::search::{lower_all, lower_chars};
use crate::text::{str_chars, string_of};
use crate::pins::{partners, Pin, PinFunction};
use crate::text::{dec, lemma_dec_nonempty, owned, push_dec, push_str, same_text};

verus! {

broadcast use vstd::seq_lib::seq_to_set_is_finite;

/// Two decimal spellings are the same only for the same number.
pub proof fn lemma_dec_injective(a: nat, b: nat)
    requires
        dec(a) == dec(b),
    ensures
        a == b,
    decreases a,
{
    if a < 10 && b < 10 {
        assert(dec(a)[0] == dec(b)[0]);
        assert(dec(a)[0] == crate::text::digit(a));
        assert(dec(b)[0] == crate::text::digit(b));
        lemma_digit_value(a);
        lemma_digit_value(b);
        assert(crate::text::digit(a) as u32 == crate::text::digit(b) as u32);
    } else if a < 10 {
        lemma_dec_nonempty(b / 10);
        assert(dec(b).len() >= 2);
    } else if b < 10 {
        lemma_dec_nonempty(a / 10);
        assert(dec(a).len() >= 2);
    } else {
        assert(dec(a).drop_last() == dec(a / 10));
        assert(dec(b).drop_last() == dec(b / 10));
        lemma_dec_injective(a / 10, b / 10);
        assert(dec(a).last() == dec(b).last());
        assert(dec(a).last() == crate::text::digit(a % 10));
        assert(dec(b).last() == crate::text::digit(b % 10));
        lemma_digit_value(a % 10);
        lemma_digit_value(b % 10);
        assert(a % 10 == b % 10);
        assert(a == (a / 10) * 10 + a % 10);
        assert(b == (b / 10) * 10 + b % 10);
    }
}

/// A digit's character is the ASCII code of that digit.
proof fn lemma_digit_value(d: nat)
    requires
        d < 10,
    ensures
        crate::text::digit(d) as u32 == d + 48,
{
    let x: u32 = (d + 48) as u32;
    assert(x < 0xD800);
    assert((x as char) as u32 == x);
}

/// The id `base_n`.
pub open spec fn candidate(base: Seq<char>, n: nat) -> Seq<char> {
    base + "_"@ + dec(n)
}

proof fn lemma_candidate_injective(base: Seq<char>, a: nat, b: nat)
    requires
        candidate(base, a) == candidate(base, b),
    ensures
        a == b,
{
    reveal_strlit("_");
    let k = base.len() + 1;
    assert(candidate(base, a).subrange(k as int, candidate(base, a).len() as int) =~= dec(a));
    assert(candidate(base, b).subrange(k as int, candidate(base, b).len() as int) =~= dec(b));
    lemma_dec_injective(a, b);
}

/// The ids of a list of modules.
pub open spec fn ids_of(ms: Seq<VirtualModule>) -> Seq<Seq<char>> {
    ms.map_values(|m: VirtualModule| m.id@)
}

/// `n` is the first number from `ids.len() + 1` up whose `base_n` no id in
/// `ids` uses.
pub open spec fn first_free(ids: Seq<Seq<char>>, base: Seq<char>, n: nat) -> bool {
    &&& ids.len() + 1 <= n
    &&& !ids.contains(candidate(base, n))
    &&& forall|m: nat| ids.len() + 1 <= m < n ==> ids.contains(#[trigger] candidate(base, m))
}

/// A run of taken ids `base_lo .. base_hi` is no longer than the list.
proof fn lemma_taken_run_fits(ids: Seq<Seq<char>>, base: Seq<char>, lo: int, hi: int)
    requires
        0 <= lo <= hi,
        forall|m: nat| lo <= m < hi ==> ids.contains(#[trigger] candidate(base, m)),
    ensures
        hi - lo <= ids.len(),
{
    let f = |m: int| candidate(base, m as nat);
    let x = set_int_range(lo, hi);
    lemma_int_range(lo, hi);
    let y = x.map(f);
    assert(injective_on(f, x)) by {
        assert forall|m1: int, m2: int|
            x.contains(m1) && x.contains(m2) && #[trigger] f(m1) == #[trigger] f(m2) implies m1
                == m2 by {
            lemma_candidate_injective(base, m1 as nat, m2 as nat);
        }
    }
    lemma_map_size(x, y, f);
    assert(y.subset_of(ids.to_set())) by {
        assert forall|s: Seq<char>| y.contains(s) implies ids.to_set().contains(s) by {
            let m = choose|m: int| x.contains(m) && s == f(m);
            assert(ids.contains(candidate(base, m as nat)));
        }
    }
    ids.lemma_cardinality_of_set();
    lemma_len_subset(y, ids.to_set());
}

/// No id of `ms` is `id`.
fn id_is_free(ms: &Vec<VirtualModule>, id: &String) -> (r: bool)
    ensures
        r == !ids_of(ms@).contains(id@),
{
    let mut i: usize = 0;
    while i < ms.len()
        invariant
            i <= ms@.len(),
            forall|k: int| 0 <= k < i ==> ids_of(ms@)[k] != id@,
        decreases ms@.len() - i,
    {
        if ms[i].id == *id {
            assert(ids_of(ms@)[i as int] == id@);
            return false;
        }
        i = i + 1;
    }
    true
}

impl Mcu {
    /// The module list is small enough for every id number it can need.
    pub open spec fn modules_fit(self) -> bool {
        self.modules@.len() < usize::MAX / 2
    }

    /// A module id nothing else is using: `base_n` for the first `n` from
    /// one more than the module count upwards that is free, so an id that was
    /// free stays the id it always was and only a collision moves.
    pub(crate) fn free_module_id(&self, base: &str) -> (r: String)
        requires
            self.modules_fit(),
        ensures
            exists|n: nat| first_free(ids_of(self.modules@), base@, n) && r@ == candidate(base@, n),
    {
        let len = self.modules.len();
        let ghost ids = ids_of(self.modules@);
        let mut n: usize = len + 1;
        loop
            invariant
                len == self.modules@.len(),
                ids == ids_of(self.modules@),
                len < usize::MAX / 2,
                len + 1 <= n <= 2 * len + 1,
                forall|m: nat| len + 1 <= m < n ==> ids.contains(#[trigger] candidate(base@, m)),
            decreases 2 * len + 1 - n,
        {
            let mut id = owned(base);
            push_str(&mut id, "_");
            push_dec(&mut id, n as u64);
            assert(id@ =~= candidate(base@, n as nat));
            if id_is_free(&self.modules, &id) {
                return id;
            }
            proof {
                lemma_taken_run_fits(ids, base@, len + 1, n + 1);
            }
            n = n + 1;
        }
    }
}

// ── Which module each pad's function belongs to ──────────────────────────

/// The module a pad carrying `f` belongs to, by kind and peripheral
/// instance, and the signal it carries there. GPIO, ADC and the other
/// functions with no module are `None`.
pub open spec fn signal_of(f: PinFunction) -> Option<(ModuleKind, u8, ModuleSignal)> {
    match f {
        PinFunction::UsartTx(n) => Some((ModuleKind::GenericInterfaceUsart, n, ModuleSignal::Tx)),
        PinFunction::UsartRx(n) => Some((ModuleKind::GenericInterfaceUsart, n, ModuleSignal::Rx)),
        PinFunction::UsartCts(n) => Some((ModuleKind::GenericInterfaceUsart, n, ModuleSignal::Cts)),
        PinFunction::UsartRts(n) => Some((ModuleKind::GenericInterfaceUsart, n, ModuleSignal::Rts)),
        PinFunction::LpuartTx(n) => Some((ModuleKind::GenericInterfaceLpuart, n, ModuleSignal::Tx)),
        PinFunction::LpuartRx(n) => Some((ModuleKind::GenericInterfaceLpuart, n, ModuleSignal::Rx)),
        PinFunction::LpuartCts(n) => Some((ModuleKind::GenericInterfaceLpuart, n, ModuleSignal::Cts)),
        PinFunction::LpuartRts(n) => Some((ModuleKind::GenericInterfaceLpuart, n, ModuleSignal::Rts)),
        PinFunction::SpiSck(n) => Some((ModuleKind::GenericInterfaceSpi, n, ModuleSignal::Sck)),
        PinFunction::SpiMiso(n) => Some((ModuleKind::GenericInterfaceSpi, n, ModuleSignal::Miso)),
        PinFunction::SpiMosi(n) => Some((ModuleKind::GenericInterfaceSpi, n, ModuleSignal::Mosi)),
        PinFunction::SpiNss(n) => Some((ModuleKind::GenericInterfaceSpi, n, ModuleSignal::Nss)),
        PinFunction::I2cScl(n) => Some((ModuleKind::GenericInterfaceI2c, n, ModuleSignal::Scl)),
        PinFunction::I2cSda(n) => Some((ModuleKind::GenericInterfaceI2c, n, ModuleSignal::Sda)),
        PinFunction::CanRx => Some((ModuleKind::GenericInterfaceCan, 0, ModuleSignal::CanRx)),
        PinFunction::CanTx => Some((ModuleKind::GenericInterfaceCan, 0, ModuleSignal::CanTx)),
        PinFunction::UsbDm => Some((ModuleKind::GenericInterfaceUsb, 0, ModuleSignal::UsbDm)),
        PinFunction::UsbDp => Some((ModuleKind::GenericInterfaceUsb, 0, ModuleSignal::UsbDp)),
        PinFunction::TimerPwm { timer, channel } => Some(
            (ModuleKind::GenericInterfaceTimer, timer, ModuleSignal::PwmChannel(channel)),
        ),
        _ => None,
    }
}

/// The module a pad carrying `f` belongs to, and the signal it carries.
pub fn module_signal_of(f: &PinFunction) -> (r: Option<(ModuleKind, u8, ModuleSignal)>)
    ensures
        r == signal_of(*f),
{
    match *f {
        PinFunction::UsartTx(n) => Some((ModuleKind::GenericInterfaceUsart, n, ModuleSignal::Tx)),
        PinFunction::UsartRx(n) => Some((ModuleKind::GenericInterfaceUsart, n, ModuleSignal::Rx)),
        PinFunction::UsartCts(n) => Some((ModuleKind::GenericInterfaceUsart, n, ModuleSignal::Cts)),
        PinFunction::UsartRts(n) => Some((ModuleKind::GenericInterfaceUsart, n, ModuleSignal::Rts)),
        PinFunction::LpuartTx(n) => Some((ModuleKind::GenericInterfaceLpuart, n, ModuleSignal::Tx)),
        PinFunction::LpuartRx(n) => Some((ModuleKind::GenericInterfaceLpuart, n, ModuleSignal::Rx)),
        PinFunction::LpuartCts(n) => Some((ModuleKind::GenericInterfaceLpuart, n, ModuleSignal::Cts)),
        PinFunction::LpuartRts(n) => Some((ModuleKind::GenericInterfaceLpuart, n, ModuleSignal::Rts)),
        PinFunction::SpiSck(n) => Some((ModuleKind::GenericInterfaceSpi, n, ModuleSignal::Sck)),
        PinFunction::SpiMiso(n) => Some((ModuleKind::GenericInterfaceSpi, n, ModuleSignal::Miso)),
        PinFunction::SpiMosi(n) => Some((ModuleKind::GenericInterfaceSpi, n, ModuleSignal::Mosi)),
        PinFunction::SpiNss(n) => Some((ModuleKind::GenericInterfaceSpi, n, ModuleSignal::Nss)),
        PinFunction::I2cScl(n) => Some((ModuleKind::GenericInterfaceI2c, n, ModuleSignal::Scl)),
        PinFunction::I2cSda(n) => Some((ModuleKind::GenericInterfaceI2c, n, ModuleSignal::Sda)),
        PinFunction::CanRx => Some((ModuleKind::GenericInterfaceCan, 0, ModuleSignal::CanRx)),
        PinFunction::CanTx => Some((ModuleKind::GenericInterfaceCan, 0, ModuleSignal::CanTx)),
        PinFunction::UsbDm => Some((ModuleKind::GenericInterfaceUsb, 0, ModuleSignal::UsbDm)),
        PinFunction::UsbDp => Some((ModuleKind::GenericInterfaceUsb, 0, ModuleSignal::UsbDp)),
        PinFunction::TimerPwm { timer, channel } => Some(
            (ModuleKind::GenericInterfaceTimer, timer, ModuleSignal::PwmChannel(channel)),
        ),
        _ => None,
    }
}

/// A pad's wire names the signal its function carries, line by line: the
/// SPI's SCK, MISO, MOSI and NSS pads are its Sck, Miso, Mosi and Nss wires;
/// an I2C's SCL and SDA pads its Scl and Sda wires; a USART's or an LPUART's
/// TX, RX, CTS and RTS pads its Tx, Rx, Cts and Rts wires; each on the pad's
/// own peripheral instance. CAN and USB, one peripheral each, are instance 0.
pub proof fn lemma_pad_signals(n: u8, c: u8)
    ensures
        signal_of(PinFunction::UsartTx(n)) == Some((ModuleKind::GenericInterfaceUsart, n, ModuleSignal::Tx)),
        signal_of(PinFunction::UsartRx(n)) == Some((ModuleKind::GenericInterfaceUsart, n, ModuleSignal::Rx)),
        signal_of(PinFunction::UsartCts(n)) == Some((ModuleKind::GenericInterfaceUsart, n, ModuleSignal::Cts)),
        signal_of(PinFunction::UsartRts(n)) == Some((ModuleKind::GenericInterfaceUsart, n, ModuleSignal::Rts)),
        signal_of(PinFunction::LpuartTx(n)) == Some((ModuleKind::GenericInterfaceLpuart, n, ModuleSignal::Tx)),
        signal_of(PinFunction::LpuartRx(n)) == Some((ModuleKind::GenericInterfaceLpuart, n, ModuleSignal::Rx)),
        signal_of(PinFunction::LpuartCts(n)) == Some((ModuleKind::GenericInterfaceLpuart, n, ModuleSignal::Cts)),
        signal_of(PinFunction::LpuartRts(n)) == Some((ModuleKind::GenericInterfaceLpuart, n, ModuleSignal::Rts)),
        signal_of(PinFunction::SpiSck(n)) == Some((ModuleKind::GenericInterfaceSpi, n, ModuleSignal::Sck)),
        signal_of(PinFunction::SpiMiso(n)) == Some((ModuleKind::GenericInterfaceSpi, n, ModuleSignal::Miso)),
        signal_of(PinFunction::SpiMosi(n)) == Some((ModuleKind::GenericInterfaceSpi, n, ModuleSignal::Mosi)),
        signal_of(PinFunction::SpiNss(n)) == Some((ModuleKind::GenericInterfaceSpi, n, ModuleSignal::Nss)),
        signal_of(PinFunction::I2cScl(n)) == Some((ModuleKind::GenericInterfaceI2c, n, ModuleSignal::Scl)),
        signal_of(PinFunction::I2cSda(n)) == Some((ModuleKind::GenericInterfaceI2c, n, ModuleSignal::Sda)),
        signal_of(PinFunction::CanRx) == Some((ModuleKind::GenericInterfaceCan, 0u8, ModuleSignal::CanRx)),
        signal_of(PinFunction::CanTx) == Some((ModuleKind::GenericInterfaceCan, 0u8, ModuleSignal::CanTx)),
        signal_of(PinFunction::UsbDm) == Some((ModuleKind::GenericInterfaceUsb, 0u8, ModuleSignal::UsbDm)),
        signal_of(PinFunction::UsbDp) == Some((ModuleKind::GenericInterfaceUsb, 0u8, ModuleSignal::UsbDp)),
        signal_of(PinFunction::TimerPwm { timer: n, channel: c }) == Some(
            (ModuleKind::GenericInterfaceTimer, n, ModuleSignal::PwmChannel(c)),
        ),
{
}

/// The pin function written for a signal is that signal's own line: Scl is
/// written as SCL and Sda as SDA, Miso as MISO and Mosi as MOSI, Tx as TX
/// and Rx as RX, and so on, on the instance asked for.
pub proof fn lemma_signal_functions(n: u8, c: u8)
    ensures
        signal_function(ModuleSignal::Tx, n) == PinFunction::UsartTx(n),
        signal_function(ModuleSignal::Rx, n) == PinFunction::UsartRx(n),
        signal_function(ModuleSignal::Cts, n) == PinFunction::UsartCts(n),
        signal_function(ModuleSignal::Rts, n) == PinFunction::UsartRts(n),
        signal_function(ModuleSignal::Sck, n) == PinFunction::SpiSck(n),
        signal_function(ModuleSignal::Miso, n) == PinFunction::SpiMiso(n),
        signal_function(ModuleSignal::Mosi, n) == PinFunction::SpiMosi(n),
        signal_function(ModuleSignal::Nss, n) == PinFunction::SpiNss(n),
        signal_function(ModuleSignal::Scl, n) == PinFunction::I2cScl(n),
        signal_function(ModuleSignal::Sda, n) == PinFunction::I2cSda(n),
        signal_function(ModuleSignal::CanRx, n) == PinFunction::CanRx,
        signal_function(ModuleSignal::CanTx, n) == PinFunction::CanTx,
        signal_function(ModuleSignal::UsbDm, n) == PinFunction::UsbDm,
        signal_function(ModuleSignal::UsbDp, n) == PinFunction::UsbDp,
        signal_function(ModuleSignal::PwmChannel(c), n) == (PinFunction::TimerPwm { timer: n, channel: c }),
{
}

/// Writing a signal onto a pad and reading the pad back gives the signal
/// again: for every signal some pad function carries, the function written
/// for signal `s` on instance `n` reads back as `s`, on instance `n` (CAN and
/// USB, one peripheral each, read back as instance 0).
pub proof fn lemma_signal_round_trip(s: ModuleSignal, n: u8)
    requires
        signal_function(s, n) != PinFunction::Unset,
    ensures
        (signal_of(signal_function(s, n)) is Some),
        signal_of(signal_function(s, n)).unwrap().2 == s,
        !(s is CanRx || s is CanTx || s is UsbDm || s is UsbDp) ==> signal_of(
            signal_function(s, n),
        ).unwrap().1 == n,
{
}

/// Reading a pad and writing back the signal it carries restores its
/// function: every pad function that belongs to a module (an LPUART's lines
/// aside, whose signals are written as the USART's) is the function written
/// for its own signal on its own instance.
pub proof fn lemma_pad_round_trip(f: PinFunction)
    requires
        (signal_of(f) is Some),
        signal_of(f).unwrap().0 != ModuleKind::GenericInterfaceLpuart,
    ensures
        signal_function(signal_of(f).unwrap().2, signal_of(f).unwrap().1) == f,
{
}

/// The lines grouped with a pad belong to the same module as it: a partner
/// of a module's line is a line of the same kind of module, on the same
/// peripheral instance.
pub proof fn lemma_partners_share_the_module(f: PinFunction, g: PinFunction)
    requires
        partners(f).contains(g),
        (signal_of(f) is Some),
    ensures
        (signal_of(g) is Some),
        signal_of(g).unwrap().0 == signal_of(f).unwrap().0,
        signal_of(g).unwrap().1 == signal_of(f).unwrap().1,
{
    let i = choose|i: int| 0 <= i < partners(f).len() && partners(f)[i] == g;
    assert(i == 0 || i == 1);
}

// ── The modules the pads ask for ───────────────────────────────────────────

/// One peripheral the pads ask for: its kind, its instance and its wires.
pub type Wanted = (ModuleKind, u8, Seq<Connection>);

/// `(ka, ia)` sorts before `(kb, ib)`: by kind, then by instance.
pub open spec fn key_before(ka: ModuleKind, ia: u8, kb: ModuleKind, ib: u8) -> bool {
    kind_index(ka) < kind_index(kb) || (kind_index(ka) == kind_index(kb) && ia < ib)
}

/// The first entry at or after `i` whose key does not sort before `(k, inst)`.
pub open spec fn key_pos(ws: Seq<Wanted>, k: ModuleKind, inst: u8, i: int) -> int
    decreases ws.len() - i,
{
    if i < 0 || i >= ws.len() {
        ws.len() as int
    } else if !key_before(ws[i].0, ws[i].1, k, inst) {
        i
    } else {
        key_pos(ws, k, inst, i + 1)
    }
}

/// The first wire at or after `i` whose signal sorts after rank `r`.
pub open spec fn conn_pos(cs: Seq<Connection>, r: nat, i: int) -> int
    decreases cs.len() - i,
{
    if i < 0 || i >= cs.len() {
        cs.len() as int
    } else if signal_rank(cs[i].signal) > r {
        i
    } else {
        conn_pos(cs, r, i + 1)
    }
}

/// `c` added to wires kept sorted by signal, after every wire whose signal
/// does not sort after it: a stable sort, wires on one signal in pad order.
pub open spec fn add_wire(cs: Seq<Connection>, c: Connection) -> Seq<Connection> {
    cs.insert(conn_pos(cs, signal_rank(c.signal), 0), c)
}

/// The peripherals after pad `p` is taken in.
pub open spec fn want_step(ws: Seq<Wanted>, p: Pin) -> Seq<Wanted> {
    match signal_of(p.selected_function) {
        None => ws,
        Some(t) => {
            let j = key_pos(ws, t.0, t.1, 0);
            let c = Connection { signal: t.2, mcu_pin: p.number };
            if j < ws.len() && ws[j].0 == t.0 && ws[j].1 == t.1 {
                ws.update(j, (t.0, t.1, add_wire(ws[j].2, c)))
            } else {
                ws.insert(j, (t.0, t.1, seq![c]))
            }
        },
    }
}

/// The peripherals the first `n` pads ask for, sorted by kind then
/// instance, each with its wires sorted by signal.
pub open spec fn wanted(pins: Seq<Pin>, n: int) -> Seq<Wanted>
    decreases n,
{
    if n <= 0 {
        Seq::empty()
    } else {
        want_step(wanted(pins, n - 1), pins[n - 1])
    }
}

/// The asked-for peripherals as plain values.
pub open spec fn wanted_views(v: Seq<(ModuleKind, u8, Vec<Connection>)>) -> Seq<Wanted> {
    v.map_values(|w: (ModuleKind, u8, Vec<Connection>)| (w.0, w.1, w.2@))
}

fn add_wire_exec(cs: &mut Vec<Connection>, c: Connection)
    ensures
        final(cs)@ == add_wire(old(cs)@, c),
{
    let r = c.signal.rank();
    let mut k: usize = 0;
    while k < cs.len() && cs[k].signal.rank() <= r
        invariant
            k <= cs@.len(),
            r == signal_rank(c.signal),
            cs@ == old(cs)@,
            conn_pos(cs@, signal_rank(c.signal), 0) == conn_pos(cs@, signal_rank(c.signal), k as int),
        decreases cs@.len() - k,
    {
        k = k + 1;
    }
    cs.insert(k, c);
}

impl Mcu {
    /// The peripherals the pads ask for: every pad whose function belongs to
    /// a module, grouped by kind and instance.
    pub(crate) fn wanted_modules(&self) -> (r: Vec<(ModuleKind, u8, Vec<Connection>)>)
        requires
            self.pins_fit(),
        ensures
            wanted_views(r@) == wanted(self.all_pins(), self.all_pins().len() as int),
    {
        let n = self.pin_count();
        let mut ws: Vec<(ModuleKind, u8, Vec<Connection>)> = Vec::new();
        let mut i: usize = 0;
        while i < n
            invariant
                n == self.all_pins().len(),
                i <= n,
                wanted_views(ws@) == wanted(self.all_pins(), i as int),
            decreases n - i,
        {
            let p = self.pin_ref(i);
            let ghost w0 = wanted_views(ws@);
            match module_signal_of(&p.selected_function) {
                None => {},
                Some(t) => {
                    let (k, inst, sig) = t;
                    let ki = k.index();
                    let mut j: usize = 0;
                    while j < ws.len() && (ws[j].0.index() < ki || (ws[j].0.index() == ki && ws[j].1 < inst))
                        invariant
                            j <= ws@.len(),
                            wanted_views(ws@) == w0,
                            ki == kind_index(k),
                            key_pos(w0, k, inst, 0) == key_pos(w0, k, inst, j as int),
                        decreases ws@.len() - j,
                    {
                        j = j + 1;
                    }
                    let c = Connection { signal: sig, mcu_pin: p.number };
                    if j < ws.len() && ws[j].0 == k && ws[j].1 == inst {
                        let mut e = ws.remove(j);
                        add_wire_exec(&mut e.2, c);
                        ws.insert(j, e);
                        assert(wanted_views(ws@) =~= w0.update(
                            j as int,
                            (k, inst, add_wire(w0[j as int].2, c)),
                        ));
                    } else {
                        let mut one: Vec<Connection> = Vec::new();
                        one.push(c);
                        assert(one@ =~= seq![c]);
                        ws.insert(j, (k, inst, one));
                        assert(wanted_views(ws@) =~= w0.insert(j as int, (k, inst, seq![c])));
                    }
                },
            }
            i = i + 1;
        }
        ws
    }
}

// ── Reconciling the module list ────────────────────────────────────────────

/// One module of the reconciled list: `Some(j)` for module `j` of the list
/// before (whose id, name and settings it keeps) or `None` for a new one;
/// then its id, kind, name, instance and wires.
pub type Slot = (Option<int>, Seq<char>, ModuleKind, Seq<char>, u8, Seq<Connection>);

/// Some asked-for peripheral is kind `k`, instance `inst`.
pub open spec fn is_wanted(ws: Seq<Wanted>, k: ModuleKind, inst: u8) -> bool {
    exists|j: int| 0 <= j < ws.len() && #[trigger] ws[j].0 == k && ws[j].1 == inst
}

/// The wires of a Custom module: one per pad of its own list, in order.
pub open spec fn custom_wires(c: ModuleConfig) -> Seq<Connection> {
    match c {
        ModuleConfig::Custom(x) => x.pins@.map_values(
            |p: usize| Connection { signal: ModuleSignal::CustomPin, mcu_pin: p },
        ),
        _ => Seq::empty(),
    }
}

/// Module `j` of `old` as it stays: a Custom module rewired from its own pad
/// list, any other module as it was.
pub open spec fn kept_slot(old: Seq<VirtualModule>, j: int) -> Slot {
    let m = old[j];
    (
        Some(j),
        m.id@,
        m.kind,
        m.name@,
        m.instance,
        if m.kind == ModuleKind::Custom {
            custom_wires(m.config)
        } else {
            m.connections@
        },
    )
}

/// The modules among the first `n` of `old` that stay: every Custom module
/// (only an explicit Remove takes one away) and every module whose
/// peripheral some pad still asks for.
pub open spec fn kept_slots(old: Seq<VirtualModule>, ws: Seq<Wanted>, n: int) -> Seq<Slot>
    decreases n,
{
    if n <= 0 {
        Seq::empty()
    } else {
        let rest = kept_slots(old, ws, n - 1);
        let m = old[n - 1];
        if m.kind == ModuleKind::Custom || is_wanted(ws, m.kind, m.instance) {
            rest.push(kept_slot(old, n - 1))
        } else {
            rest
        }
    }
}

/// The first slot at or after `i` of kind `k`, instance `inst`.
pub open spec fn slot_pos(ss: Seq<Slot>, k: ModuleKind, inst: u8, i: int) -> Option<int>
    decreases ss.len() - i,
{
    if i < 0 || i >= ss.len() {
        None
    } else if ss[i].2 == k && ss[i].4 == inst {
        Some(i)
    } else {
        slot_pos(ss, k, inst, i + 1)
    }
}

/// The ids of a list of slots.
pub open spec fn slot_ids(ss: Seq<Slot>) -> Seq<Seq<char>> {
    ss.map_values(|s: Slot| s.1)
}

/// The id a new module gets beside `ss`: `base_n` for the first free `n`
/// from one more than the count.
pub open spec fn fresh_id(ss: Seq<Slot>, base: Seq<char>) -> Seq<char> {
    candidate(base, choose|n: nat| first_free(slot_ids(ss), base, n))
}

/// The list after peripheral `w` is given its module: the existing one is
/// rewired, or a new one with default settings is added at the end.
pub open spec fn ensure_step(ss: Seq<Slot>, w: Wanted) -> Seq<Slot> {
    match slot_pos(ss, w.0, w.1, 0) {
        Some(p) => ss.update(p, (ss[p].0, ss[p].1, ss[p].2, ss[p].3, ss[p].4, w.2)),
        None => ss.push(
            (
                None,
                fresh_id(ss, lower_all(short_name(w.0))),
                w.0,
                short_name(w.0) + dec(w.1 as nat),
                w.1,
                w.2,
            ),
        ),
    }
}

/// The list after the first `n` asked-for peripherals are given modules.
pub open spec fn ensured(ss: Seq<Slot>, ws: Seq<Wanted>, n: int) -> Seq<Slot>
    decreases n,
{
    if n <= 0 {
        ss
    } else {
        ensure_step(ensured(ss, ws, n - 1), ws[n - 1])
    }
}

/// The module list that mirrors the pads.
pub open spec fn reconciled(old: Seq<VirtualModule>, pins: Seq<Pin>) -> Seq<Slot> {
    let ws = wanted(pins, pins.len() as int);
    ensured(kept_slots(old, ws, old.len() as int), ws, ws.len() as int)
}

/// Module `m` is what slot `s` describes, `old` being the list before: a
/// kept module keeps its id, name and settings; a new one starts with its
/// kind's default settings.
pub open spec fn fills(m: VirtualModule, s: Slot, old: Seq<VirtualModule>) -> bool {
    &&& m.id@ == s.1
    &&& m.kind == s.2
    &&& m.name@ == s.3
    &&& m.instance == s.4
    &&& m.connections@ == s.5
    &&& match s.0 {
        Some(j) => 0 <= j < old.len() && m.id == old[j].id && m.name == old[j].name && m.config
            == old[j].config,
        None => is_default_config(m.config, s.2),
    }
}

proof fn lemma_wanted_len(pins: Seq<Pin>, n: int)
    requires
        0 <= n <= pins.len(),
    ensures
        wanted(pins, n).len() <= n,
    decreases n,
{
    if n > 0 {
        lemma_wanted_len(pins, n - 1);
        let ws = wanted(pins, n - 1);
        if let Some(t) = signal_of(pins[n - 1].selected_function) {
            lemma_key_pos(ws, t.0, t.1, 0);
        }
    }
}

proof fn lemma_key_pos(ws: Seq<Wanted>, k: ModuleKind, inst: u8, i: int)
    requires
        0 <= i <= ws.len(),
    ensures
        i <= key_pos(ws, k, inst, i) <= ws.len(),
    decreases ws.len() - i,
{
    if i < ws.len() {
        lemma_key_pos(ws, k, inst, i + 1);
    }
}

proof fn lemma_kept_len(old: Seq<VirtualModule>, ws: Seq<Wanted>, n: int)
    requires
        0 <= n,
    ensures
        kept_slots(old, ws, n).len() <= n,
    decreases n,
{
    if n > 0 {
        lemma_kept_len(old, ws, n - 1);
    }
}

proof fn lemma_first_free_unique(ids: Seq<Seq<char>>, base: Seq<char>, a: nat, b: nat)
    requires
        first_free(ids, base, a),
        first_free(ids, base, b),
    ensures
        a == b,
{
    if a < b {
        assert(ids.contains(candidate(base, a)));
    }
    if b < a {
        assert(ids.contains(candidate(base, b)));
    }
}

/// The wires of a Custom module's own pad list.
fn custom_wires_of(c: &ModuleConfig) -> (r: Vec<Connection>)
    ensures
        r@ == custom_wires(*c),
{
    let mut out: Vec<Connection> = Vec::new();
    match c {
        ModuleConfig::Custom(x) => {
            let mut i: usize = 0;
            while i < x.pins.len()
                invariant
                    i <= x.pins@.len(),
                    out@ == x.pins@.subrange(0, i as int).map_values(
                        |p: usize| Connection { signal: ModuleSignal::CustomPin, mcu_pin: p },
                    ),
                decreases x.pins@.len() - i,
            {
                out.push(Connection { signal: ModuleSignal::CustomPin, mcu_pin: x.pins[i] });
                i = i + 1;
                assert(out@ =~= x.pins@.subrange(0, i as int).map_values(
                    |p: usize| Connection { signal: ModuleSignal::CustomPin, mcu_pin: p },
                ));
            }
            assert(x.pins@.subrange(0, x.pins@.len() as int) =~= x.pins@);
        },
        _ => {
            assert(out@ =~= custom_wires(*c));
        },
    }
    out
}

fn copy_wires(v: &Vec<Connection>) -> (r: Vec<Connection>)
    ensures
        r@ == v@,
{
    let mut r: Vec<Connection> = Vec::new();
    let mut i: usize = 0;
    while i < v.len()
        invariant
            i <= v@.len(),
            r@ == v@.subrange(0, i as int),
        decreases v@.len() - i,
    {
        r.push(v[i]);
        i = i + 1;
        assert(r@ =~= v@.subrange(0, i as int));
    }
    assert(r@ =~= v@);
    r
}

/// Whether some asked-for peripheral is kind `k`, instance `inst`.
fn wanted_has(ws: &Vec<(ModuleKind, u8, Vec<Connection>)>, k: ModuleKind, inst: u8) -> (r: bool)
    ensures
        r == is_wanted(wanted_views(ws@), k, inst),
{
    let mut j: usize = 0;
    while j < ws.len()
        invariant
            j <= ws@.len(),
            forall|t: int| 0 <= t < j ==> !(wanted_views(ws@)[t].0 == k && wanted_views(ws@)[t].1 == inst),
        decreases ws@.len() - j,
    {
        if ws[j].0 == k && ws[j].1 == inst {
            assert(wanted_views(ws@)[j as int].0 == k);
            return true;
        }
        j = j + 1;
    }
    false
}

impl Mcu {
    /// The pad count and the module list leave room for every module id the
    /// reconcile can need.
    pub open spec fn reconcile_fits(self) -> bool {
        &&& self.pins_fit()
        &&& self.modules@.len() + self.all_pins().len() < usize::MAX / 2
    }

    /// Make the virtual modules mirror the pin assignments: a peripheral
    /// instance with any assigned signal pad gets (or keeps) a module wired to
    /// exactly those pads; an instance with no assigned pad loses its module,
    /// unless it is a Custom one, which only an explicit Remove takes away and
    /// whose wires mirror its own pad list. Existing modules keep their
    /// settings; new ones get the defaults. Never touches the pads.
    pub fn reconcile_modules(&mut self)
        requires
            old(self).reconcile_fits(),
        ensures
            final(self).modules@.len() == reconciled(old(self).modules@, old(self).all_pins()).len(),
            forall|i: int|
                0 <= i < final(self).modules@.len() ==> fills(
                    #[trigger] final(self).modules@[i],
                    reconciled(old(self).modules@, old(self).all_pins())[i],
                    old(self).modules@,
                ),
            *final(self) == (Mcu { modules: final(self).modules, ..*old(self) }),
    {
        let ws = self.wanted_modules();
        let ghost wsv = wanted_views(ws@);
        let ghost orig = self.modules@;
        proof {
            lemma_wanted_len(self.all_pins(), self.all_pins().len() as int);
        }
        let mut rest: Vec<VirtualModule> = Vec::new();
        std::mem::swap(&mut rest, &mut self.modules);
        let mut j: usize = 0;
        while rest.len() > 0
            invariant
                j <= orig.len(),
                orig == old(self).modules@,
                old(self).reconcile_fits(),
                rest@ == orig.subrange(j as int, orig.len() as int),
                wsv == wanted_views(ws@),
                self.modules@.len() == kept_slots(orig, wsv, j as int).len(),
                forall|i: int|
                    0 <= i < self.modules@.len() ==> fills(
                        #[trigger] self.modules@[i],
                        kept_slots(orig, wsv, j as int)[i],
                        orig,
                    ),
                *self == (Mcu { modules: self.modules, ..*old(self) }),
            decreases rest@.len(),
        {
            let ghost before = self.modules@;
            let mut m = rest.remove(0);
            assert(m == orig[j as int]);
            let keep = m.kind.is_custom() || wanted_has(&ws, m.kind, m.instance);
            if keep {
                if m.kind.is_custom() {
                    m.connections = custom_wires_of(&m.config);
                }
                self.modules.push(m);
                assert forall|i: int| 0 <= i < self.modules@.len() implies fills(
                    #[trigger] self.modules@[i],
                    kept_slots(orig, wsv, j + 1)[i],
                    orig,
                ) by {
                    if i < before.len() {
                        assert(self.modules@[i] == before[i]);
                    }
                }
            }
            j = j + 1;
        }
        let ghost kept = kept_slots(orig, wsv, orig.len() as int);
        proof {
            lemma_kept_len(orig, wsv, orig.len() as int);
        }
        let mut t: usize = 0;
        while t < ws.len()
            invariant
                t <= ws@.len(),
                wsv == wanted_views(ws@),
                wsv.len() <= old(self).all_pins().len(),
                kept.len() <= orig.len(),
                orig == old(self).modules@,
                old(self).reconcile_fits(),
                self.modules@.len() == ensured(kept, wsv, t as int).len(),
                self.modules@.len() <= orig.len() + t,
                forall|i: int|
                    0 <= i < self.modules@.len() ==> fills(
                        #[trigger] self.modules@[i],
                        ensured(kept, wsv, t as int)[i],
                        orig,
                    ),
                *self == (Mcu { modules: self.modules, ..*old(self) }),
            decreases ws@.len() - t,
        {
            let ghost ss = ensured(kept, wsv, t as int);
            let ghost before = self.modules@;
            let k = ws[t].0;
            let inst = ws[t].1;
            let mut p: usize = 0;
            while p < self.modules.len() && !(self.modules[p].kind == k && self.modules[p].instance == inst)
                invariant
                    p <= self.modules@.len(),
                    self.modules@ == before,
                    before.len() == ss.len(),
                    forall|i: int| 0 <= i < before.len() ==> fills(#[trigger] before[i], ss[i], orig),
                    slot_pos(ss, k, inst, 0) == slot_pos(ss, k, inst, p as int),
                decreases self.modules@.len() - p,
            {
                assert(fills(before[p as int], ss[p as int], orig));
                p = p + 1;
            }
            let wires = copy_wires(&ws[t].2);
            if p < self.modules.len() {
                assert(fills(before[p as int], ss[p as int], orig));
                assert(slot_pos(ss, k, inst, p as int) == Some(p as int));
                self.modules[p].connections = wires;
                assert forall|i: int| 0 <= i < self.modules@.len() implies fills(
                    #[trigger] self.modules@[i],
                    ensured(kept, wsv, t + 1)[i],
                    orig,
                ) by {
                    if i != p {
                        assert(self.modules@[i] == before[i]);
                    }
                }
            } else {
                let short = k.short();
                let base_chars = lower_chars(&str_chars(short));
                let base = string_of(&base_chars);
                proof {
                    assert(ids_of(before) =~= slot_ids(ss)) by {
                        assert forall|i: int| 0 <= i < before.len() implies ids_of(before)[i] == slot_ids(ss)[i] by {
                            assert(fills(before[i], ss[i], orig));
                        }
                    }
                }
                let id = self.free_module_id(base.as_str());
                proof {
                    let n = choose|n: nat| first_free(ids_of(before), base@, n) && id@ == candidate(base@, n);
                    lemma_first_free_unique(slot_ids(ss), base@, n, choose|n: nat| first_free(slot_ids(ss), base@, n));
                }
                let mut name = crate::text::owned(short);
                push_dec(&mut name, inst as u64);
                let m = VirtualModule {
                    id,
                    kind: k,
                    name,
                    instance: inst,
                    config: k.default_config(inst),
                    connections: wires,
                };
                self.modules.push(m);
                assert forall|i: int| 0 <= i < self.modules@.len() implies fills(
                    #[trigger] self.modules@[i],
                    ensured(kept, wsv, t + 1)[i],
                    orig,
                ) by {
                    if i < before.len() {
                        assert(self.modules@[i] == before[i]);
                    }
                }
            }
            t = t + 1;
        }
    }
}

// ── Laws ───────────────────────────────────────────────────────────────────

/// No two entries of `ids` are equal.
pub open spec fn distinct_ids(ids: Seq<Seq<char>>) -> bool {
    forall|a: int, b: int| 0 <= a < ids.len() && 0 <= b < ids.len() && a != b ==> ids[a] != ids[b]
}

/// There is always a first free number: at most `ids.len()` of the numbers
/// from `ids.len() + 1` on can be taken.
proof fn lemma_first_free_exists(ids: Seq<Seq<char>>, base: Seq<char>, n: nat)
    requires
        ids.len() + 1 <= n <= 2 * ids.len() + 1,
        forall|m: nat| ids.len() + 1 <= m < n ==> ids.contains(#[trigger] candidate(base, m)),
    ensures
        exists|k: nat| first_free(ids, base, k),
    decreases 2 * ids.len() + 1 - n,
{
    if !ids.contains(candidate(base, n)) {
        assert(first_free(ids, base, n));
    } else {
        lemma_taken_run_fits(ids, base, (ids.len() + 1) as int, (n + 1) as int);
        lemma_first_free_exists(ids, base, n + 1);
    }
}

/// Every kept slot is an old module, in old order.
proof fn lemma_kept_origins(old: Seq<VirtualModule>, ws: Seq<Wanted>, n: int)
    requires
        0 <= n <= old.len(),
    ensures
        forall|i: int|
            0 <= i < kept_slots(old, ws, n).len() ==> ((#[trigger] kept_slots(old, ws, n)[i]).0 is Some
                && 0 <= kept_slots(old, ws, n)[i].0->0 < n && kept_slots(old, ws, n)[i].1
                == old[kept_slots(old, ws, n)[i].0->0].id@ && kept_slots(old, ws, n)[i].2
                == old[kept_slots(old, ws, n)[i].0->0].kind && kept_slots(old, ws, n)[i].4
                == old[kept_slots(old, ws, n)[i].0->0].instance),
        forall|a: int, b: int|
            0 <= a < b < kept_slots(old, ws, n).len() ==> kept_slots(old, ws, n)[a].0->0
                < kept_slots(old, ws, n)[b].0->0,
    decreases n,
{
    if n > 0 {
        lemma_kept_origins(old, ws, n - 1);
    }
}

/// A new module's id is used by no module already in the list.
proof fn lemma_fresh_is_free(ss: Seq<Slot>, base: Seq<char>)
    ensures
        !slot_ids(ss).contains(fresh_id(ss, base)),
{
    lemma_first_free_exists(slot_ids(ss), base, (slot_ids(ss).len() + 1) as nat);
}

proof fn lemma_ensured_distinct(ss: Seq<Slot>, ws: Seq<Wanted>, n: int)
    requires
        0 <= n <= ws.len(),
        distinct_ids(slot_ids(ss)),
    ensures
        distinct_ids(slot_ids(ensured(ss, ws, n))),
    decreases n,
{
    if n > 0 {
        lemma_ensured_distinct(ss, ws, n - 1);
        let prev = ensured(ss, ws, n - 1);
        let w = ws[n - 1];
        match slot_pos(prev, w.0, w.1, 0) {
            Some(p) => {
                lemma_slot_pos(prev, w.0, w.1, 0);
                assert(slot_ids(ensure_step(prev, w)) =~= slot_ids(prev));
            },
            None => {
                let base = lower_all(short_name(w.0));
                lemma_fresh_is_free(prev, base);
                let next = ensure_step(prev, w);
                assert(slot_ids(next) =~= slot_ids(prev).push(fresh_id(prev, base)));
                assert forall|a: int, b: int|
                    0 <= a < slot_ids(next).len() && 0 <= b < slot_ids(next).len() && a != b implies slot_ids(
                    next,
                )[a] != slot_ids(next)[b] by {
                    if a == prev.len() {
                        assert(slot_ids(prev).contains(slot_ids(next)[b]));
                    } else if b == prev.len() {
                        assert(slot_ids(prev).contains(slot_ids(next)[a]));
                    }
                }
            },
        }
    }
}

proof fn lemma_slot_pos(ss: Seq<Slot>, k: ModuleKind, inst: u8, i: int)
    requires
        0 <= i,
    ensures
        slot_pos(ss, k, inst, i) matches Some(p) ==> i <= p < ss.len() && ss[p].2 == k && ss[p].4
            == inst,
        slot_pos(ss, k, inst, i) is None ==> forall|j: int|
            i <= j < ss.len() ==> !(ss[j].2 == k && ss[j].4 == inst),
    decreases ss.len() - i,
{
    if i < ss.len() {
        lemma_slot_pos(ss, k, inst, i + 1);
    }
}

/// Reconciling never hands out an id that is in use: module ids that were
/// distinct stay distinct, however the pads were re-wired.
pub proof fn lemma_reconciled_ids_distinct(old: Seq<VirtualModule>, pins: Seq<Pin>)
    requires
        distinct_ids(ids_of(old)),
    ensures
        distinct_ids(slot_ids(reconciled(old, pins))),
{
    let ws = wanted(pins, pins.len() as int);
    let kept = kept_slots(old, ws, old.len() as int);
    lemma_kept_origins(old, ws, old.len() as int);
    assert forall|a: int, b: int|
        0 <= a < slot_ids(kept).len() && 0 <= b < slot_ids(kept).len() && a != b implies slot_ids(
        kept,
    )[a] != slot_ids(kept)[b] by {
        let ja = kept[a].0->0;
        let jb = kept[b].0->0;
        if a < b {
            assert(ja < jb);
        } else {
            assert(jb < ja);
        }
        assert(ids_of(old)[ja] != ids_of(old)[jb]);
    }
    lemma_ensured_distinct(kept, ws, ws.len() as int);
}

/// Every module the reconcile leaves is wanted by some pad or is a Custom
/// one, and every peripheral some pad asks for has a module of its kind and
/// instance.
pub proof fn lemma_reconciled_mirrors_pads(old: Seq<VirtualModule>, pins: Seq<Pin>)
    ensures
        forall|t: int|
            0 <= t < wanted(pins, pins.len() as int).len() ==> #[trigger] slot_pos(
                reconciled(old, pins),
                wanted(pins, pins.len() as int)[t].0,
                wanted(pins, pins.len() as int)[t].1,
                0,
            ) is Some,
{
    let ws = wanted(pins, pins.len() as int);
    let kept = kept_slots(old, ws, old.len() as int);
    lemma_ensured_covers(kept, ws, ws.len() as int);
}

proof fn lemma_ensured_covers(ss: Seq<Slot>, ws: Seq<Wanted>, n: int)
    requires
        0 <= n <= ws.len(),
    ensures
        forall|t: int| 0 <= t < n ==> #[trigger] slot_pos(ensured(ss, ws, n), ws[t].0, ws[t].1, 0) is Some,
    decreases n,
{
    if n > 0 {
        lemma_ensured_covers(ss, ws, n - 1);
        let prev = ensured(ss, ws, n - 1);
        let next = ensured(ss, ws, n);
        let w = ws[n - 1];
        lemma_slot_pos(prev, w.0, w.1, 0);
        assert forall|t: int| 0 <= t < n implies #[trigger] slot_pos(next, ws[t].0, ws[t].1, 0) is Some by {
            lemma_slot_pos(prev, ws[t].0, ws[t].1, 0);
            lemma_slot_pos(next, ws[t].0, ws[t].1, 0);
            if t < n - 1 {
                let q = slot_pos(prev, ws[t].0, ws[t].1, 0)->0;
                assert(next[q].2 == ws[t].0 && next[q].4 == ws[t].1);
            } else {
                match slot_pos(prev, w.0, w.1, 0) {
                    Some(p) => {
                        assert(next[p].2 == w.0 && next[p].4 == w.1);
                    },
                    None => {
                        assert(next[prev.len() as int].2 == w.0 && next[prev.len() as int].4 == w.1);
                    },
                }
            }
        }
    }
}

// ── Reconciling twice ──────────────────────────────────────────────────────

/// The asked-for peripherals are strictly sorted by kind, then instance.
pub open spec fn keys_sorted(ws: Seq<Wanted>) -> bool {
    forall|a: int, b: int| 0 <= a < b < ws.len() ==> key_before(ws[a].0, ws[a].1, ws[b].0, ws[b].1)
}

proof fn lemma_kind_index_injective(a: ModuleKind, b: ModuleKind)
    requires
        kind_index(a) == kind_index(b),
    ensures
        a == b,
{
}

proof fn lemma_key_pos_props(ws: Seq<Wanted>, k: ModuleKind, inst: u8, i: int)
    requires
        0 <= i <= ws.len(),
    ensures
        i <= key_pos(ws, k, inst, i) <= ws.len(),
        forall|j: int| i <= j < key_pos(ws, k, inst, i) ==> key_before(ws[j].0, ws[j].1, k, inst),
        key_pos(ws, k, inst, i) < ws.len() ==> !key_before(
            ws[key_pos(ws, k, inst, i)].0,
            ws[key_pos(ws, k, inst, i)].1,
            k,
            inst,
        ),
    decreases ws.len() - i,
{
    if i < ws.len() {
        lemma_key_pos_props(ws, k, inst, i + 1);
    }
}

proof fn lemma_wanted_sorted(pins: Seq<Pin>, n: int)
    requires
        0 <= n <= pins.len(),
    ensures
        keys_sorted(wanted(pins, n)),
    decreases n,
{
    if n > 0 {
        lemma_wanted_sorted(pins, n - 1);
        let ws = wanted(pins, n - 1);
        if let Some(t) = signal_of(pins[n - 1].selected_function) {
            lemma_key_pos_props(ws, t.0, t.1, 0);
            let j = key_pos(ws, t.0, t.1, 0);
            let next = wanted(pins, n);
            if !(j < ws.len() && ws[j].0 == t.0 && ws[j].1 == t.1) {
                assert(next == ws.insert(j, (t.0, t.1, seq![Connection { signal: t.2, mcu_pin: pins[n - 1].number }])));
                if j < ws.len() {
                    assert(key_before(t.0, t.1, ws[j].0, ws[j].1)) by {
                        if kind_index(ws[j].0) == kind_index(t.0) && ws[j].1 == t.1 {
                            lemma_kind_index_injective(ws[j].0, t.0);
                        }
                    }
                }
                assert forall|a: int, b: int| 0 <= a < b < next.len() implies key_before(
                    next[a].0,
                    next[a].1,
                    next[b].0,
                    next[b].1,
                ) by {
                    if b < j {
                    } else if b == j {
                    } else if a == j {
                        assert(next[b] == ws[b - 1]);
                        if b - 1 > j {
                            assert(key_before(ws[j].0, ws[j].1, ws[b - 1].0, ws[b - 1].1));
                        }
                    } else if a < j {
                        assert(next[b] == ws[b - 1]);
                    } else {
                        assert(next[a] == ws[a - 1]);
                        assert(next[b] == ws[b - 1]);
                    }
                }
            }
        }
    }
}

/// Sorted keys are distinct keys.
proof fn lemma_sorted_distinct(ws: Seq<Wanted>, a: int, b: int)
    requires
        keys_sorted(ws),
        0 <= a < ws.len(),
        0 <= b < ws.len(),
        a != b,
    ensures
        !(ws[a].0 == ws[b].0 && ws[a].1 == ws[b].1),
{
    if a < b {
        assert(key_before(ws[a].0, ws[a].1, ws[b].0, ws[b].1));
    } else {
        assert(key_before(ws[b].0, ws[b].1, ws[a].0, ws[a].1));
    }
}

/// After the first `n` peripherals are given modules, the first slot of
/// each carries its wires.
proof fn lemma_ensured_wires(ss: Seq<Slot>, ws: Seq<Wanted>, n: int)
    requires
        0 <= n <= ws.len(),
        keys_sorted(ws),
    ensures
        ss.len() <= ensured(ss, ws, n).len(),
        forall|i: int| 0 <= i < ss.len() ==> (#[trigger] ensured(ss, ws, n)[i]).2 == ss[i].2
            && ensured(ss, ws, n)[i].4 == ss[i].4,
        forall|t: int|
            0 <= t < n ==> #[trigger] slot_pos(ensured(ss, ws, n), ws[t].0, ws[t].1, 0) is Some
                && ensured(ss, ws, n)[slot_pos(ensured(ss, ws, n), ws[t].0, ws[t].1, 0)->0].5
                == ws[t].2,
    decreases n,
{
    if n > 0 {
        lemma_ensured_wires(ss, ws, n - 1);
        let prev = ensured(ss, ws, n - 1);
        let next = ensured(ss, ws, n);
        let w = ws[n - 1];
        lemma_slot_pos(prev, w.0, w.1, 0);
        assert forall|t: int| 0 <= t < n implies #[trigger] slot_pos(next, ws[t].0, ws[t].1, 0) is Some
            && next[slot_pos(next, ws[t].0, ws[t].1, 0)->0].5 == ws[t].2 by {
            lemma_slot_pos(prev, ws[t].0, ws[t].1, 0);
            lemma_slot_pos(next, ws[t].0, ws[t].1, 0);
            if t < n - 1 {
                lemma_sorted_distinct(ws, t, n - 1);
                let q = slot_pos(prev, ws[t].0, ws[t].1, 0)->0;
                lemma_slot_pos_same(prev, next, ws[t].0, ws[t].1, 0);
            } else {
                match slot_pos(prev, w.0, w.1, 0) {
                    Some(p) => {
                        lemma_slot_pos_same(prev, next, w.0, w.1, 0);
                    },
                    None => {
                        lemma_slot_pos_push(prev, next, w.0, w.1, 0);
                    },
                }
            }
        }
        assert forall|i: int| 0 <= i < ss.len() implies (#[trigger] next[i]).2 == ss[i].2 && next[i].4
            == ss[i].4 by {
            assert(next[i].2 == prev[i].2 && next[i].4 == prev[i].4);
        }
    }
}

/// A list whose slots keep their kinds and instances answers a key lookup
/// the same way.
proof fn lemma_slot_pos_same(a: Seq<Slot>, b: Seq<Slot>, k: ModuleKind, inst: u8, i: int)
    requires
        0 <= i,
        a.len() <= b.len(),
        forall|j: int| 0 <= j < a.len() ==> b[j].2 == a[j].2 && b[j].4 == a[j].4,
        slot_pos(a, k, inst, i) is Some,
    ensures
        slot_pos(b, k, inst, i) == slot_pos(a, k, inst, i),
    decreases a.len() - i,
{
    if i < a.len() && !(a[i].2 == k && a[i].4 == inst) {
        lemma_slot_pos_same(a, b, k, inst, i + 1);
    }
}

/// A key absent from `a` is found at the slot pushed after it.
proof fn lemma_slot_pos_push(a: Seq<Slot>, b: Seq<Slot>, k: ModuleKind, inst: u8, i: int)
    requires
        0 <= i <= a.len(),
        b.len() == a.len() + 1,
        forall|j: int| 0 <= j < a.len() ==> b[j].2 == a[j].2 && b[j].4 == a[j].4,
        slot_pos(a, k, inst, i) is None,
        b[a.len() as int].2 == k,
        b[a.len() as int].4 == inst,
    ensures
        slot_pos(b, k, inst, i) == Some(a.len() as int),
    decreases a.len() - i,
{
    if i < a.len() {
        lemma_slot_pos_push(a, b, k, inst, i + 1);
    }
}

/// Every slot the reconcile leaves is a Custom module or one a pad asks for;
/// a Custom one is always a kept one, wired from its own pad list.
proof fn lemma_ensured_kinds(old: Seq<VirtualModule>, ss: Seq<Slot>, ws: Seq<Wanted>, n: int)
    requires
        0 <= n <= ws.len(),
        forall|t: int| 0 <= t < ws.len() ==> (#[trigger] ws[t]).0 != ModuleKind::Custom,
        forall|i: int|
            0 <= i < ss.len() ==> ((#[trigger] ss[i]).2 == ModuleKind::Custom && ss[i].0 is Some
                && 0 <= ss[i].0->0 < old.len() && ss[i].5 == custom_wires(old[ss[i].0->0].config))
                || (ss[i].2 != ModuleKind::Custom && is_wanted(ws, ss[i].2, ss[i].4)),
    ensures
        forall|i: int|
            0 <= i < ensured(ss, ws, n).len() ==> ((#[trigger] ensured(ss, ws, n)[i]).2
                == ModuleKind::Custom && ensured(ss, ws, n)[i].0 is Some && 0 <= ensured(ss, ws, n)[i].0->0
                < old.len() && ensured(ss, ws, n)[i].5 == custom_wires(
                old[ensured(ss, ws, n)[i].0->0].config,
            )) || (ensured(ss, ws, n)[i].2 != ModuleKind::Custom && is_wanted(
                ws,
                ensured(ss, ws, n)[i].2,
                ensured(ss, ws, n)[i].4,
            )),
    decreases n,
{
    if n > 0 {
        lemma_ensured_kinds(old, ss, ws, n - 1);
        let prev = ensured(ss, ws, n - 1);
        let next = ensured(ss, ws, n);
        let w = ws[n - 1];
        lemma_slot_pos(prev, w.0, w.1, 0);
        assert(ws[n - 1].0 != ModuleKind::Custom);
        assert forall|i: int| 0 <= i < next.len() implies ((#[trigger] next[i]).2 == ModuleKind::Custom
            && next[i].0 is Some && 0 <= next[i].0->0 < old.len() && next[i].5 == custom_wires(
            old[next[i].0->0].config,
        )) || (next[i].2 != ModuleKind::Custom && is_wanted(ws, next[i].2, next[i].4)) by {
            if i < prev.len() {
                match slot_pos(prev, w.0, w.1, 0) {
                    Some(p) => {
                        if i == p {
                            assert(ws[n - 1].0 == w.0);
                        } else {
                            assert(next[i] == prev[i]);
                        }
                    },
                    None => {
                        assert(next[i] == prev[i]);
                    },
                }
            } else {
                assert(ws[n - 1].0 == next[i].2 && ws[n - 1].1 == next[i].4);
            }
        }
    }
}

/// Kept slots are Custom (and wired from their own list) or asked for.
proof fn lemma_kept_kinds(old: Seq<VirtualModule>, ws: Seq<Wanted>, n: int)
    requires
        0 <= n <= old.len(),
    ensures
        forall|i: int|
            0 <= i < kept_slots(old, ws, n).len() ==> ((#[trigger] kept_slots(old, ws, n)[i]).2
                == ModuleKind::Custom && kept_slots(old, ws, n)[i].0 is Some && 0 <= kept_slots(
                old,
                ws,
                n,
            )[i].0->0 < old.len() && kept_slots(old, ws, n)[i].5 == custom_wires(
                old[kept_slots(old, ws, n)[i].0->0].config,
            )) || (kept_slots(old, ws, n)[i].2 != ModuleKind::Custom && is_wanted(
                ws,
                kept_slots(old, ws, n)[i].2,
                kept_slots(old, ws, n)[i].4,
            )),
    decreases n,
{
    if n > 0 {
        lemma_kept_kinds(old, ws, n - 1);
    }
}

proof fn lemma_wanted_not_custom(pins: Seq<Pin>, n: int)
    requires
        0 <= n <= pins.len(),
    ensures
        forall|t: int| 0 <= t < wanted(pins, n).len() ==> (#[trigger] wanted(pins, n)[t]).0 != ModuleKind::Custom,
    decreases n,
{
    if n > 0 {
        lemma_wanted_not_custom(pins, n - 1);
        let ws = wanted(pins, n - 1);
        if let Some(t) = signal_of(pins[n - 1].selected_function) {
            lemma_key_pos(ws, t.0, t.1, 0);
            let next = wanted(pins, n);
            assert forall|i: int| 0 <= i < next.len() implies (#[trigger] next[i]).0 != ModuleKind::Custom by {
                let j = key_pos(ws, t.0, t.1, 0);
                if j < ws.len() && ws[j].0 == t.0 && ws[j].1 == t.1 {
                } else {
                    if i < j {
                        assert(next[i] == ws[i]);
                    } else if i > j {
                        assert(next[i] == ws[i - 1]);
                    }
                }
            }
        }
    }
}

/// Reconciling is idempotent: once the modules mirror the pads, reconciling
/// again keeps every module where it is, with its id, name, instance,
/// settings and wires.
pub proof fn lemma_reconcile_idempotent(
    old: Seq<VirtualModule>,
    pins: Seq<Pin>,
    mid: Seq<VirtualModule>,
)
    requires
        mid.len() == reconciled(old, pins).len(),
        forall|i: int| 0 <= i < mid.len() ==> fills(#[trigger] mid[i], reconciled(old, pins)[i], old),
    ensures
        reconciled(mid, pins).len() == mid.len(),
        forall|i: int|
            0 <= i < mid.len() ==> #[trigger] reconciled(mid, pins)[i] == (
                Some(i),
                mid[i].id@,
                mid[i].kind,
                mid[i].name@,
                mid[i].instance,
                mid[i].connections@,
            ),
{
    let ws = wanted(pins, pins.len() as int);
    let k0 = kept_slots(old, ws, old.len() as int);
    let s1 = reconciled(old, pins);
    lemma_wanted_sorted(pins, pins.len() as int);
    lemma_wanted_not_custom(pins, pins.len() as int);
    lemma_kept_kinds(old, ws, old.len() as int);
    lemma_ensured_kinds(old, k0, ws, ws.len() as int);
    let target = Seq::new(
        mid.len(),
        |i: int|
            (
                Some(i),
                mid[i].id@,
                mid[i].kind,
                mid[i].name@,
                mid[i].instance,
                mid[i].connections@,
            ),
    );
    // Every module of `mid` stays, and a Custom one is already wired from its list.
    assert forall|i: int| 0 <= i < mid.len() implies mid[i].kind == ModuleKind::Custom || is_wanted(
        ws,
        mid[i].kind,
        mid[i].instance,
    ) by {
        assert(fills(mid[i], s1[i], old));
    }
    lemma_kept_all(mid, ws, mid.len() as int);
    let k1 = kept_slots(mid, ws, mid.len() as int);
    assert(k1 =~= target) by {
        assert forall|i: int| 0 <= i < mid.len() implies k1[i] == target[i] by {
            assert(fills(mid[i], s1[i], old));
            if mid[i].kind == ModuleKind::Custom {
                assert(s1[i].2 == ModuleKind::Custom);
                assert(mid[i].config == old[s1[i].0->0].config);
            }
        }
    }
    // Each asked-for peripheral finds its module already wired as asked.
    lemma_ensured_wires(k0, ws, ws.len() as int);
    lemma_ensured_fixed(target, s1, ws, ws.len() as int);
}

proof fn lemma_kept_all(ms: Seq<VirtualModule>, ws: Seq<Wanted>, n: int)
    requires
        0 <= n <= ms.len(),
        forall|i: int| 0 <= i < ms.len() ==> ms[i].kind == ModuleKind::Custom || is_wanted(ws, ms[i].kind, ms[i].instance),
    ensures
        kept_slots(ms, ws, n).len() == n,
        forall|i: int| 0 <= i < n ==> #[trigger] kept_slots(ms, ws, n)[i] == kept_slot(ms, i),
    decreases n,
{
    if n > 0 {
        lemma_kept_all(ms, ws, n - 1);
    }
}

/// Giving modules to peripherals that each already find their first slot
/// wired as asked changes nothing.
proof fn lemma_ensured_fixed(ss: Seq<Slot>, s1: Seq<Slot>, ws: Seq<Wanted>, n: int)
    requires
        0 <= n <= ws.len(),
        ss.len() == s1.len(),
        forall|i: int| 0 <= i < ss.len() ==> ss[i].2 == s1[i].2 && ss[i].4 == s1[i].4 && ss[i].5 == s1[i].5,
        forall|t: int|
            0 <= t < ws.len() ==> #[trigger] slot_pos(s1, ws[t].0, ws[t].1, 0) is Some
                && s1[slot_pos(s1, ws[t].0, ws[t].1, 0)->0].5 == ws[t].2,
    ensures
        ensured(ss, ws, n) == ss,
    decreases n,
{
    if n > 0 {
        lemma_ensured_fixed(ss, s1, ws, n - 1);
        let w = ws[n - 1];
        assert(slot_pos(s1, ws[n - 1].0, ws[n - 1].1, 0) is Some);
        lemma_slot_pos_same(s1, ss, w.0, w.1, 0);
        let p = slot_pos(ss, w.0, w.1, 0)->0;
        lemma_slot_pos(ss, w.0, w.1, 0);
        assert(ensure_step(ss, w) =~= ss.update(p, (ss[p].0, ss[p].1, ss[p].2, ss[p].3, ss[p].4, w.2)));
        assert(ss[p] == (ss[p].0, ss[p].1, ss[p].2, ss[p].3, ss[p].4, w.2));
        assert(ss.update(p, ss[p]) =~= ss);
    }
}

/// An id that was free stays the id it always was: when `base_n`, `n` one
/// more than the count, is unused, a new module gets exactly that id.
pub proof fn lemma_uncontested_id_keeps_its_number(ss: Seq<Slot>, base: Seq<char>)
    requires
        !slot_ids(ss).contains(candidate(base, (ss.len() + 1) as nat)),
    ensures
        fresh_id(ss, base) == candidate(base, (ss.len() + 1) as nat),
{
    let n = (ss.len() + 1) as nat;
    assert(slot_ids(ss).len() == ss.len());
    assert(first_free(slot_ids(ss), base, n));
    let m = choose|m: nat| first_free(slot_ids(ss), base, m);
    lemma_first_free_unique(slot_ids(ss), base, n, m);
}

proof fn lemma_kept_has_custom(old: Seq<VirtualModule>, ws: Seq<Wanted>, n: int, j: int)
    requires
        0 <= j < n <= old.len(),
        old[j].kind == ModuleKind::Custom,
    ensures
        exists|i: int| 0 <= i < kept_slots(old, ws, n).len() && (#[trigger] kept_slots(old, ws, n)[i]).0 == Some(j),
    decreases n,
{
    if j < n - 1 {
        lemma_kept_has_custom(old, ws, n - 1, j);
        let i = choose|i: int|
            0 <= i < kept_slots(old, ws, n - 1).len() && (#[trigger] kept_slots(old, ws, n - 1)[i]).0
                == Some(j);
        assert(kept_slots(old, ws, n)[i] == kept_slots(old, ws, n - 1)[i]);
    } else {
        let k = kept_slots(old, ws, n);
        assert(k[k.len() - 1].0 == Some(j));
    }
}

proof fn lemma_ensured_keeps_origins(ss: Seq<Slot>, ws: Seq<Wanted>, n: int)
    requires
        0 <= n <= ws.len(),
    ensures
        ss.len() <= ensured(ss, ws, n).len(),
        forall|i: int| 0 <= i < ss.len() ==> #[trigger] ensured(ss, ws, n)[i].0 == ss[i].0,
    decreases n,
{
    if n > 0 {
        lemma_ensured_keeps_origins(ss, ws, n - 1);
        let prev = ensured(ss, ws, n - 1);
        lemma_slot_pos(prev, ws[n - 1].0, ws[n - 1].1, 0);
        assert forall|i: int| 0 <= i < ss.len() implies #[trigger] ensured(ss, ws, n)[i].0 == ss[i].0 by {
            assert(prev[i].0 == ss[i].0);
        }
    }
}

/// Only an explicit Remove takes a Custom module away: every Custom module
/// survives a reconcile, whatever the pads carry.
pub proof fn lemma_custom_modules_survive(old: Seq<VirtualModule>, pins: Seq<Pin>, j: int)
    requires
        0 <= j < old.len(),
        old[j].kind == ModuleKind::Custom,
    ensures
        exists|i: int|
            0 <= i < reconciled(old, pins).len() && (#[trigger] reconciled(old, pins)[i]).0 == Some(j),
{
    let ws = wanted(pins, pins.len() as int);
    let k0 = kept_slots(old, ws, old.len() as int);
    lemma_kept_has_custom(old, ws, old.len() as int, j);
    let i = choose|i: int| 0 <= i < k0.len() && (#[trigger] k0[i]).0 == Some(j);
    lemma_ensured_keeps_origins(k0, ws, ws.len() as int);
    assert(reconciled(old, pins)[i].0 == Some(j));
}


/// No two modules stand for the same peripheral: kind and instance.
pub open spec fn one_module_per_peripheral(ms: Seq<VirtualModule>) -> bool {
    forall|a: int, b: int|
        0 <= a < ms.len() && 0 <= b < ms.len() && a != b ==> !(#[trigger] ms[a].kind == #[trigger] ms[b].kind
            && ms[a].instance == ms[b].instance)
}

/// No two slots stand for the same peripheral.
pub open spec fn one_slot_per_peripheral(ss: Seq<Slot>) -> bool {
    forall|a: int, b: int|
        0 <= a < ss.len() && 0 <= b < ss.len() && a != b ==> !(#[trigger] ss[a].2 == #[trigger] ss[b].2
            && ss[a].4 == ss[b].4)
}

proof fn lemma_ensured_one_per_peripheral(ss: Seq<Slot>, ws: Seq<Wanted>, n: int)
    requires
        0 <= n <= ws.len(),
        one_slot_per_peripheral(ss),
    ensures
        one_slot_per_peripheral(ensured(ss, ws, n)),
    decreases n,
{
    if n > 0 {
        lemma_ensured_one_per_peripheral(ss, ws, n - 1);
        let prev = ensured(ss, ws, n - 1);
        let w = ws[n - 1];
        lemma_slot_pos(prev, w.0, w.1, 0);
        let next = ensured(ss, ws, n);
        match slot_pos(prev, w.0, w.1, 0) {
            Some(p) => {
                assert forall|a: int, b: int|
                    0 <= a < next.len() && 0 <= b < next.len() && a != b implies !(
                    #[trigger] next[a].2 == #[trigger] next[b].2 && next[a].4 == next[b].4) by {
                    assert(next[a].2 == prev[a].2 && next[a].4 == prev[a].4);
                    assert(next[b].2 == prev[b].2 && next[b].4 == prev[b].4);
                }
            },
            None => {
                assert forall|a: int, b: int|
                    0 <= a < next.len() && 0 <= b < next.len() && a != b implies !(
                    #[trigger] next[a].2 == #[trigger] next[b].2 && next[a].4 == next[b].4) by {
                    if a < prev.len() && b < prev.len() {
                        assert(next[a] == prev[a] && next[b] == prev[b]);
                    } else if a < prev.len() {
                        assert(next[a] == prev[a]);
                    } else {
                        assert(next[b] == prev[b]);
                    }
                }
            },
        }
    }
}

/// Reconciling leaves one module per peripheral: when no two modules stood
/// for the same kind and instance before, none do after, however the pads
/// were re-wired.
pub proof fn lemma_reconciled_one_per_peripheral(old: Seq<VirtualModule>, pins: Seq<Pin>)
    requires
        one_module_per_peripheral(old),
    ensures
        one_slot_per_peripheral(reconciled(old, pins)),
{
    let ws = wanted(pins, pins.len() as int);
    let kept = kept_slots(old, ws, old.len() as int);
    lemma_kept_origins(old, ws, old.len() as int);
    assert forall|a: int, b: int|
        0 <= a < kept.len() && 0 <= b < kept.len() && a != b implies !(#[trigger] kept[a].2
        == #[trigger] kept[b].2 && kept[a].4 == kept[b].4) by {
        let ja = kept[a].0->0;
        let jb = kept[b].0->0;
        if a < b {
            assert(ja < jb);
        } else {
            assert(jb < ja);
        }
        assert(!(old[ja].kind == old[jb].kind && old[ja].instance == old[jb].instance));
    }
    lemma_wanted_len(pins, pins.len() as int);
    lemma_ensured_one_per_peripheral(kept, ws, ws.len() as int);
}


/// What [`Mcu::reconcile_modules`] leaves behind, when every module had its
/// own id and its own peripheral before: the ids are still distinct, each
/// peripheral still has at most one module, and reconciling again against
/// the same pads changes nothing (every module keeps its place, id, name,
/// instance and wires).
pub proof fn lemma_reconcile_invariants(old: Seq<VirtualModule>, pins: Seq<Pin>, new: Seq<VirtualModule>)
    requires
        distinct_ids(ids_of(old)),
        one_module_per_peripheral(old),
        new.len() == reconciled(old, pins).len(),
        forall|i: int| 0 <= i < new.len() ==> fills(#[trigger] new[i], reconciled(old, pins)[i], old),
    ensures
        distinct_ids(ids_of(new)),
        one_module_per_peripheral(new),
        reconciled(new, pins).len() == new.len(),
        forall|i: int|
            0 <= i < new.len() ==> #[trigger] reconciled(new, pins)[i] == (
                Some(i),
                new[i].id@,
                new[i].kind,
                new[i].name@,
                new[i].instance,
                new[i].connections@,
            ),
{
    let rs = reconciled(old, pins);
    lemma_reconciled_ids_distinct(old, pins);
    lemma_reconciled_one_per_peripheral(old, pins);
    assert forall|a: int, b: int|
        0 <= a < ids_of(new).len() && 0 <= b < ids_of(new).len() && a != b implies ids_of(new)[a]
        != ids_of(new)[b] by {
        assert(fills(new[a], rs[a], old));
        assert(fills(new[b], rs[b], old));
        assert(slot_ids(rs)[a] != slot_ids(rs)[b]);
    }
    assert forall|a: int, b: int|
        0 <= a < new.len() && 0 <= b < new.len() && a != b implies !(#[trigger] new[a].kind
        == #[trigger] new[b].kind && new[a].instance == new[b].instance) by {
        assert(fills(new[a], rs[a], old));
        assert(fills(new[b], rs[b], old));
        assert(!(rs[a].2 == rs[b].2 && rs[a].4 == rs[b].4));
    }
    lemma_reconcile_idempotent(old, pins, new);
}

} // verus!
