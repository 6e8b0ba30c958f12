//! What the Pins canvas decides about a module box: its silhouette family,
//! the side of the chip it faces, the colours it is painted in, and the
//! short labels of its settings.

use vstd::prelude::*;
use vstd::utf8::encode_utf8;
use std::collections::HashSet;
use crate::assign::wired_pads;
use crate::groups::live_holder_from;
use crate::model::Mcu;
use crate::modules::{ModuleConfig, ModuleKind, Parity, StopBits, VirtualModule};
use crate::text::{chars_eq_str, owned, same_text, str_chars, string_of, trim, trimmed};

verus! {

broadcast use vstd::std_specs::hash::group_hash_axioms;

/// Module `m` names pad `n` itself: a Custom module through its own pin
/// list, a Timer module through its channel wires.
pub open spec fn owns_pad(m: VirtualModule, n: usize) -> bool {
    ||| m.kind == ModuleKind::Custom && (match m.config {
        ModuleConfig::Custom(c) => c.pins@.contains(n),
        _ => false,
    })
    ||| m.kind == ModuleKind::GenericInterfaceTimer && wired_pads(m.connections@).contains(n)
}

/// The first `k` entries of `s`, as a set.
pub open spec fn first_k(s: Seq<usize>, k: int) -> Set<usize> {
    Set::new(|n: usize| exists|j: int| 0 <= j < k && #[trigger] s[j] == n)
}

/// Inserting entry `k` of `s` into `acc ∪ first_k(s, k)` gives
/// `acc ∪ first_k(s, k + 1)`.
proof fn lemma_first_k_step(acc: Set<usize>, s: Seq<usize>, k: int)
    requires
        0 <= k < s.len(),
    ensures
        acc.union(first_k(s, k)).insert(s[k]) =~= acc.union(first_k(s, k + 1)),
{
    assert forall|n: usize| #[trigger] first_k(s, k + 1).contains(n) implies first_k(s, k).insert(
        s[k],
    ).contains(n) by {
        let j = choose|j: int| 0 <= j < k + 1 && #[trigger] s[j] == n;
        if j < k {
            assert(first_k(s, k).contains(n));
        }
    }
    assert forall|n: usize| #[trigger] first_k(s, k).contains(n) implies first_k(s, k + 1).contains(n) by {
        let j = choose|j: int| 0 <= j < k && #[trigger] s[j] == n;
        assert(0 <= j < k + 1 && s[j] == n);
    }
    assert(first_k(s, k + 1).contains(s[k]));
}

/// The pads owned by the first `k` of `ms`.
pub open spec fn owned_by(ms: Seq<VirtualModule>, k: int) -> Set<usize> {
    Set::new(|n: usize| exists|i: int| 0 <= i < k && #[trigger] owns_pad(ms[i], n))
}

/// Every pin whose NAME belongs to a virtual module, so no rename field is
/// floated beside the chip for it: a Custom module's pins (renamed inside its
/// own box) and a Timer module's channel pads (named by its PWM handle).
pub fn module_owned_pins(mcu: &Mcu) -> (r: HashSet<usize>)
    ensures
        r@ == owned_by(mcu.modules@, mcu.modules@.len() as int),
{
    let mut owned: HashSet<usize> = HashSet::new();
    let mut i: usize = 0;
    while i < mcu.modules.len()
        invariant
            i <= mcu.modules@.len(),
            owned@ == owned_by(mcu.modules@, i as int),
        decreases mcu.modules@.len() - i,
    {
        let m = &mcu.modules[i];
        let ghost before = owned@;
        if m.kind.is_custom() {
            match &m.config {
                ModuleConfig::Custom(c) => {
                    let mut k: usize = 0;
                    assert(before.union(first_k(c.pins@, 0)) =~= before);
                    while k < c.pins.len()
                        invariant
                            k <= c.pins@.len(),
                            owned@ == before.union(first_k(c.pins@, k as int)),
                        decreases c.pins@.len() - k,
                    {
                        proof {
                            lemma_first_k_step(before, c.pins@, k as int);
                        }
                        owned.insert(c.pins[k]);
                        k = k + 1;
                    }
                },
                _ => {},
            }
        }
        let ghost mid = owned@;
        if m.kind == ModuleKind::GenericInterfaceTimer {
            let mut k: usize = 0;
            assert(mid.union(first_k(wired_pads(m.connections@), 0)) =~= mid);
            while k < m.connections.len()
                invariant
                    k <= m.connections@.len(),
                    owned@ == mid.union(first_k(wired_pads(m.connections@), k as int)),
                decreases m.connections@.len() - k,
            {
                proof {
                    lemma_first_k_step(mid, wired_pads(m.connections@), k as int);
                }
                owned.insert(m.connections[k].mcu_pin);
                k = k + 1;
            }
        }
        assert(owned@ =~= owned_by(mcu.modules@, i + 1)) by {
            assert forall|n: usize| owned@.contains(n) implies owned_by(mcu.modules@, i + 1).contains(n) by {
                if before.contains(n) {
                    let j = choose|j: int| 0 <= j < i && #[trigger] owns_pad(mcu.modules@[j], n);
                    assert(0 <= j < i + 1 && owns_pad(mcu.modules@[j], n));
                } else {
                    assert(owns_pad(mcu.modules@[i as int], n));
                }
            }
            assert forall|n: usize| owned_by(mcu.modules@, i + 1).contains(n) implies owned@.contains(n) by {
                let j = choose|j: int| 0 <= j < i + 1 && #[trigger] owns_pad(mcu.modules@[j], n);
                if j < i {
                    assert(before.contains(n));
                }
            }
        }
        i = i + 1;
    }
    owned
}

/// What [`wire_lit`] answers: the active device's name when pad `pad`'s
/// live device answers to it (trimmed), otherwise nothing.
pub open spec fn lit_by(active: Option<Seq<char>>, mcu: Mcu, pad: usize) -> Option<Seq<char>> {
    match active {
        Some(d) => match live_holder_from(mcu.groups@, pad, 0) {
            Some(i) => if trim(mcu.groups@[i].name@) == d {
                Some(d)
            } else {
                None
            },
            None => None,
        },
        None => None,
    }
}

/// Whether a wire ending on `pad` belongs to the device the canvas is
/// pointing at. Keyed on the PAD, never on the wire's box: a box can wire two
/// devices' pads.
pub fn wire_lit<'a>(active: Option<&'a str>, mcu: &Mcu, pad: usize) -> (r: Option<&'a str>)
    ensures
        r matches Some(d) ==> active == Some(d) && lit_by(Some(d@), *mcu, pad) == Some(d@),
        r is None ==> match active {
            Some(d) => lit_by(Some(d@), *mcu, pad) is None,
            None => true,
        },
{
    match active {
        Some(d) => match mcu.group_of_pin(pad) {
            Some(g) => {
                let t = trimmed(g.name.as_str());
                if chars_eq_str(&t, d) {
                    Some(d)
                } else {
                    None
                }
            },
            None => None,
        },
        None => None,
    }
}

/// The six families the canvas draws, over the twenty-four kinds.
#[derive(Clone, Copy, PartialEq, Eq, PartialOrd, Ord, Debug)]
pub enum BoxShape {
    /// A bus with a handful of named lines: the plain rounded box.
    Serial,
    /// External memory and cards: one back corner cut at 45°.
    Memory,
    /// A parallel port: taller, because many signals share one edge.
    Parallel,
    /// Timing and drive: one pad, one waveform. A keystone.
    Driver,
    /// A link that leaves the board. Rounded at the back.
    OffBoard,
    /// A module the user authored. Square corners.
    Custom,
}

/// The family each kind of module is drawn as.
pub open spec fn shape_of(kind: ModuleKind) -> BoxShape {
    match kind {
        ModuleKind::GenericInterfaceUsart | ModuleKind::GenericInterfaceLpuart
        | ModuleKind::GenericInterfaceSpi | ModuleKind::GenericInterfaceI2c
        | ModuleKind::GenericInterfaceI2s | ModuleKind::GenericInterfaceSai => BoxShape::Serial,
        ModuleKind::GenericInterfaceQspi | ModuleKind::GenericInterfaceOspi
        | ModuleKind::GenericInterfaceXspi | ModuleKind::GenericInterfaceHspi
        | ModuleKind::GenericInterfaceSdmmc => BoxShape::Memory,
        ModuleKind::GenericInterfaceParlIo | ModuleKind::GenericInterfaceParlIoRx
        | ModuleKind::GenericInterfaceLcdCam | ModuleKind::GenericInterfaceCamera => BoxShape::Parallel,
        ModuleKind::GenericInterfaceTimer | ModuleKind::GenericInterfaceMcpwm
        | ModuleKind::GenericInterfaceRmt | ModuleKind::GenericInterfaceDac
        | ModuleKind::GenericInterfaceTouch | ModuleKind::GenericInterfacePcnt => BoxShape::Driver,
        ModuleKind::GenericInterfaceCan | ModuleKind::GenericInterfaceUsb => BoxShape::OffBoard,
        ModuleKind::Custom => BoxShape::Custom,
    }
}

/// The silhouettes with no bevelled corner on any side.
pub open spec fn square_shape(s: BoxShape) -> bool {
    s == BoxShape::Serial || s == BoxShape::Custom
}

impl BoxShape {
    /// Whether this silhouette is a plain rectangle - no bevelled corner on
    /// any side. A square box has all four corners to spend, which is why its
    /// legend can take one.
    pub fn is_square(self) -> (r: bool)
        ensures
            r == square_shape(self),
    {
        match self {
            BoxShape::Serial | BoxShape::Custom => true,
            _ => false,
        }
    }

    /// Whether this family is drawn as a plain rectangle, keeping the corner
    /// rounding a rectangle shape carries.
    pub fn is_rect(self) -> (r: bool)
        ensures
            r == square_shape(self),
    {
        match self {
            BoxShape::Serial | BoxShape::Custom => true,
            _ => false,
        }
    }

    /// The family `kind` is drawn as.
    pub fn of(kind: ModuleKind) -> (r: Self)
        ensures
            r == shape_of(kind),
    {
        match kind {
            ModuleKind::GenericInterfaceUsart | ModuleKind::GenericInterfaceLpuart
            | ModuleKind::GenericInterfaceSpi | ModuleKind::GenericInterfaceI2c
            | ModuleKind::GenericInterfaceI2s | ModuleKind::GenericInterfaceSai => BoxShape::Serial,
            ModuleKind::GenericInterfaceQspi | ModuleKind::GenericInterfaceOspi
            | ModuleKind::GenericInterfaceXspi | ModuleKind::GenericInterfaceHspi
            | ModuleKind::GenericInterfaceSdmmc => BoxShape::Memory,
            ModuleKind::GenericInterfaceParlIo | ModuleKind::GenericInterfaceParlIoRx
            | ModuleKind::GenericInterfaceLcdCam | ModuleKind::GenericInterfaceCamera => {
                BoxShape::Parallel
            },
            ModuleKind::GenericInterfaceTimer | ModuleKind::GenericInterfaceMcpwm
            | ModuleKind::GenericInterfaceRmt | ModuleKind::GenericInterfaceDac
            | ModuleKind::GenericInterfaceTouch | ModuleKind::GenericInterfacePcnt => {
                BoxShape::Driver
            },
            ModuleKind::GenericInterfaceCan | ModuleKind::GenericInterfaceUsb => BoxShape::OffBoard,
            ModuleKind::Custom => BoxShape::Custom,
        }
    }
}

/// Only a Custom module is drawn in the Custom family, and a Custom module is
/// one of the two plain rectangles.
pub proof fn lemma_custom_family(kind: ModuleKind)
    ensures
        (shape_of(kind) == BoxShape::Custom) <==> (kind == ModuleKind::Custom),
        kind == ModuleKind::Custom ==> square_shape(shape_of(kind)),
{
}

/// The label a USART parity setting is shown with.
pub open spec fn parity_text(p: Parity) -> Seq<char> {
    match p {
        Parity::NoParity => "None"@,
        Parity::Even => "Even"@,
        Parity::Odd => "Odd"@,
    }
}

/// The label the settings grid shows for a parity choice.
pub fn parity_label(p: Parity) -> (r: &'static str)
    ensures
        r@ == parity_text(p),
{
    match p {
        Parity::NoParity => "None",
        Parity::Even => "Even",
        Parity::Odd => "Odd",
    }
}

/// The label a USART stop-bit setting is shown with.
pub open spec fn stop_text(s: StopBits) -> Seq<char> {
    match s {
        StopBits::One => "1"@,
        StopBits::Two => "2"@,
    }
}

/// The label the settings grid shows for a stop-bit choice.
pub fn stop_label(s: StopBits) -> (r: &'static str)
    ensures
        r@ == stop_text(s),
{
    match s {
        StopBits::One => "1",
        StopBits::Two => "2",
    }
}

/// The RMT block's source clock in Hz: 32 MHz on the ESP32-H2, 80 MHz
/// everywhere else.
pub open spec fn rmt_hz(family: Seq<char>) -> u32 {
    if family == "esp32h2"@ {
        32_000_000
    } else {
        80_000_000
    }
}

/// The RMT block's source clock, in Hz: 32 MHz on the ESP32-H2, 80 MHz
/// everywhere else (what esp-hal is handed in every example).
pub fn rmt_source_hz(family: &str) -> (r: u32)
    ensures
        r == rmt_hz(family@),
{
    let f = str_chars(family);
    if chars_eq_str(&f, "esp32h2") {
        32_000_000
    } else {
        80_000_000
    }
}

/// Whether this family moves a peripheral's pads as ONE group, so a single
/// signal cannot be re-pointed on its own: only on stm32f1, and only for a bus
/// with more than one pad (one AFIO bit remaps all of its signals together).
pub open spec fn moves_as_group(family: Seq<char>, module_pads: usize) -> bool {
    family == "stm32f1"@ && module_pads > 1
}

/// Whether this family moves a peripheral's pads as ONE group, so a single
/// signal cannot be re-pointed on its own.
pub fn f1_moves_as_a_group(family: &str, module_pads: usize) -> (r: bool)
    ensures
        r == moves_as_group(family@, module_pads),
{
    let f = str_chars(family);
    chars_eq_str(&f, "stm32f1") && module_pads > 1
}

// ── Colours ─────────────────────────────────────────────────────────────────

/// An opaque colour, 8 bits per channel.
#[derive(Clone, Copy, PartialEq, Eq, Debug, Structural)]
pub struct Rgb {
    pub r: u8,
    pub g: u8,
    pub b: u8,
}

/// A grey of lightness `l`.
pub open spec fn grey(l: u8) -> Rgb {
    Rgb { r: l, g: l, b: l }
}

/// The grey every legend's signal is drawn in.
pub fn legend_grey() -> (c: Rgb)
    ensures
        c == grey(165),
{
    Rgb { r: 165, g: 165, b: 165 }
}

/// The grey a legend's signal is drawn in while its module is unwired.
pub fn legend_grey_off() -> (c: Rgb)
    ensures
        c == grey(120),
{
    Rgb { r: 120, g: 120, b: 120 }
}

/// The accent: the one thing each legend picture exists to point at.
pub fn legend_accent() -> (c: Rgb)
    ensures
        c == (Rgb { r: 205, g: 85, b: 70 }),
{
    Rgb { r: 205, g: 85, b: 70 }
}

/// A Custom module's colour: a neutral slate that reads as user-authored.
pub fn custom_module_color() -> (c: Rgb)
    ensures
        c == (Rgb { r: 150, g: 160, b: 180 }),
{
    Rgb { r: 150, g: 160, b: 180 }
}

/// The legend palette is two colours, a grey (in a connected and a dimmed
/// shade) and one accent, and none of the three shades is another.
pub proof fn lemma_legend_palette_distinct()
    ensures
        grey(165) != (Rgb { r: 205, g: 85, b: 70 }),
        grey(120) != (Rgb { r: 205, g: 85, b: 70 }),
        grey(165) != grey(120),
{
}

/// The six device-group colours: sand, slate blue, mauve, sage, clay,
/// periwinkle.
pub open spec fn group_palette(i: nat) -> Rgb {
    if i == 0 {
        Rgb { r: 196, g: 168, b: 120 }
    } else if i == 1 {
        Rgb { r: 150, g: 176, b: 190 }
    } else if i == 2 {
        Rgb { r: 178, g: 152, b: 186 }
    } else if i == 3 {
        Rgb { r: 150, g: 186, b: 158 }
    } else if i == 4 {
        Rgb { r: 200, g: 152, b: 148 }
    } else {
        Rgb { r: 168, g: 172, b: 200 }
    }
}

fn group_palette_at(i: u32) -> (c: Rgb)
    requires
        i < 6,
    ensures
        c == group_palette(i as nat),
{
    if i == 0 {
        Rgb { r: 196, g: 168, b: 120 }
    } else if i == 1 {
        Rgb { r: 150, g: 176, b: 190 }
    } else if i == 2 {
        Rgb { r: 178, g: 152, b: 186 }
    } else if i == 3 {
        Rgb { r: 150, g: 186, b: 158 }
    } else if i == 4 {
        Rgb { r: 200, g: 152, b: 148 }
    } else {
        Rgb { r: 168, g: 172, b: 200 }
    }
}

/// The 31-multiplier rolling hash of a byte string, in wrapping `u32`
/// arithmetic.
pub open spec fn name_hash(bytes: Seq<u8>) -> u32
    decreases bytes.len(),
{
    if bytes.len() == 0 {
        0
    } else {
        name_hash(bytes.drop_last()).wrapping_mul(31).wrapping_add(bytes.last() as u32)
    }
}

/// The colour of the group called `name`: the trimmed name's UTF-8 bytes,
/// hashed, pick one of the six group colours.
pub open spec fn group_colour_of(name: Seq<char>) -> Rgb {
    group_palette((name_hash(encode_utf8(trim(name))) % 6) as nat)
}

/// The colour of the group called `name`.
///
/// Derived from the NAME rather than stored, so a project reopened years later
/// draws its devices the same colour it did before.
pub fn group_color(name: &str) -> (c: Rgb)
    ensures
        c == group_colour_of(name@),
{
    let t = trimmed(name);
    let s = string_of(&t);
    let bytes = s.as_str().as_bytes();
    let mut h: u32 = 0;
    let mut i: usize = 0;
    while i < bytes.len()
        invariant
            i <= bytes@.len(),
            bytes@ == encode_utf8(trim(name@)),
            h == name_hash(bytes@.subrange(0, i as int)),
        decreases bytes.len() - i,
    {
        assert(bytes@.subrange(0, i + 1).drop_last() =~= bytes@.subrange(0, i as int));
        h = h.wrapping_mul(31).wrapping_add(bytes[i] as u32);
        i = i + 1;
    }
    assert(bytes@.subrange(0, bytes@.len() as int) =~= bytes@);
    group_palette_at(h % 6)
}

/// Two names that differ only in padding are one device, and so one colour.
pub proof fn lemma_group_colour_ignores_padding(a: Seq<char>, b: Seq<char>)
    requires
        trim(a) == trim(b),
    ensures
        group_colour_of(a) == group_colour_of(b),
{
}


/// Which side of the chip a pin sits on.
#[derive(Clone, Copy, PartialEq, Eq, Structural, Hash, Debug)]
pub enum Side {
    Right,
    Left,
    Top,
    Bottom,
}

/// How many entries of `s` are `x`.
pub open spec fn occurrences(s: Seq<Side>, x: Side) -> nat
    decreases s.len(),
{
    if s.len() == 0 {
        0
    } else {
        occurrences(s.drop_last(), x) + if s.last() == x {
            1nat
        } else {
            0nat
        }
    }
}

/// A side that occurs in `s` at all is one of its entries.
proof fn lemma_occurs_in(s: Seq<Side>, x: Side)
    requires
        occurrences(s, x) > 0,
    ensures
        s.contains(x),
    decreases s.len(),
{
    if s.last() != x {
        lemma_occurs_in(s.drop_last(), x);
        let j = choose|j: int| 0 <= j < s.drop_last().len() && s.drop_last()[j] == x;
        assert(s[j] == x);
    } else {
        assert(s[s.len() - 1] == x);
    }
}

/// The side a module box sits on, voted by its wired pins: the side most of
/// them are on. Where sides tie, the one of the earliest pin among the tied
/// wins; with no pins at all, the right.
pub open spec fn dominant_of(s: Seq<Side>, r: Side) -> bool {
    if s.len() == 0 {
        r == Side::Right
    } else {
        &&& s.contains(r)
        &&& forall|t: Side| occurrences(s, t) <= occurrences(s, r)
        &&& forall|k: int|
            0 <= k < s.len() && occurrences(s, #[trigger] s[k]) == occurrences(s, r) ==> exists|
                j: int,
            |
                0 <= j <= k && s[j] == r
    }
}

fn count_side(sides: &[Side], x: Side) -> (c: usize)
    ensures
        c == occurrences(sides@, x),
{
    let mut c: usize = 0;
    let mut i: usize = 0;
    while i < sides.len()
        invariant
            i <= sides@.len(),
            c == occurrences(sides@.take(i as int), x),
            c <= i,
        decreases sides.len() - i,
    {
        assert(sides@.take(i + 1).drop_last() =~= sides@.take(i as int));
        if sides[i] == x {
            c = c + 1;
        }
        i = i + 1;
    }
    assert(sides@.take(sides@.len() as int) =~= sides@);
    c
}

/// The side a box with these wired pins faces the chip from: the majority of
/// the pins' sides, the earliest of the tied ones, `Right` for none.
pub fn dominant_side(sides: &[Side]) -> (r: Side)
    ensures
        dominant_of(sides@, r),
{
    if sides.len() == 0 {
        return Side::Right;
    }
    let mut best: Side = sides[0];
    let mut best_count: usize = count_side(sides, best);
    let ghost mut bj: int = 0;
    let mut i: usize = 1;
    while i < sides.len()
        invariant
            1 <= i <= sides@.len(),
            0 <= bj < i,
            sides@[bj] == best,
            best_count == occurrences(sides@, best),
            forall|k: int|
                0 <= k < i ==> occurrences(sides@, #[trigger] sides@[k]) < best_count || bj <= k,
            forall|k: int| 0 <= k < i ==> occurrences(sides@, #[trigger] sides@[k]) <= best_count,
        decreases sides.len() - i,
    {
        let c = count_side(sides, sides[i]);
        if c > best_count {
            best = sides[i];
            best_count = c;
            proof {
                bj = i as int;
            }
        }
        i = i + 1;
    }
    proof {
        assert(sides@[bj] == best);
        assert(sides@.contains(best));
        assert forall|t: Side| occurrences(sides@, t) <= occurrences(sides@, best) by {
            if occurrences(sides@, t) > 0 {
                lemma_occurs_in(sides@, t);
                let k = choose|k: int| 0 <= k < sides@.len() && sides@[k] == t;
                assert(occurrences(sides@, sides@[k]) <= best_count);
            }
        }
        assert forall|k: int|
            0 <= k < sides@.len() && occurrences(sides@, #[trigger] sides@[k]) == occurrences(
                sides@,
                best,
            ) implies exists|j: int| 0 <= j <= k && sides@[j] == best by {
            assert(bj <= k);
            assert(sides@[bj] == best);
        }
    }
    best
}


impl Mcu {
    /// A click on module `id`'s box: it selects the box (a second click
    /// deselects it, like a pin), expands the module's entry in the list and
    /// asks the editor to show the lines its pins bind.
    pub fn click_module(&mut self, id: &str)
        ensures
            (old(self).selected_module matches Some(s) && s@ == id@) ==> final(self).selected_module is None,
            !(old(self).selected_module matches Some(s) && s@ == id@) ==> (final(self).selected_module matches Some(s) && s@ == id@),
            final(self).expand_module matches Some(e) && e@ == id@,
            final(self).module_goto matches Some(g) && g@ == id@,
            *final(self) == (Mcu {
                selected_module: final(self).selected_module,
                expand_module: final(self).expand_module,
                module_goto: final(self).module_goto,
                ..*old(self)
            }),
    {
        let same = match &self.selected_module {
            Some(s) => same_text(s.as_str(), id),
            None => false,
        };
        self.selected_module = if same {
            None
        } else {
            Some(owned(id))
        };
        self.expand_module = Some(owned(id));
        self.module_goto = Some(owned(id));
    }
}

} // verus!
