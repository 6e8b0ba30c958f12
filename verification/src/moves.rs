//! Moving one pad's function to another pad as a single edit: the function,
//! the device the pad belongs to and the module wiring all follow.

use vstd::prelude::*;
use std::collections::BTreeSet;
use crate::groups::{
    drop_emptied, group_view, groups_view, holds, join_keep, keep_map, keep_where,
    lemma_keep_where_index, strip_groups, strip_pin, GroupView,
};
use crate::assign::{deselected, held_once, lemma_deselect_unsets_partner_pad};
use crate::logic::{lemma_index_from, pin_index};
use crate::pins::partners;
use crate::model::{Mcu, PinGroup};
use crate::modules::{is_default_config, signal_function, ModuleKind, ModuleSignal, VirtualModule};
use crate::reconcile::{candidate, first_free, ids_of};
use crate::style::ids_distinct;
use crate::undo::numbers_distinct;
use crate::text::{dec, owned, push_dec};
use crate::pins::{Pin, PinFunction};
use crate::reconcile::{fills, reconciled};

verus! {

broadcast use vstd::std_specs::btree::group_btree_axioms, vstd::laws_cmp::group_laws_cmp;

/// The function a move from pad `from` to pad `to` carries, when the move is
/// one the chip allows: two different pads, `from` carrying a function, and
/// `to` assignable, able to carry it and free of any other function.
pub open spec fn move_allowed(pins: Seq<Pin>, from: usize, to: usize) -> Option<PinFunction> {
    if from == to {
        None
    } else {
        match pin_index(pins, from) {
            None => None,
            Some(a) => {
                let f = pins[a].selected_function;
                if f == PinFunction::Unset {
                    None
                } else {
                    match pin_index(pins, to) {
                        None => None,
                        Some(b) => {
                            let q = pins[b];
                            if !q.reserved && q.available_functions@.contains(f) && (
                            q.selected_function == PinFunction::Unset || q.selected_function == f) {
                                Some(f)
                            } else {
                                None
                            }
                        },
                    }
                }
            },
        }
    }
}

/// The pads after `f` moves from pad `from` to pad `to`: `from` is left
/// unassigned with no interrupt edge armed, `to` carries `f`.
pub open spec fn moved_pins(pins: Seq<Pin>, from: usize, to: usize, f: PinFunction) -> Seq<Pin> {
    let a = pin_index(pins, from)->0;
    let p1 = pins.update(
        a,
        Pin { selected_function: PinFunction::Unset, irq: None, ..pins[a] },
    );
    let b = pin_index(pins, to)->0;
    p1.update(b, Pin { selected_function: f, ..p1[b] })
}

/// The first device at or after `i` holding `pin`.
pub open spec fn holder_from(gs: Seq<GroupView>, pin: usize, i: int) -> Option<int>
    decreases gs.len() - i,
{
    if i < 0 || i >= gs.len() {
        None
    } else if gs[i].1.contains(pin) {
        Some(i)
    } else {
        holder_from(gs, pin, i + 1)
    }
}

proof fn lemma_holder_from(gs: Seq<GroupView>, pin: usize, i: int)
    requires
        0 <= i,
    ensures
        holder_from(gs, pin, i) matches Some(k) ==> i <= k < gs.len() && gs[k].1.contains(pin),
        holder_from(gs, pin, i) is None ==> forall|j: int| i <= j < gs.len() ==> !gs[j].1.contains(pin),
    decreases gs.len() - i,
{
    if i < gs.len() {
        lemma_holder_from(gs, pin, i + 1);
    }
}

/// The devices after a move: the device holding `from` (the first, if any)
/// gives `from` up and takes `to`, which first leaves every other device; a
/// device the move emptied is dropped, and no other.
pub open spec fn moved_groups(gs: Seq<GroupView>, from: usize, to: usize) -> Seq<GroupView> {
    match holder_from(gs, from, 0) {
        None => gs,
        Some(mine) => {
            let g2 = strip_pin(gs, to);
            let g3 = g2.update(mine, (g2[mine].0, g2[mine].1.remove(from).insert(to)));
            keep_where(g3, join_keep(gs, to, g3), g3.len() as int)
        },
    }
}

/// What committing the wiring `chosen` on instance `inst` does to `old`,
/// giving `new` and answering `r`: it succeeds exactly when the chip can form
/// the wiring; then every chosen pad carries its signal and the modules are
/// reconciled once; otherwise nothing changes.
pub open spec fn wired_outcome(
    old: Mcu,
    new: Mcu,
    inst: u8,
    chosen: Seq<(ModuleSignal, usize)>,
    r: bool,
) -> bool {
    &&& r == formable(old.all_pins(), inst, chosen)
    &&& !r ==> new == old
    &&& r ==> {
        let pins = wired_pins(old.all_pins(), inst, chosen);
        &&& new.all_pins() == pins
        &&& new.same_layout(old)
        &&& new.modules@.len() == reconciled(old.modules@, pins).len()
        &&& forall|i: int|
            0 <= i < new.modules@.len() ==> fills(
                #[trigger] new.modules@[i],
                reconciled(old.modules@, pins)[i],
                old.modules@,
            )
        &&& new.same_but_pins(Mcu { modules: new.modules, ..old })
    }
}

/// A kind the chip has one peripheral of, whose pin functions carry no
/// instance number: CAN and USB.
pub open spec fn single_instance(k: ModuleKind) -> bool {
    k == ModuleKind::GenericInterfaceCan || k == ModuleKind::GenericInterfaceUsb
}

/// Some module of `ms` is of kind `k`.
pub open spec fn has_kind(ms: Seq<VirtualModule>, k: ModuleKind) -> bool {
    exists|i: int| 0 <= i < ms.len() && #[trigger] ms[i].kind == k
}

/// The highest instance among the Custom modules of `ms`; 0 for none.
pub open spec fn custom_top(ms: Seq<VirtualModule>) -> nat
    decreases ms.len(),
{
    if ms.len() == 0 {
        0
    } else {
        let p = custom_top(ms.drop_last());
        if ms.last().kind == ModuleKind::Custom && ms.last().instance > p {
            ms.last().instance as nat
        } else {
            p
        }
    }
}

/// `m` is the Custom module that joins `ms`: numbered one past the highest
/// Custom instance, named after that number, with a free `custom_<n>` id,
/// default settings and no wires.
pub open spec fn new_custom(m: VirtualModule, ms: Seq<VirtualModule>) -> bool {
    let inst = custom_top(ms) + 1;
    &&& m.kind == ModuleKind::Custom
    &&& m.instance == inst
    &&& m.name@ == "Custom"@ + dec(inst)
    &&& is_default_config(m.config, ModuleKind::Custom)
    &&& m.connections@.len() == 0
    &&& exists|n: nat| first_free(ids_of(ms), "custom"@, n) && m.id@ == candidate("custom"@, n)
}

/// The pick is a wiring the chip can form.
pub open spec fn wiring_formable(m: Mcu, pick: Option<(u8, Vec<(ModuleSignal, usize)>)>) -> bool {
    match pick {
        Some(p) => formable(m.all_pins(), p.0, p.1@),
        None => false,
    }
}

/// Whether a module of `kind` can be added to `m`: not a second CAN or USB
/// module, and either a Custom one (it claims no peripheral) or one for
/// which a wiring the chip can form exists.
pub open spec fn add_allowed(m: Mcu, kind: ModuleKind, wiring_exists: bool) -> bool {
    !(single_instance(kind) && has_kind(m.modules@, kind)) && (kind == ModuleKind::Custom
        || wiring_exists)
}

/// The names of the chosen pads the chip has, in order.
pub open spec fn chosen_names(pins: Seq<Pin>, chosen: Seq<(ModuleSignal, usize)>) -> Seq<Seq<char>>
    decreases chosen.len(),
{
    if chosen.len() == 0 {
        Seq::empty()
    } else {
        let rest = chosen_names(pins, chosen.drop_last());
        match pin_index(pins, chosen.last().1) {
            Some(k) => rest.push(pins[k].name@),
            None => rest,
        }
    }
}

/// The palette can never lie: it offers a kind exactly when adding it with
/// the wiring the add would use succeeds.
pub proof fn lemma_can_add_agrees_with_add(m: Mcu, kind: ModuleKind, pick: Option<(u8, Vec<(ModuleSignal, usize)>)>)
    ensures
        add_allowed(m, kind, wiring_formable(m, pick)) == (!(single_instance(kind) && has_kind(
            m.modules@,
            kind,
        )) && (kind == ModuleKind::Custom || (pick matches Some(p) && formable(m.all_pins(), p.0, p.1@)))),
{
}

/// One pin edit a module's config panel asks the caller to make: a SET (give
/// this pad this function, partners and labels following as on the canvas)
/// or a MOVE (carry the function on `from` over to `to`, through
/// [`Mcu::move_pin_function`]). One value, so a caller is never handed both
/// in a frame and silently applies one.
#[derive(Clone, Copy, Debug, PartialEq, Eq, Structural)]
pub enum PinEdit {
    Assign(usize, PinFunction),
    Move { from: usize, to: usize },
}

/// Pad `n` can take `want`: it exists, is assignable, can carry it, and is
/// free or already carrying exactly it.
pub open spec fn can_take(pins: Seq<Pin>, n: usize, want: PinFunction) -> bool {
    match pin_index(pins, n) {
        Some(k) => !pins[k].reserved && pins[k].available_functions@.contains(want) && (
        pins[k].selected_function == PinFunction::Unset || pins[k].selected_function == want),
        None => false,
    }
}

/// A wiring the chip can form: not empty, and every pad can take its signal.
pub open spec fn formable(pins: Seq<Pin>, inst: u8, chosen: Seq<(ModuleSignal, usize)>) -> bool {
    &&& chosen.len() > 0
    &&& forall|i: int|
        0 <= i < chosen.len() ==> can_take(pins, chosen[i].1, signal_function(chosen[i].0, inst))
}

/// `pins` with each chosen pad set to its signal's function, in order.
pub open spec fn wired_pins(pins: Seq<Pin>, inst: u8, chosen: Seq<(ModuleSignal, usize)>) -> Seq<Pin>
    decreases chosen.len(),
{
    if chosen.len() == 0 {
        pins
    } else {
        let prev = wired_pins(pins, inst, chosen.drop_last());
        let e = chosen.last();
        match pin_index(prev, e.1) {
            Some(j) => prev.update(j, Pin { selected_function: signal_function(e.0, inst), ..prev[j] }),
            None => prev,
        }
    }
}

/// `pins` with each picked pad set to its partner function, in order.
pub open spec fn picked(pins: Seq<Pin>, picks: Seq<(PinFunction, usize)>) -> Seq<Pin>
    decreases picks.len(),
{
    if picks.len() == 0 {
        pins
    } else {
        let prev = picked(pins, picks.drop_last());
        let e = picks.last();
        match pin_index(prev, e.1) {
            Some(j) => prev.update(j, Pin { selected_function: e.0, ..prev[j] }),
            None => prev,
        }
    }
}

/// The functions of the pads after pad `k` is given `func` the way a click
/// on the Pins tab gives it: clearing a pad takes its partners off the other
/// pads; assigning one writes the partner pads picked for it. (Clearing a pad
/// also clears its label, which [`Mcu::apply_pin_function`] states apart.)
pub open spec fn clicked(
    pins: Seq<Pin>,
    k: int,
    source: usize,
    func: PinFunction,
    picks: Seq<(PinFunction, usize)>,
) -> Seq<Pin> {
    let p1 = pins.update(k, Pin { selected_function: func, ..pins[k] });
    if func == PinFunction::Unset {
        deselected(p1, source, partners(pins[k].selected_function))
    } else {
        picked(p1, picks)
    }
}

impl Mcu {
    /// Assigns the partner functions picked for a pad (the MISO/MOSI that go
    /// with an SCK, the RX that goes with a TX): each `(function, pad)` is
    /// written onto its pad, in order. Which pads keep the peripheral on one
    /// pad group is the partner pick's decision, made before this call.
    pub fn auto_assign_partners(&mut self, picks: &[(PinFunction, usize)])
        requires
            old(self).pins_fit(),
        ensures
            final(self).all_pins() == picked(old(self).all_pins(), picks@),
            final(self).all_pins().len() == old(self).all_pins().len(),
            final(self).same_layout(*old(self)),
            final(self).same_but_pins(*old(self)),
    {
        let ghost start = self.all_pins();
        let mut i: usize = 0;
        while i < picks.len()
            invariant
                i <= picks@.len(),
                old(self).pins_fit(),
                start == old(self).all_pins(),
                self.all_pins().len() == start.len(),
                self.all_pins() == picked(start, picks@.subrange(0, i as int)),
                self.same_layout(*old(self)),
                self.same_but_pins(*old(self)),
            decreases picks@.len() - i,
        {
            let ghost prev = self.all_pins();
            assert(picks@.subrange(0, i + 1).drop_last() =~= picks@.subrange(0, i as int));
            let (partner, num) = picks[i];
            proof {
                lemma_index_from(prev, num, 0);
            }
            match self.find_pin_index(num) {
                Some(j) => {
                    let p = self.pin_mut(j);
                    p.selected_function = partner;
                    assert(self.all_pins() =~= prev.update(
                        j as int,
                        Pin { selected_function: partner, ..prev[j as int] },
                    ));
                },
                None => {},
            }
            i = i + 1;
        }
        assert(picks@.subrange(0, picks@.len() as int) =~= picks@);
    }

    /// Assign `func` to pin `pin_num` with the side effects of a click on the
    /// Pins tab: the info popup closes; clearing a pin clears its label and
    /// deselects its partners, assigning one writes the partner pads
    /// `partner_picks` (the pads the partner pick chose for `func`); then the
    /// modules are reconciled. Returns the `(number, name, func)` change, or
    /// `None` (changing nothing) when no pin has that number.
    pub fn apply_pin_function(
        &mut self,
        pin_num: usize,
        func: PinFunction,
        partner_picks: &[(PinFunction, usize)],
    ) -> (r: Option<(usize, String, PinFunction)>)
        requires
            old(self).reconcile_fits(),
        ensures
            pin_index(old(self).all_pins(), pin_num) is None ==> r is None && *final(self) == *old(
                self,
            ),
            pin_index(old(self).all_pins(), pin_num) matches Some(k) ==> {
                let p = old(self).all_pins()[k];
                let pins = clicked(old(self).all_pins(), k, pin_num, func, partner_picks@);
                let now = final(self).all_pins();
                &&& r matches Some(t) && t.0 == p.number && t.1 == p.name && t.2 == func
                &&& now.len() == pins.len()
                &&& forall|i: int|
                    0 <= i < now.len() && (i != k || func != PinFunction::Unset) ==> #[trigger] now[i]
                        == pins[i]
                &&& func == PinFunction::Unset ==> now[k] == Pin {
                    custom_label: now[k].custom_label,
                    ..pins[k]
                } && now[k].custom_label@.len() == 0
                &&& final(self).same_layout(*old(self))
                &&& final(self).modules@.len() == reconciled(old(self).modules@, now).len()
                &&& forall|i: int|
                    0 <= i < final(self).modules@.len() ==> fills(
                        #[trigger] final(self).modules@[i],
                        reconciled(old(self).modules@, now)[i],
                        old(self).modules@,
                    )
                &&& final(self).same_but_pins(
                    Mcu { modules: final(self).modules, show_info: None, ..*old(self) },
                )
            },
    {
        let k = match self.find_pin_index(pin_num) {
            Some(k) => k,
            None => {
                return None;
            },
        };
        proof {
            lemma_index_from(self.all_pins(), pin_num, 0);
        }
        let ghost start = self.all_pins();
        let old_func = self.pin_ref(k).selected_function;
        let changed = {
            let p = self.pin_mut(k);
            p.selected_function = func;
            (p.number, p.name.clone(), func)
        };
        let ghost p1 = self.all_pins();
        assert(p1 =~= start.update(k as int, Pin { selected_function: func, ..start[k as int] }));
        self.show_info = None;
        if func == PinFunction::Unset {
            self.deselect_partners(pin_num, &old_func);
            proof {
                crate::assign::lemma_deselected_keeps_source(p1, pin_num, partners(old_func), k as int);
            }
            let ghost pins = self.all_pins();
            let p = self.pin_mut(k);
            p.custom_label = String::new();
            assert(self.all_pins() =~= pins.update(
                k as int,
                Pin { custom_label: self.all_pins()[k as int].custom_label, ..pins[k as int] },
            ));
        } else {
            self.auto_assign_partners(partner_picks);
        }
        self.reconcile_modules();
        Some(changed)
    }

    /// Whether this chip can host a module of `kind` at all: any chip a
    /// Custom one; USB only where the family's backend generates USB code
    /// (`usb_supported`); any other kind exactly when the chip has a wiring
    /// for it with nothing else in the way (`wiring_exists`).
    pub fn supports_module(&self, kind: ModuleKind, usb_supported: bool, wiring_exists: bool) -> (r: bool)
        ensures
            r == (kind == ModuleKind::Custom || (!(kind == ModuleKind::GenericInterfaceUsb
                && !usb_supported) && wiring_exists)),
    {
        if kind.is_custom() {
            return true;
        }
        if kind == ModuleKind::GenericInterfaceUsb && !usb_supported {
            return false;
        }
        wiring_exists
    }

    /// Whether another module of `kind` can be added right now, given
    /// whether a free wiring for it exists (`wiring_exists`, the answer of the
    /// free-pad search): never a second CAN or USB module; always a Custom one;
    /// otherwise exactly when a wiring exists.
    pub fn can_add_module(&self, kind: ModuleKind, wiring_exists: bool) -> (r: bool)
        ensures
            r == add_allowed(*self, kind, wiring_exists),
    {
        if kind == ModuleKind::GenericInterfaceCan || kind == ModuleKind::GenericInterfaceUsb {
            let mut i: usize = 0;
            while i < self.modules.len()
                invariant
                    i <= self.modules@.len(),
                    single_instance(kind),
                    forall|k: int| 0 <= k < i ==> self.modules@[k].kind != kind,
                decreases self.modules@.len() - i,
            {
                if self.modules[i].kind == kind {
                    assert(has_kind(self.modules@, kind));
                    return false;
                }
                i = i + 1;
            }
        }
        kind.is_custom() || wiring_exists
    }

    /// The palette's preview of an automatic wiring: the names of the pads
    /// `chosen` would take (the free-pad search's pick), joined by ` / `;
    /// `None` for a Custom module, which wires nothing, when nothing was
    /// chosen, or when none of the chosen pads is on the chip.
    pub fn auto_wiring_summary(&self, kind: ModuleKind, chosen: Option<&[(ModuleSignal, usize)]>) -> (r: Option<String>)
        requires
            self.pins_fit(),
        ensures
            kind == ModuleKind::Custom ==> r is None,
            kind != ModuleKind::Custom ==> match chosen {
                None => r is None,
                Some(c) => {
                    let names = chosen_names(self.all_pins(), c@);
                    &&& names.len() == 0 ==> r is None
                    &&& names.len() > 0 ==> (r matches Some(s) && s@ == crate::naming::join(names, " / "@))
                },
            },
    {
        if kind.is_custom() {
            return None;
        }
        let c = match chosen {
            Some(c) => c,
            None => {
                return None;
            },
        };
        let mut names: Vec<String> = Vec::new();
        let mut i: usize = 0;
        while i < c.len()
            invariant
                i <= c@.len(),
                self.pins_fit(),
                crate::naming::views(names@) == chosen_names(self.all_pins(), c@.subrange(0, i as int)),
            decreases c@.len() - i,
        {
            let ghost sub = c@.subrange(0, i + 1);
            assert(sub.drop_last() =~= c@.subrange(0, i as int));
            proof {
                lemma_index_from(self.all_pins(), c@[i as int].1, 0);
            }
            match self.find_pin_index(c[i].1) {
                Some(k) => {
                    let nm = self.pin_ref(k).name.clone();
                    let ghost prev = names@;
                    names.push(nm);
                    assert(crate::naming::views(names@) =~= crate::naming::views(prev).push(nm@));
                },
                None => {},
            }
            i = i + 1;
        }
        assert(c@.subrange(0, c@.len() as int) =~= c@);
        if names.len() == 0 {
            return None;
        }
        Some(crate::rp::join_with(&names, " / "))
    }

    /// Adds a module of `kind`, the way the palette's "+" does. A second
    /// CAN or USB module is refused (their functions carry no instance
    /// number). A Custom module wires nothing: it joins the list empty,
    /// numbered one past the highest Custom instance. Any other kind is
    /// wired as `pick` says (the peripheral instance and the pads chosen for
    /// it, `None` when no free set of pads exists) through
    /// [`Mcu::add_module_wired`].
    pub fn add_module(&mut self, kind: ModuleKind, pick: Option<(u8, Vec<(ModuleSignal, usize)>)>) -> (r: bool)
        requires
            old(self).reconcile_fits(),
            kind == ModuleKind::Custom ==> custom_top(old(self).modules@) < 255,
        ensures
            single_instance(kind) && has_kind(old(self).modules@, kind) ==> !r && *final(self)
                == *old(self),
            kind == ModuleKind::Custom ==> {
                &&& r
                &&& final(self).modules@.len() == old(self).modules@.len() + 1
                &&& final(self).modules@.drop_last() == old(self).modules@
                &&& new_custom(final(self).modules@.last(), old(self).modules@)
                &&& *final(self) == Mcu { modules: final(self).modules, ..*old(self) }
            },
            kind != ModuleKind::Custom && !(single_instance(kind) && has_kind(
                old(self).modules@,
                kind,
            )) ==> match pick {
                None => !r && *final(self) == *old(self),
                Some(p) => wired_outcome(*old(self), *final(self), p.0, p.1@, r),
            },
            r == add_allowed(*old(self), kind, wiring_formable(*old(self), pick)),
    {
        if kind == ModuleKind::GenericInterfaceCan || kind == ModuleKind::GenericInterfaceUsb {
            let mut i: usize = 0;
            while i < self.modules.len()
                invariant
                    i <= self.modules@.len(),
                    single_instance(kind),
                    *self == *old(self),
                    forall|k: int| 0 <= k < i ==> self.modules@[k].kind != kind,
                decreases self.modules@.len() - i,
            {
                if self.modules[i].kind == kind {
                    assert(has_kind(self.modules@, kind));
                    return false;
                }
                i = i + 1;
            }
        }
        if kind.is_custom() {
            let mut top: u8 = 0;
            let mut i: usize = 0;
            while i < self.modules.len()
                invariant
                    i <= self.modules@.len(),
                    top == custom_top(self.modules@.take(i as int)),
                decreases self.modules@.len() - i,
            {
                assert(self.modules@.take(i + 1).drop_last() =~= self.modules@.take(i as int));
                let m = &self.modules[i];
                if m.kind.is_custom() && m.instance() > top {
                    top = m.instance();
                }
                i = i + 1;
            }
            assert(self.modules@.take(self.modules@.len() as int) =~= self.modules@);
            let inst = top + 1;
            let id = self.free_module_id("custom");
            let mut name = owned("Custom");
            push_dec(&mut name, inst as u64);
            let ghost before = self.modules@;
            self.modules.push(
                VirtualModule {
                    id,
                    kind,
                    name,
                    instance: inst,
                    config: kind.default_config(inst),
                    connections: Vec::new(),
                },
            );
            assert(self.modules@.drop_last() =~= before);
            return true;
        }
        match pick {
            None => false,
            Some(p) => self.add_module_wired(p.0, p.1.as_slice()),
        }
    }

    /// Commit a wiring the caller already decided on: every chosen pad is set
    /// to its signal's function, then the modules are reconciled once (which
    /// creates the module with its default settings). Returns `false` and
    /// changes NOTHING when the wiring is not one the chip can form: checked
    /// whole, before anything is written.
    pub fn add_module_wired(&mut self, inst: u8, chosen: &[(ModuleSignal, usize)]) -> (r: bool)
        requires
            old(self).reconcile_fits(),
        ensures
            wired_outcome(*old(self), *final(self), inst, chosen@, r),
    {
        if chosen.len() == 0 {
            return false;
        }
        let mut i: usize = 0;
        while i < chosen.len()
            invariant
                i <= chosen@.len(),
                self.pins_fit(),
                forall|t: int|
                    0 <= t < i ==> can_take(self.all_pins(), chosen@[t].1, signal_function(chosen@[t].0, inst)),
            decreases chosen@.len() - i,
        {
            let (sig, pin) = chosen[i];
            let want = sig.pin_function(inst);
            let ok = match self.find_pin_index(pin) {
                Some(k) => {
                    proof {
                        lemma_index_from(self.all_pins(), pin, 0);
                    }
                    let p = self.pin_ref(k);
                    !p.reserved && crate::pwm::has_function(&p.available_functions, want) && (
                    p.selected_function == PinFunction::Unset || p.selected_function == want)
                },
                None => false,
            };
            if !ok {
                return false;
            }
            i = i + 1;
        }
        let ghost start = self.all_pins();
        let ghost before = *self;
        let mut w: usize = 0;
        while w < chosen.len()
            invariant
                w <= chosen@.len(),
                old(self).reconcile_fits(),
                start == old(self).all_pins(),
                self.all_pins().len() == start.len(),
                self.all_pins() == wired_pins(start, inst, chosen@.subrange(0, w as int)),
                self.same_layout(*old(self)),
                self.same_but_pins(*old(self)),
            decreases chosen@.len() - w,
        {
            let ghost prev = self.all_pins();
            assert(chosen@.subrange(0, w + 1).drop_last() =~= chosen@.subrange(0, w as int));
            let (sig, pin) = chosen[w];
            let want = sig.pin_function(inst);
            proof {
                lemma_index_from(prev, pin, 0);
            }
            match self.find_pin_index(pin) {
                Some(j) => {
                    let p = self.pin_mut(j);
                    p.selected_function = want;
                    assert(self.all_pins() =~= prev.update(
                        j as int,
                        Pin { selected_function: want, ..prev[j as int] },
                    ));
                },
                None => {},
            }
            w = w + 1;
        }
        assert(chosen@.subrange(0, chosen@.len() as int) =~= chosen@);
        self.reconcile_modules();
        true
    }

    /// Move one pin's function to ANOTHER pad, as a single operation: the
    /// source pad is cleared (and its interrupt edge disarmed), the
    /// destination takes the function, the source's device follows the
    /// signal, and the modules are reconciled once. Partners are not
    /// re-picked: they are already placed.
    ///
    /// Returns `false` and changes nothing when the move is not one the chip
    /// allows (see [`move_allowed`]).
    pub fn move_pin_function(&mut self, from: usize, to: usize) -> (r: bool)
        requires
            old(self).reconcile_fits(),
        ensures
            r == move_allowed(old(self).all_pins(), from, to) is Some,
            !r ==> *final(self) == *old(self),
            r ==> {
                let f = move_allowed(old(self).all_pins(), from, to)->0;
                let pins = moved_pins(old(self).all_pins(), from, to, f);
                &&& final(self).all_pins() == pins
                &&& final(self).same_layout(*old(self))
                &&& groups_view(final(self).groups@) == moved_groups(
                    groups_view(old(self).groups@),
                    from,
                    to,
                )
                &&& final(self).modules@.len() == reconciled(old(self).modules@, pins).len()
                &&& forall|i: int|
                    0 <= i < final(self).modules@.len() ==> fills(
                        #[trigger] final(self).modules@[i],
                        reconciled(old(self).modules@, pins)[i],
                        old(self).modules@,
                    )
                &&& final(self).same_but_pins(
                    Mcu {
                        modules: final(self).modules,
                        groups: final(self).groups,
                        ..*old(self)
                    },
                )
            },
    {
        if from == to {
            return false;
        }
        let a = match self.find_pin_index(from) {
            Some(a) => a,
            None => {
                return false;
            },
        };
        proof {
            lemma_index_from(self.all_pins(), from, 0);
            lemma_index_from(self.all_pins(), to, 0);
        }
        let f = self.pin_ref(a).selected_function;
        if f == PinFunction::Unset {
            return false;
        }
        let b = match self.find_pin_index(to) {
            Some(b) => b,
            None => {
                return false;
            },
        };
        let reachable = {
            let q = self.pin_ref(b);
            !q.reserved && crate::pwm::has_function(&q.available_functions, f) && (q.selected_function
                == PinFunction::Unset || q.selected_function == f)
        };
        if !reachable {
            return false;
        }
        let ghost start = self.all_pins();
        let ghost before = *self;
        {
            let p = self.pin_mut(a);
            p.selected_function = PinFunction::Unset;
            p.irq = None;
        }
        {
            let p = self.pin_mut(b);
            p.selected_function = f;
        }
        assert(self.all_pins() =~= moved_pins(start, from, to, f));
        let ghost gs = groups_view(self.groups@);
        let mut mine: Option<usize> = None;
        let mut k: usize = 0;
        while k < self.groups.len()
            invariant_except_break
                mine is None,
                holder_from(gs, from, 0) == holder_from(gs, from, k as int),
            invariant
                k <= self.groups@.len(),
                gs == groups_view(self.groups@),
            ensures
                match mine {
                    Some(m) => holder_from(gs, from, 0) == Some(m as int) && m < self.groups@.len(),
                    None => holder_from(gs, from, 0) is None,
                },
            decreases self.groups@.len() - k,
        {
            if self.groups[k].pins.contains(&from) {
                assert(gs[k as int] == group_view(self.groups@[k as int]));
                mine = Some(k);
                break;
            }
            k = k + 1;
        }
        match mine {
            Some(m) => {
                let flags = strip_groups(&mut self.groups, to);
                let ghost g2 = groups_view(self.groups@);
                assert(g2.len() == gs.len());
                assert(self.groups@.len() == g2.len());
                let mut pins: BTreeSet<usize> = BTreeSet::new();
                std::mem::swap(&mut pins, &mut self.groups[m].pins);
                pins.remove(&from);
                pins.insert(to);
                std::mem::swap(&mut pins, &mut self.groups[m].pins);
                let ghost g3 = groups_view(self.groups@);
                assert(g3 =~= g2.update(m as int, (g2[m as int].0, g2[m as int].1.remove(from).insert(to))));
                drop_emptied(&mut self.groups, &flags, Ghost(gs), to);
            },
            None => {},
        }
        assert(groups_view(self.groups@) == moved_groups(gs, from, to));
        self.reconcile_modules();
        true
    }
}

/// A device follows its pad across a move, and the move never leaves a pad
/// in two devices: afterwards the destination pad is in exactly one device,
/// the one that held the source pad, under that device's name; and, the
/// source pad having been in that one device only, it is in none.
pub proof fn lemma_move_one_device(gs: Seq<GroupView>, from: usize, to: usize)
    requires
        from != to,
        holder_from(gs, from, 0) is Some,
        forall|a: int, b: int| holds(gs, a, from) && holds(gs, b, from) ==> a == b,
    ensures
        ({
            let mv = moved_groups(gs, from, to);
            let mine = holder_from(gs, from, 0)->0;
            &&& exists|a: int| holds(mv, a, to) && mv[a].0 == gs[mine].0
            &&& forall|a: int, b: int| holds(mv, a, to) && holds(mv, b, to) ==> a == b
            &&& forall|a: int| !holds(mv, a, from)
        }),
{
    lemma_holder_from(gs, from, 0);
    let mine = holder_from(gs, from, 0)->0;
    let g2 = strip_pin(gs, to);
    let g3 = g2.update(mine, (g2[mine].0, g2[mine].1.remove(from).insert(to)));
    let keep = join_keep(gs, to, g3);
    let mv = moved_groups(gs, from, to);
    assert(mv == keep_where(g3, keep, g3.len() as int));
    lemma_keep_where_index(g3, keep, g3.len() as int);
    let f = choose|f: spec_fn(int) -> int| #[trigger] keep_map(g3, keep, g3.len() as int, f);
    assert forall|i: int| 0 <= i < g3.len() implies (#[trigger] g3[i].1.contains(to) <==> i == mine)
        && !g3[i].1.contains(from) by {
        if i != mine {
            assert(g3[i] == g2[i]);
            if g3[i].1.contains(from) {
                assert(holds(gs, i, from));
                assert(holds(gs, mine, from));
            }
        }
    }
    assert(keep(mine)) by {
        assert(g3[mine].1.contains(to));
    }
    let r = choose|r: int| 0 <= r < mv.len() && #[trigger] f(r) == mine;
    assert(holds(mv, r, to) && mv[r].0 == gs[mine].0);
    assert forall|a: int, b: int| holds(mv, a, to) && holds(mv, b, to) implies a == b by {
        assert(g3[f(a)].1.contains(to));
        assert(g3[f(b)].1.contains(to));
        if a < b {
            assert(f(a) < f(b));
        } else if b < a {
            assert(f(b) < f(a));
        }
    }
    assert forall|a: int| 0 <= a < mv.len() implies !mv[a].1.contains(from) by {
        assert(0 <= f(a) < g3.len());
        assert(mv[a] == g3[f(a)]);
        assert(g3[f(a)].1.contains(to) == (f(a) == mine));
        assert(!g3[f(a)].1.contains(from));
    }
}

/// A move drops no device but one it emptied: every device that did not
/// hold the destination pad, other than the source's, survives as it was.
pub proof fn lemma_move_keeps_others(gs: Seq<GroupView>, from: usize, to: usize)
    requires
        holder_from(gs, from, 0) is Some,
    ensures
        ({
            let mv = moved_groups(gs, from, to);
            let mine = holder_from(gs, from, 0)->0;
            forall|i: int|
                0 <= i < gs.len() && i != mine && !gs[i].1.contains(to) ==> exists|r: int|
                    0 <= r < mv.len() && mv[r] == gs[i]
        }),
{
    lemma_holder_from(gs, from, 0);
    let mine = holder_from(gs, from, 0)->0;
    let g2 = strip_pin(gs, to);
    let g3 = g2.update(mine, (g2[mine].0, g2[mine].1.remove(from).insert(to)));
    let keep = join_keep(gs, to, g3);
    let mv = moved_groups(gs, from, to);
    lemma_keep_where_index(g3, keep, g3.len() as int);
    let f = choose|f: spec_fn(int) -> int| #[trigger] keep_map(g3, keep, g3.len() as int, f);
    assert forall|i: int|
        0 <= i < gs.len() && i != mine && !gs[i].1.contains(to) implies exists|r: int|
        0 <= r < mv.len() && mv[r] == gs[i] by {
        assert(g3[i] == g2[i]);
        assert(gs[i].1.remove(to) =~= gs[i].1);
        assert(g3[i] == gs[i]);
        assert(keep(i));
        let r = choose|r: int| 0 <= r < mv.len() && #[trigger] f(r) == i;
        assert(mv[r] == g3[i]);
    }
}


/// Adding a Custom module never reuses a live id: when the ids of `ms` are
/// distinct, so are those of the list the new module joins, even after
/// modules were removed and the count no longer matches the numbering.
pub proof fn lemma_new_custom_keeps_ids_distinct(ms: Seq<VirtualModule>, m: VirtualModule)
    requires
        ids_distinct(ms),
        new_custom(m, ms),
    ensures
        ids_distinct(ms.push(m)),
{
    let n = choose|n: nat| first_free(ids_of(ms), "custom"@, n) && m.id@ == candidate("custom"@, n);
    assert forall|a: int, b: int|
        0 <= a < ms.push(m).len() && 0 <= b < ms.push(m).len() && a != b implies #[trigger] ms.push(
        m,
    )[a].id@ != #[trigger] ms.push(m)[b].id@ by {
        if a == ms.len() {
            assert(ids_of(ms)[b] == ms[b].id@);
        } else if b == ms.len() {
            assert(ids_of(ms)[a] == ms[a].id@);
        }
    }
}

/// A click that clears a pad clears the rest of its bus: any other pad that
/// carried a partner of the cleared pad's function is left unset - provided
/// no two pads share a number and no partner sat on two pads.
pub proof fn lemma_clearing_clears_partner_pads(
    pins: Seq<Pin>,
    k: int,
    b: int,
    picks: Seq<(PinFunction, usize)>,
)
    requires
        numbers_distinct(pins),
        0 <= k < pins.len(),
        0 <= b < pins.len(),
        b != k,
        partners(pins[k].selected_function).contains(pins[b].selected_function),
        forall|g: PinFunction|
            partners(pins[k].selected_function).contains(g) ==> held_once(pins, pins[k].number, g),
    ensures
        clicked(pins, k, pins[k].number, PinFunction::Unset, picks)[b].selected_function
            == PinFunction::Unset,
{
    let source = pins[k].number;
    let f = pins[k].selected_function;
    let p1 = pins.update(k, Pin { selected_function: PinFunction::Unset, ..pins[k] });
    assert(numbers_distinct(p1));
    assert forall|g: PinFunction| partners(f).contains(g) implies held_once(p1, source, g) by {
        assert(held_once(pins, source, g));
    }
    lemma_deselect_unsets_partner_pad(p1, source, f, b);
}

/// The two lines of an I2C bus clear together: a click that clears the pad
/// carrying SCL (or SDA) of instance `n` leaves the pad carrying the other
/// line of that bus unset as well.
pub proof fn lemma_clearing_an_i2c_line_clears_the_other(
    pins: Seq<Pin>,
    k: int,
    b: int,
    n: u8,
    picks: Seq<(PinFunction, usize)>,
)
    requires
        numbers_distinct(pins),
        0 <= k < pins.len(),
        0 <= b < pins.len(),
        b != k,
        (pins[k].selected_function == PinFunction::I2cScl(n) && pins[b].selected_function
            == PinFunction::I2cSda(n)) || (pins[k].selected_function == PinFunction::I2cSda(n)
            && pins[b].selected_function == PinFunction::I2cScl(n)),
        held_once(pins, pins[k].number, pins[b].selected_function),
    ensures
        clicked(pins, k, pins[k].number, PinFunction::Unset, picks)[b].selected_function
            == PinFunction::Unset,
{
    crate::pins::lemma_bus_partners(n);
    let f = pins[k].selected_function;
    assert(partners(f)[0] == pins[b].selected_function);
    assert forall|g: PinFunction| partners(f).contains(g) implies held_once(pins, pins[k].number, g) by {
        assert(g == pins[b].selected_function);
    }
    lemma_clearing_clears_partner_pads(pins, k, b, picks);
}

} // verus!
