//! The module undo stack (Ctrl+Z on the Pins tab): a capped list of
//! snapshots taken before each explicit module add or remove.

use vstd::prelude::*;
use crate::logic::{index_from, lemma_index_from, pin_index};
use crate::model::{Mcu, ModuleUndo};
use crate::modules::{copy_modules, modules_same};
use crate::pins::{Pin, PinFunction};

verus! {

/// Cap on the module undo stack — a Ctrl+Z safety net, not full history.
pub const MODULE_UNDO_CAP: usize = 30;

/// `(number, function, custom_label)` of every pad, in order.
pub open spec fn snapshot_rows(pins: Seq<Pin>) -> Seq<(usize, PinFunction, String)> {
    pins.map_values(|p: Pin| (p.number, p.selected_function, p.custom_label))
}

/// `pins` with one snapshot row written back: the first pad with the row's
/// number takes its function and label.
pub open spec fn restore_row(pins: Seq<Pin>, row: (usize, PinFunction, String)) -> Seq<Pin> {
    match pin_index(pins, row.0) {
        Some(k) => pins.update(
            k,
            Pin { selected_function: row.1, custom_label: row.2, ..pins[k] },
        ),
        None => pins,
    }
}

/// `pins` with every snapshot row written back, in order.
pub open spec fn restore(pins: Seq<Pin>, rows: Seq<(usize, PinFunction, String)>) -> Seq<Pin>
    decreases rows.len(),
{
    if rows.len() == 0 {
        pins
    } else {
        restore_row(restore(pins, rows.drop_last()), rows.last())
    }
}

/// Writing back snapshot rows never adds or drops a pad.
pub proof fn lemma_restore_len(pins: Seq<Pin>, rows: Seq<(usize, PinFunction, String)>)
    ensures
        restore(pins, rows).len() == pins.len(),
    decreases rows.len(),
{
    if rows.len() > 0 {
        lemma_restore_len(pins, rows.drop_last());
        let prev = restore(pins, rows.drop_last());
        lemma_index_from(prev, rows.last().0, 0);
    }
}

/// The snapshot `u` records `modules`, the pads `pins` and `label`.
pub open spec fn snapshot_of(
    u: ModuleUndo,
    modules: Seq<crate::modules::VirtualModule>,
    pins: Seq<Pin>,
    label: String,
) -> bool {
    modules_same(u.modules@, modules) && u.pins@ == snapshot_rows(pins) && u.label == label
}

/// `new` is `old` with a snapshot on top, the oldest dropped past the cap.
pub open spec fn stack_pushed(old: Seq<ModuleUndo>, new: Seq<ModuleUndo>) -> bool {
    if old.len() + 1 > MODULE_UNDO_CAP {
        new.len() == old.len() && forall|i: int|
            0 <= i < old.len() - 1 ==> #[trigger] new[i] == old[i + 1]
    } else {
        new.len() == old.len() + 1 && forall|i: int| 0 <= i < old.len() ==> #[trigger] new[i] == old[i]
    }
}

/// No two pads share a number.
pub open spec fn numbers_distinct(pins: Seq<Pin>) -> bool {
    forall|a: int, b: int| 0 <= a < pins.len() && 0 <= b < pins.len() && a != b ==> pins[a].number != pins[b].number
}

impl Mcu {
    /// What [`Mcu::push_module_undo`] does: a snapshot of the modules and pads
    /// is pushed (the oldest dropped past the cap), nothing else changes.
    pub open spec fn undo_pushed(self, next: Mcu, label: String) -> bool {
        &&& stack_pushed(self.module_undo@, next.module_undo@)
        &&& next.module_undo@.len() > 0
        &&& snapshot_of(next.module_undo@.last(), self.modules@, self.all_pins(), label)
        &&& next == Mcu { module_undo: next.module_undo, ..self }
    }

    /// What [`Mcu::undo_modules`] does: the top snapshot is popped, its pads
    /// and modules restored, the Remove confirmation dismissed and its label
    /// returned; with nothing to undo, nothing changes.
    pub open spec fn undone(self, next: Mcu, r: Option<String>) -> bool {
        if self.module_undo@.len() == 0 {
            r is None && next == self
        } else {
            let snap = self.module_undo@.last();
            &&& r == Some(snap.label)
            &&& next.module_undo@ == self.module_undo@.drop_last()
            &&& next.modules == snap.modules
            &&& next.all_pins() == restore(self.all_pins(), snap.pins@)
            &&& next.same_layout(self)
            &&& next.same_but_pins(
                Mcu {
                    module_undo: next.module_undo,
                    modules: next.modules,
                    module_remove_confirm: None,
                    ..self
                },
            )
        }
    }

    /// Snapshot the modules + pin state BEFORE an explicit add/remove, so
    /// Ctrl+Z (or the Undo button) can revert it. `label` is shown on the Undo
    /// hover.
    pub fn push_module_undo(&mut self, label: String)
        requires
            old(self).pins_fit(),
        ensures
            old(self).undo_pushed(*final(self), label),
    {
        let n = self.pin_count();
        let mut rows: Vec<(usize, PinFunction, String)> = Vec::new();
        let mut k: usize = 0;
        while k < n
            invariant
                n == self.all_pins().len(),
                k <= n,
                rows@ == snapshot_rows(self.all_pins()).subrange(0, k as int),
            decreases n - k,
        {
            let p = self.pin_ref(k);
            rows.push((p.number, p.selected_function, p.custom_label.clone()));
            assert(rows@ =~= snapshot_rows(self.all_pins()).subrange(0, k + 1));
            k = k + 1;
        }
        assert(rows@ =~= snapshot_rows(self.all_pins()));
        let modules = copy_modules(&self.modules);
        let ghost before = self.module_undo@;
        self.module_undo.push(ModuleUndo { modules, pins: rows, label });
        if self.module_undo.len() > MODULE_UNDO_CAP {
            self.module_undo.remove(0);
        }
    }

    /// Drop the most recent snapshot WITHOUT applying it — used when a
    /// snapshotted action turned out to be a no-op.
    pub fn discard_last_module_undo(&mut self)
        ensures
            final(self).module_undo@ == if old(self).module_undo@.len() == 0 {
                old(self).module_undo@
            } else {
                old(self).module_undo@.drop_last()
            },
            *final(self) == (Mcu { module_undo: final(self).module_undo, ..*old(self) }),
    {
        self.module_undo.pop();
    }

    /// Revert the last add/remove: restore its snapshot (pins + modules).
    /// Returns the undone action's label, or `None` when the stack is empty.
    pub fn undo_modules(&mut self) -> (r: Option<String>)
        requires
            old(self).pins_fit(),
        ensures
            old(self).undone(*final(self), r),
    {
        if self.module_undo.len() == 0 {
            return None;
        }
        let snap = match self.module_undo.pop() {
            Some(s) => s,
            None => {
                return None;
            },
        };
        let ghost start = self.all_pins();
        let mut i: usize = 0;
        while i < snap.pins.len()
            invariant
                i <= snap.pins.len(),
                self.pins_fit(),
                old(self).pins_fit(),
                old(self).module_undo@.len() > 0,
                self.all_pins().len() == start.len(),
                self.all_pins() == restore(start, snap.pins@.subrange(0, i as int)),
                self.same_layout(*old(self)),
                self.same_but_pins(Mcu { module_undo: self.module_undo, ..*old(self) }),
                self.module_undo@ == old(self).module_undo@.drop_last(),
                snap == old(self).module_undo@.last(),
                start == old(self).all_pins(),
            decreases snap.pins.len() - i,
        {
            let num = snap.pins[i].0;
            let ghost prev = self.all_pins();
            assert(snap.pins@.subrange(0, i + 1).drop_last() =~= snap.pins@.subrange(0, i as int));
            proof {
                lemma_index_from(prev, num, 0);
                lemma_restore_len(start, snap.pins@.subrange(0, i + 1));
            }
            match self.find_pin_index(num) {
                Some(k) => {
                    let f = snap.pins[i].1;
                    let l = snap.pins[i].2.clone();
                    let p = self.pin_mut(k);
                    p.selected_function = f;
                    p.custom_label = l;
                    assert(self.all_pins() =~= restore_row(prev, snap.pins@[i as int]));
                },
                None => {},
            }
            i = i + 1;
        }
        assert(snap.pins@.subrange(0, snap.pins@.len() as int) =~= snap.pins@);
        self.modules = snap.modules;
        self.module_remove_confirm = None;
        Some(snap.label)
    }

    /// Whether there is an add/remove to undo.
    pub fn can_undo_modules(&self) -> (r: bool)
        ensures
            r == (self.module_undo@.len() > 0),
    {
        !self.module_undo.is_empty()
    }

    /// The label of the add/remove an undo would revert, for the Undo
    /// button's hover.
    pub fn last_module_undo_label(&self) -> (r: Option<&str>)
        ensures
            r matches Some(s) ==> self.module_undo@.len() > 0 && s@ == self.module_undo@.last().label@,
            r is None ==> self.module_undo@.len() == 0,
    {
        if self.module_undo.len() == 0 {
            None
        } else {
            Some(self.module_undo[self.module_undo.len() - 1].label.as_str())
        }
    }
}

/// Writing back a snapshot of the same pads changes nothing, when no two pads
/// share a number.
proof fn lemma_restore_own_snapshot(pins: Seq<Pin>, i: int)
    requires
        numbers_distinct(pins),
        0 <= i <= pins.len(),
    ensures
        restore(pins, snapshot_rows(pins).subrange(0, i)) == pins,
    decreases i,
{
    if i > 0 {
        let rows = snapshot_rows(pins).subrange(0, i);
        assert(rows.drop_last() =~= snapshot_rows(pins).subrange(0, i - 1));
        lemma_restore_own_snapshot(pins, i - 1);
        lemma_index_from(pins, pins[i - 1].number, 0);
        let k = pin_index(pins, pins[i - 1].number);
        assert(k == Some(i - 1)) by {
            if k is None {
                assert(pins[i - 1].number == pins[i - 1].number);
            } else {
                let kk = k->0;
                assert(pins[kk].number == pins[i - 1].number);
            }
        }
        assert(pins.update(
            i - 1,
            Pin {
                selected_function: pins[i - 1].selected_function,
                custom_label: pins[i - 1].custom_label,
                ..pins[i - 1]
            },
        ) =~= pins);
    }
}

/// Undo reverts what the snapshot taken just before recorded: pushing a
/// snapshot and then undoing gives back the same modules and pads, returns the
/// snapshot's label, and leaves the stack as it was (less its oldest entry
/// when the push went past the cap). Pads are matched by number, so this holds
/// when no two pads share one.
pub proof fn lemma_undo_reverts_push(m: Mcu, m1: Mcu, m2: Mcu, label: String, r: Option<String>)
    requires
        m.undo_pushed(m1, label),
        m1.undone(m2, r),
        numbers_distinct(m.all_pins()),
    ensures
        r == Some(label),
        modules_same(m2.modules@, m.modules@),
        m2.all_pins() == m.all_pins(),
        m.module_undo@.len() < MODULE_UNDO_CAP ==> m2.module_undo@ == m.module_undo@,
        m.module_undo@.len() >= MODULE_UNDO_CAP ==> m2.module_undo@ == m.module_undo@.drop_first(),
        m2.same_but_pins(
            Mcu { module_undo: m2.module_undo, modules: m2.modules, module_remove_confirm: None, ..m },
        ),
{
    assert(m1.all_pins() == m.all_pins());
    lemma_restore_own_snapshot(m.all_pins(), m.all_pins().len() as int);
    assert(snapshot_rows(m.all_pins()).subrange(0, m.all_pins().len() as int) =~= snapshot_rows(
        m.all_pins(),
    ));
    if m.module_undo@.len() < MODULE_UNDO_CAP {
        assert(m2.module_undo@ =~= m.module_undo@);
    } else {
        assert(m2.module_undo@ =~= m.module_undo@.drop_first());
    }
}


/// `a` and `b` are the same pads, by number, in the same order.
pub open spec fn same_numbers(a: Seq<Pin>, b: Seq<Pin>) -> bool {
    a.len() == b.len() && forall|k: int| 0 <= k < a.len() ==> #[trigger] a[k].number == b[k].number
}

/// `now` with the function and label of each of its first `i` pads taken from
/// the same pad of `then`.
pub open spec fn states_upto(now: Seq<Pin>, then: Seq<Pin>, i: int) -> Seq<Pin> {
    Seq::new(
        now.len(),
        |k: int|
            if k < i {
                Pin {
                    selected_function: then[k].selected_function,
                    custom_label: then[k].custom_label,
                    ..now[k]
                }
            } else {
                now[k]
            },
    )
}

/// `now` with every pad's function and label as they were in `then`.
pub open spec fn with_states_of(now: Seq<Pin>, then: Seq<Pin>) -> Seq<Pin> {
    states_upto(now, then, now.len() as int)
}

/// Writing back a snapshot of `then` onto the same pads, since edited, gives
/// each pad its function and label from `then`.
proof fn lemma_restore_onto(now: Seq<Pin>, then: Seq<Pin>, i: int)
    requires
        numbers_distinct(then),
        same_numbers(now, then),
        0 <= i <= then.len(),
    ensures
        restore(now, snapshot_rows(then).subrange(0, i)) == states_upto(now, then, i),
    decreases i,
{
    if i == 0 {
        assert(states_upto(now, then, 0) =~= now);
    } else {
        let rows = snapshot_rows(then).subrange(0, i);
        assert(rows.drop_last() =~= snapshot_rows(then).subrange(0, i - 1));
        lemma_restore_onto(now, then, i - 1);
        let prev = states_upto(now, then, i - 1);
        let num = then[i - 1].number;
        assert(prev[i - 1].number == now[i - 1].number);
        lemma_index_from(prev, num, 0);
        let k = pin_index(prev, num);
        assert(k == Some(i - 1)) by {
            if k is None {
                assert(prev[i - 1].number == num);
            } else {
                let kk = k->0;
                assert(prev[kk].number == now[kk].number);
                assert(then[kk].number == num);
            }
        }
        assert(prev.update(
            i - 1,
            Pin {
                selected_function: then[i - 1].selected_function,
                custom_label: then[i - 1].custom_label,
                ..prev[i - 1]
            },
        ) =~= states_upto(now, then, i));
    }
}

/// Undo reverts to the snapshot however much was edited since: when a
/// snapshot of `m` is pushed, then pads and modules are edited (leaving the
/// undo stack alone and each pad its number), undoing gives back `m`'s
/// modules and every pad's function and label from `m`, returns the
/// snapshot's label, dismisses the Remove confirmation, and leaves the stack
/// as before the push (less its oldest entry when the push went past the
/// cap). Pads are matched by number, so this holds when no two pads share one.
pub proof fn lemma_undo_reverts_across_edits(
    m: Mcu,
    m1: Mcu,
    mk: Mcu,
    m2: Mcu,
    label: String,
    r: Option<String>,
)
    requires
        m.undo_pushed(m1, label),
        mk.module_undo@ == m1.module_undo@,
        same_numbers(mk.all_pins(), m.all_pins()),
        numbers_distinct(m.all_pins()),
        mk.undone(m2, r),
    ensures
        r == Some(label),
        modules_same(m2.modules@, m.modules@),
        m2.all_pins() == with_states_of(mk.all_pins(), m.all_pins()),
        m2.module_remove_confirm is None,
        m.module_undo@.len() < MODULE_UNDO_CAP ==> m2.module_undo@ == m.module_undo@,
        m.module_undo@.len() >= MODULE_UNDO_CAP ==> m2.module_undo@ == m.module_undo@.drop_first(),
{
    lemma_restore_onto(mk.all_pins(), m.all_pins(), m.all_pins().len() as int);
    assert(snapshot_rows(m.all_pins()).subrange(0, m.all_pins().len() as int) =~= snapshot_rows(
        m.all_pins(),
    ));
    if m.module_undo@.len() < MODULE_UNDO_CAP {
        assert(m2.module_undo@ =~= m.module_undo@);
    } else {
        assert(m2.module_undo@ =~= m.module_undo@.drop_first());
    }
}

} // verus!
