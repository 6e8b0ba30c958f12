//! Pin functions and labels written in bulk: restoring a saved project,
//! clearing a bus's partner pads, removing a module.

use vstd::prelude::*;
use crate::logic::{lemma_index_from, pin_index, reset_pin};
use crate::model::Mcu;
use crate::modules::{Connection, VirtualModule};
use crate::pins::{partner_functions, partners, Pin, PinFunction};
use crate::text::same_text;
use crate::undo::numbers_distinct;

verus! {

/// `p` carrying `f`.
pub open spec fn with_function(p: Pin, f: PinFunction) -> Pin {
    Pin { selected_function: f, ..p }
}

/// `p` carrying the user label `l`.
pub open spec fn with_label(p: Pin, l: String) -> Pin {
    Pin { custom_label: l, ..p }
}

/// The first assignable pad at or after `i` called `name`.
pub open spec fn named_from(pins: Seq<Pin>, name: Seq<char>, i: int) -> Option<int>
    decreases pins.len() - i,
{
    if i < 0 || i >= pins.len() {
        None
    } else if pins[i].name@ == name && !pins[i].reserved {
        Some(i)
    } else {
        named_from(pins, name, i + 1)
    }
}

proof fn lemma_named_from(pins: Seq<Pin>, name: Seq<char>, i: int)
    requires
        0 <= i,
    ensures
        named_from(pins, name, i) matches Some(k) ==> i <= k < pins.len() && pins[k].name@ == name
            && !pins[k].reserved,
    decreases pins.len() - i,
{
    if i < pins.len() {
        lemma_named_from(pins, name, i + 1);
    }
}

/// The pad a saved entry for `name` lands on: the first pad numbered like the
/// first assignable pad called `name`.
pub open spec fn named_target(pins: Seq<Pin>, name: Seq<char>) -> Option<int> {
    match named_from(pins, name, 0) {
        Some(k) => pin_index(pins, pins[k].number),
        None => None,
    }
}

proof fn lemma_named_target(pins: Seq<Pin>, name: Seq<char>)
    ensures
        named_target(pins, name) matches Some(j) ==> 0 <= j < pins.len(),
{
    lemma_named_from(pins, name, 0);
    if let Some(k) = named_from(pins, name, 0) {
        lemma_index_from(pins, pins[k].number, 0);
    }
}

/// `pins` after each saved `(name, function)` entry is written, in order.
pub open spec fn saved_functions(pins: Seq<Pin>, entries: Seq<(String, PinFunction)>) -> Seq<Pin>
    decreases entries.len(),
{
    if entries.len() == 0 {
        pins
    } else {
        let prev = saved_functions(pins, entries.drop_last());
        match named_target(prev, entries.last().0@) {
            Some(j) => prev.update(j, with_function(prev[j], entries.last().1)),
            None => prev,
        }
    }
}

/// `pins` after each saved `(name, label)` entry is written, in order.
pub open spec fn saved_labels(pins: Seq<Pin>, entries: Seq<(String, String)>) -> Seq<Pin>
    decreases entries.len(),
{
    if entries.len() == 0 {
        pins
    } else {
        let prev = saved_labels(pins, entries.drop_last());
        match named_target(prev, entries.last().0@) {
            Some(j) => prev.update(j, with_label(prev[j], entries.last().1)),
            None => prev,
        }
    }
}

/// The first pad at or after `i`, other than pad `source`, carrying `f`.
pub open spec fn holder_from(pins: Seq<Pin>, source: usize, f: PinFunction, i: int) -> Option<int>
    decreases pins.len() - i,
{
    if i < 0 || i >= pins.len() {
        None
    } else if pins[i].number != source && pins[i].selected_function == f {
        Some(i)
    } else {
        holder_from(pins, source, f, i + 1)
    }
}

proof fn lemma_holder_from(pins: Seq<Pin>, source: usize, f: PinFunction, i: int)
    requires
        0 <= i,
    ensures
        holder_from(pins, source, f, i) matches Some(k) ==> i <= k < pins.len() && pins[k].number
            != source && pins[k].selected_function == f,
        holder_from(pins, source, f, i) is None ==> forall|j: int|
            i <= j < pins.len() ==> !(pins[j].number != source && pins[j].selected_function == f),
    decreases pins.len() - i,
{
    if i < pins.len() {
        lemma_holder_from(pins, source, f, i + 1);
    }
}

/// `pins` with the pad numbered `n` (the first such) cleared to `Unset`; no
/// change when no pad carries that number.
pub open spec fn unset_number(pins: Seq<Pin>, n: usize) -> Seq<Pin> {
    match pin_index(pins, n) {
        Some(j) => pins.update(j, with_function(pins[j], PinFunction::Unset)),
        None => pins,
    }
}

/// `pins` after each of `fs` is taken off the first pad other than `source`
/// that carries it.
pub open spec fn deselected(pins: Seq<Pin>, source: usize, fs: Seq<PinFunction>) -> Seq<Pin>
    decreases fs.len(),
{
    if fs.len() == 0 {
        pins
    } else {
        let prev = deselected(pins, source, fs.drop_last());
        match holder_from(prev, source, fs.last(), 0) {
            Some(k) => unset_number(prev, prev[k].number),
            None => prev,
        }
    }
}

/// `pins` after each pad numbered in `nums` is cleared, in order.
pub open spec fn unset_numbers(pins: Seq<Pin>, nums: Seq<usize>) -> Seq<Pin>
    decreases nums.len(),
{
    if nums.len() == 0 {
        pins
    } else {
        unset_number(unset_numbers(pins, nums.drop_last()), nums.last())
    }
}

proof fn lemma_unset_number_len(pins: Seq<Pin>, n: usize)
    ensures
        unset_number(pins, n).len() == pins.len(),
{
    lemma_index_from(pins, n, 0);
}

/// The first module at or after `i` with id `id`.
pub open spec fn module_from(ms: Seq<VirtualModule>, id: Seq<char>, i: int) -> Option<int>
    decreases ms.len() - i,
{
    if i < 0 || i >= ms.len() {
        None
    } else if ms[i].id@ == id {
        Some(i)
    } else {
        module_from(ms, id, i + 1)
    }
}

/// The pads a module's wires land on, in wire order.
pub open spec fn wired_pads(conns: Seq<Connection>) -> Seq<usize> {
    conns.map_values(|c: Connection| c.mcu_pin)
}

/// The pads of the first module with id `id`; none when there is no such
/// module.
pub open spec fn pads_of_module(ms: Seq<VirtualModule>, id: Seq<char>) -> Seq<usize> {
    match module_from(ms, id, 0) {
        Some(k) => wired_pads(ms[k].connections@),
        None => Seq::empty(),
    }
}

/// `ms` without the modules whose id is `id`, order kept.
pub open spec fn without_id(ms: Seq<VirtualModule>, id: Seq<char>) -> Seq<VirtualModule>
    decreases ms.len(),
{
    if ms.len() == 0 {
        ms
    } else {
        (if ms[0].id@ == id {
            Seq::empty()
        } else {
            seq![ms[0]]
        }) + without_id(ms.drop_first(), id)
    }
}

impl Mcu {
    /// The index of the first assignable pad called `name`, if any.
    fn find_named_index(&self, name: &String) -> (r: Option<usize>)
        requires
            self.pins_fit(),
        ensures
            r matches Some(k) ==> named_from(self.all_pins(), name@, 0) == Some(k as int),
            r is None ==> named_from(self.all_pins(), name@, 0) is None,
    {
        let n = self.pin_count();
        let mut k: usize = 0;
        while k < n
            invariant
                n == self.all_pins().len(),
                k <= n,
                named_from(self.all_pins(), name@, 0) == named_from(self.all_pins(), name@, k as int),
            decreases n - k,
        {
            let p = self.pin_ref(k);
            if p.name == *name && !p.reserved {
                return Some(k);
            }
            k = k + 1;
        }
        None
    }

    /// The index of the pad a saved entry for `name` lands on, if any.
    fn named_target_index(&self, name: &String) -> (r: Option<usize>)
        requires
            self.pins_fit(),
        ensures
            r matches Some(j) ==> named_target(self.all_pins(), name@) == Some(j as int) && j
                < self.all_pins().len(),
            r is None ==> named_target(self.all_pins(), name@) is None,
    {
        proof {
            lemma_named_target(self.all_pins(), name@);
        }
        match self.find_named_index(name) {
            Some(k) => {
                proof {
                    lemma_named_from(self.all_pins(), name@, 0);
                }
                let num = self.pin_ref(k).number;
                self.find_pin_index(num)
            },
            None => None,
        }
    }

    /// Restores pin functions parsed from a saved `src/main.rs`: every pad is
    /// reset first, then each `(name, function)` lands on the assignable pad
    /// of that name (names not on this chip are skipped). No partner is
    /// auto-assigned: the saved state already lists every pin.
    pub fn apply_saved_pins(&mut self, pins: &[(String, PinFunction)])
        requires
            old(self).pins_fit(),
        ensures
            final(self).all_pins() == saved_functions(
                old(self).all_pins().map_values(|p: Pin| reset_pin(p)),
                pins@,
            ),
            final(self).same_layout(*old(self)),
            final(self).same_but_pins(Mcu { selected_pin: None, show_info: None, ..*old(self) }),
    {
        self.reset_all_pins();
        let ghost start = self.all_pins();
        let mut i: usize = 0;
        while i < pins.len()
            invariant
                i <= pins@.len(),
                old(self).pins_fit(),
                start.len() == old(self).all_pins().len(),
                self.all_pins().len() == start.len(),
                self.all_pins() == saved_functions(start, pins@.subrange(0, i as int)),
                self.same_layout(*old(self)),
                self.same_but_pins(Mcu { selected_pin: None, show_info: None, ..*old(self) }),
            decreases pins@.len() - i,
        {
            let ghost prev = self.all_pins();
            assert(pins@.subrange(0, i + 1).drop_last() =~= pins@.subrange(0, i as int));
            match self.named_target_index(&pins[i].0) {
                Some(j) => {
                    let f = pins[i].1;
                    let p = self.pin_mut(j);
                    p.selected_function = f;
                    assert(self.all_pins() =~= prev.update(j as int, with_function(prev[j as int], f)));
                },
                None => {},
            }
            i = i + 1;
        }
        assert(pins@.subrange(0, pins@.len() as int) =~= pins@);
    }

    /// Restores per-pin user labels parsed from a saved `src/main.rs`: each
    /// `(name, label)` lands on the assignable pad of that name; names not on
    /// this chip are skipped. Applied after [`Mcu::apply_saved_pins`].
    pub fn apply_saved_pin_labels(&mut self, labels: &[(String, String)])
        requires
            old(self).pins_fit(),
        ensures
            final(self).all_pins() == saved_labels(old(self).all_pins(), labels@),
            final(self).same_layout(*old(self)),
            final(self).same_but_pins(*old(self)),
    {
        let ghost start = self.all_pins();
        let mut i: usize = 0;
        while i < labels.len()
            invariant
                i <= labels@.len(),
                old(self).pins_fit(),
                start == old(self).all_pins(),
                self.all_pins().len() == start.len(),
                self.all_pins() == saved_labels(start, labels@.subrange(0, i as int)),
                self.same_layout(*old(self)),
                self.same_but_pins(*old(self)),
            decreases labels@.len() - i,
        {
            let ghost prev = self.all_pins();
            assert(labels@.subrange(0, i + 1).drop_last() =~= labels@.subrange(0, i as int));
            match self.named_target_index(&labels[i].0) {
                Some(j) => {
                    let l = labels[i].1.clone();
                    let p = self.pin_mut(j);
                    p.custom_label = l;
                    assert(self.all_pins() =~= prev.update(j as int, with_label(prev[j as int], l)));
                },
                None => {},
            }
            i = i + 1;
        }
        assert(labels@.subrange(0, labels@.len() as int) =~= labels@);
    }

    /// Clear pad `n` (the first pad carrying that number) to `Unset`.
    fn unset_pad(&mut self, n: usize)
        requires
            old(self).pins_fit(),
        ensures
            final(self).all_pins() == unset_number(old(self).all_pins(), n),
            final(self).same_layout(*old(self)),
            final(self).same_but_pins(*old(self)),
    {
        proof {
            lemma_index_from(self.all_pins(), n, 0);
        }
        let ghost prev = self.all_pins();
        match self.find_pin_index(n) {
            Some(j) => {
                let p = self.pin_mut(j);
                p.selected_function = PinFunction::Unset;
                assert(self.all_pins() =~= prev.update(
                    j as int,
                    with_function(prev[j as int], PinFunction::Unset),
                ));
            },
            None => {},
        }
    }

    /// Removes the partner functions of `old_func` from whichever pads
    /// currently hold them (called when `source_pin` is deselected).
    pub fn deselect_partners(&mut self, source_pin: usize, old_func: &PinFunction)
        requires
            old(self).pins_fit(),
        ensures
            final(self).all_pins() == deselected(old(self).all_pins(), source_pin, partners(*old_func)),
            final(self).same_layout(*old(self)),
            final(self).same_but_pins(*old(self)),
    {
        let fs = partner_functions(old_func);
        let ghost start = self.all_pins();
        let mut i: usize = 0;
        while i < fs.len()
            invariant
                i <= fs@.len(),
                fs@ == partners(*old_func),
                old(self).pins_fit(),
                start == old(self).all_pins(),
                self.all_pins().len() == start.len(),
                self.all_pins() == deselected(start, source_pin, fs@.subrange(0, i as int)),
                self.same_layout(*old(self)),
                self.same_but_pins(*old(self)),
            decreases fs@.len() - i,
        {
            let ghost prev = self.all_pins();
            assert(fs@.subrange(0, i + 1).drop_last() =~= fs@.subrange(0, i as int));
            let f = fs[i];
            let n = self.pin_count();
            let mut k: usize = 0;
            let mut target: Option<usize> = None;
            while k < n
                invariant_except_break
                    target is None,
                    holder_from(prev, source_pin, f, 0) == holder_from(prev, source_pin, f, k as int),
                invariant
                    n == prev.len(),
                    prev == self.all_pins(),
                    k <= n,
                ensures
                    match target {
                        Some(num) => holder_from(prev, source_pin, f, 0) matches Some(kk)
                            && prev[kk].number == num,
                        None => holder_from(prev, source_pin, f, 0) is None,
                    },
                decreases n - k,
            {
                let p = self.pin_ref(k);
                if p.number != source_pin && p.selected_function == f {
                    target = Some(p.number);
                    break;
                }
                k = k + 1;
            }
            match target {
                Some(num) => {
                    proof {
                        lemma_unset_number_len(prev, num);
                    }
                    self.unset_pad(num);
                },
                None => {},
            }
            i = i + 1;
        }
        assert(fs@.subrange(0, fs@.len() as int) =~= fs@);
    }

    /// Removes the module with id `id`: the pads it was wired to are reset to
    /// `Unset` and the module leaves the list.
    pub fn remove_module(&mut self, id: &str)
        requires
            old(self).pins_fit(),
        ensures
            final(self).all_pins() == unset_numbers(
                old(self).all_pins(),
                pads_of_module(old(self).modules@, id@),
            ),
            final(self).modules@ == without_id(old(self).modules@, id@),
            final(self).same_layout(*old(self)),
            final(self).same_but_pins(Mcu { modules: final(self).modules, ..*old(self) }),
    {
        let mut pads: Vec<usize> = Vec::new();
        let mut m: usize = 0;
        while m < self.modules.len()
            invariant_except_break
                module_from(self.modules@, id@, 0) == module_from(self.modules@, id@, m as int),
                pads@ == Seq::<usize>::empty(),
            invariant
                m <= self.modules@.len(),
                *self == *old(self),
            ensures
                pads@ == pads_of_module(self.modules@, id@),
            decreases self.modules@.len() - m,
        {
            if same_text(self.modules[m].id.as_str(), id) {
                let conns = &self.modules[m].connections;
                let mut c: usize = 0;
                while c < conns.len()
                    invariant
                        c <= conns@.len(),
                        pads@ == wired_pads(conns@).subrange(0, c as int),
                    decreases conns@.len() - c,
                {
                    pads.push(conns[c].mcu_pin);
                    c = c + 1;
                    assert(pads@ =~= wired_pads(conns@).subrange(0, c as int));
                }
                assert(pads@ =~= wired_pads(conns@));
                break;
            }
            m = m + 1;
        }
        let ghost start = self.all_pins();
        let mut i: usize = 0;
        while i < pads.len()
            invariant
                i <= pads@.len(),
                old(self).pins_fit(),
                start == old(self).all_pins(),
                self.all_pins().len() == start.len(),
                self.all_pins() == unset_numbers(start, pads@.subrange(0, i as int)),
                self.same_layout(*old(self)),
                self.same_but_pins(*old(self)),
            decreases pads@.len() - i,
        {
            assert(pads@.subrange(0, i + 1).drop_last() =~= pads@.subrange(0, i as int));
            proof {
                lemma_unset_number_len(self.all_pins(), pads@[i as int]);
            }
            self.unset_pad(pads[i]);
            i = i + 1;
        }
        assert(pads@.subrange(0, pads@.len() as int) =~= pads@);
        let ghost ms = self.modules@;
        let mut k: usize = self.modules.len();
        while k > 0
            invariant
                k <= ms.len(),
                self.modules@ == ms.subrange(0, k as int) + without_id(
                    ms.subrange(k as int, ms.len() as int),
                    id@,
                ),
                self.all_pins() == unset_numbers(start, pads@),
                self.same_layout(*old(self)),
                self.same_but_pins(Mcu { modules: self.modules, ..*old(self) }),
            decreases k,
        {
            let ghost tail = ms.subrange(k as int, ms.len() as int);
            assert(ms.subrange(k - 1, ms.len() as int).drop_first() =~= tail);
            assert(self.modules@[k - 1] == ms[k - 1]);
            if same_text(self.modules[k - 1].id.as_str(), id) {
                self.modules.remove(k - 1);
                assert(self.modules@ =~= ms.subrange(0, k - 1) + without_id(
                    ms.subrange(k - 1, ms.len() as int),
                    id@,
                ));
            } else {
                assert(self.modules@ =~= ms.subrange(0, k - 1) + without_id(
                    ms.subrange(k - 1, ms.len() as int),
                    id@,
                ));
            }
            k = k - 1;
        }
        assert(ms.subrange(0, ms.len() as int) =~= ms);
        assert(self.modules@ =~= without_id(ms, id@));
    }
}

/// Removing a module takes every module with that id off the list and keeps
/// every other module, in order.
pub proof fn lemma_removed_module_is_gone(ms: Seq<VirtualModule>, id: Seq<char>)
    ensures
        forall|i: int| 0 <= i < without_id(ms, id).len() ==> #[trigger] without_id(ms, id)[i].id@ != id,
        forall|i: int| 0 <= i < ms.len() && ms[i].id@ != id ==> without_id(ms, id).contains(#[trigger] ms[i]),
        without_id(ms, id).len() <= ms.len(),
    decreases ms.len(),
{
    if ms.len() > 0 {
        let rest = ms.drop_first();
        lemma_removed_module_is_gone(rest, id);
        let head: Seq<VirtualModule> = if ms[0].id@ == id {
            Seq::empty()
        } else {
            seq![ms[0]]
        };
        let w = without_id(ms, id);
        assert(w == head + without_id(rest, id));
        assert forall|i: int| 0 <= i < ms.len() && ms[i].id@ != id implies w.contains(#[trigger] ms[i]) by {
            if i == 0 {
                assert(w[0] == ms[0]);
            } else {
                assert(ms[i] == rest[i - 1]);
                let j = choose|j: int| 0 <= j < without_id(rest, id).len() && without_id(rest, id)[j] == rest[i - 1];
                assert(w[head.len() + j] == ms[i]);
            }
        }
        assert forall|i: int| 0 <= i < w.len() implies #[trigger] w[i].id@ != id by {
            if i >= head.len() {
                assert(w[i] == without_id(rest, id)[i - head.len()]);
            }
        }
    }
}

/// At most one pad other than `source` carries `g`.
pub open spec fn held_once(pins: Seq<Pin>, source: usize, g: PinFunction) -> bool {
    forall|a: int, b: int|
        0 <= a < pins.len() && 0 <= b < pins.len() && pins[a].number != source
            && pins[a].selected_function == g && pins[b].number != source
            && pins[b].selected_function == g ==> a == b
}

proof fn lemma_index_of_own_number(pins: Seq<Pin>, k: int)
    requires
        numbers_distinct(pins),
        0 <= k < pins.len(),
    ensures
        pin_index(pins, pins[k].number) == Some(k),
{
    lemma_index_from(pins, pins[k].number, 0);
}

proof fn lemma_deselected_prefix(pins: Seq<Pin>, source: usize, fs: Seq<PinFunction>)
    requires
        numbers_distinct(pins),
        forall|i: int| 0 <= i < fs.len() ==> fs[i] != PinFunction::Unset,
        forall|i: int| 0 <= i < fs.len() ==> held_once(pins, source, #[trigger] fs[i]),
    ensures
        ({
            let d = deselected(pins, source, fs);
            &&& d.len() == pins.len()
            &&& forall|k: int| 0 <= k < pins.len() ==> #[trigger] d[k].number == pins[k].number
            &&& forall|k: int|
                0 <= k < pins.len() ==> d[k].selected_function == pins[k].selected_function
                    || d[k].selected_function == PinFunction::Unset
            &&& forall|j: int, k: int|
                #![trigger fs[j], d[k]]
                0 <= j < fs.len() && 0 <= k < pins.len() && d[k].number != source ==> d[k].selected_function
                    != fs[j]
        }),
    decreases fs.len(),
{
    if fs.len() > 0 {
        let rest = fs.drop_last();
        assert forall|i: int| 0 <= i < rest.len() implies held_once(pins, source, #[trigger] rest[i]) by {
            assert(rest[i] == fs[i]);
        }
        lemma_deselected_prefix(pins, source, rest);
        let prev = deselected(pins, source, rest);
        let g = fs.last();
        assert(held_once(pins, source, fs[fs.len() - 1]));
        assert(numbers_distinct(prev));
        lemma_holder_from(prev, source, g, 0);
        let d = deselected(pins, source, fs);
        match holder_from(prev, source, g, 0) {
            Some(h) => {
                lemma_index_of_own_number(prev, h);
                assert(d == prev.update(h, with_function(prev[h], PinFunction::Unset)));
                assert forall|j: int, k: int|
                    #![trigger fs[j], d[k]]
                    0 <= j < fs.len() && 0 <= k < pins.len() && d[k].number != source implies d[k].selected_function
                    != fs[j] by {
                    if k != h {
                        assert(d[k] == prev[k]);
                        if j == fs.len() - 1 && prev[k].selected_function == g {
                            assert(pins[k].selected_function == g);
                            assert(pins[h].selected_function == g);
                        }
                        if j < fs.len() - 1 {
                            assert(fs[j] == rest[j]);
                        }
                    }
                }
            },
            None => {
                assert forall|j: int, k: int|
                    #![trigger fs[j], d[k]]
                    0 <= j < fs.len() && 0 <= k < pins.len() && d[k].number != source implies d[k].selected_function
                    != fs[j] by {
                    if j < fs.len() - 1 {
                        assert(fs[j] == rest[j]);
                    }
                }
            },
        }
    }
}

/// Deselecting removes the whole group: afterwards no pad but the source
/// carries a partner of the function it gave up - provided no two pads share
/// a number and no partner sat on two pads. Every other pad keeps its
/// function or is cleared.
pub proof fn lemma_deselect_clears_partners(pins: Seq<Pin>, source: usize, f: PinFunction)
    requires
        numbers_distinct(pins),
        forall|g: PinFunction| partners(f).contains(g) ==> held_once(pins, source, g),
    ensures
        ({
            let d = deselected(pins, source, partners(f));
            &&& d.len() == pins.len()
            &&& forall|k: int|
                0 <= k < d.len() && d[k].number != source ==> !partners(f).contains(
                    #[trigger] d[k].selected_function,
                )
            &&& forall|k: int|
                0 <= k < d.len() ==> #[trigger] d[k].selected_function == pins[k].selected_function
                    || d[k].selected_function == PinFunction::Unset
        }),
{
    let fs = partners(f);
    assert forall|i: int| 0 <= i < fs.len() implies held_once(pins, source, #[trigger] fs[i]) by {
        assert(fs.contains(fs[i]));
    }
    lemma_deselected_prefix(pins, source, fs);
    let d = deselected(pins, source, fs);
    assert forall|k: int| 0 <= k < d.len() && d[k].number != source implies !fs.contains(
        #[trigger] d[k].selected_function,
    ) by {
        if fs.contains(d[k].selected_function) {
            let j = choose|j: int| 0 <= j < fs.len() && fs[j] == d[k].selected_function;
            assert(d[k].selected_function != fs[j]);
        }
    }
}

/// Deselecting never touches the source pad, and keeps the list's length.
pub proof fn lemma_deselected_keeps_source(pins: Seq<Pin>, source: usize, fs: Seq<PinFunction>, k: int)
    requires
        0 <= k < pins.len(),
        pins[k].number == source,
    ensures
        deselected(pins, source, fs).len() == pins.len(),
        deselected(pins, source, fs)[k] == pins[k],
    decreases fs.len(),
{
    if fs.len() > 0 {
        lemma_deselected_keeps_source(pins, source, fs.drop_last(), k);
        let prev = deselected(pins, source, fs.drop_last());
        lemma_holder_from(prev, source, fs.last(), 0);
        if let Some(h) = holder_from(prev, source, fs.last(), 0) {
            lemma_index_from(prev, prev[h].number, 0);
        }
    }
}

/// Clearing a pad takes its partners off the other pads: a pad other than the
/// source that carried a partner of the cleared function is left unset -
/// provided no two pads share a number and no partner sat on two pads.
pub proof fn lemma_deselect_unsets_partner_pad(pins: Seq<Pin>, source: usize, f: PinFunction, b: int)
    requires
        numbers_distinct(pins),
        forall|g: PinFunction| partners(f).contains(g) ==> held_once(pins, source, g),
        0 <= b < pins.len(),
        pins[b].number != source,
        partners(f).contains(pins[b].selected_function),
    ensures
        deselected(pins, source, partners(f))[b].selected_function == PinFunction::Unset,
{
    let fs = partners(f);
    crate::pins::lemma_partners_are_lines(f);
    assert forall|i: int| 0 <= i < fs.len() implies held_once(pins, source, #[trigger] fs[i]) by {
        assert(fs.contains(fs[i]));
    }
    lemma_deselected_prefix(pins, source, fs);
    lemma_deselect_clears_partners(pins, source, f);
}

} // verus!
