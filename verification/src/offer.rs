//! What the Pins tab offers for one pad: the functions it can still take,
//! and why a peripheral the silicon has may still not be offered.

use vstd::prelude::*;
use crate::logic::{lemma_index_from, pin_index};
use crate::model::Mcu;
use crate::modules::ModuleKind;
use crate::pins::{Pin, PinFunction};
use crate::text::chars_eq_str;

verus! {

/// Some pad other than `num` carries `f`.
pub open spec fn used_elsewhere(pins: Seq<Pin>, num: usize, f: PinFunction) -> bool {
    exists|k: int|
        0 <= k < pins.len() && pins[k].number != num && #[trigger] pins[k].selected_function == f
            && f != PinFunction::Unset
}

/// `f` is offered: a GPIO role (any pad can be one), or a function no other
/// pad already carries.
pub open spec fn still_free(pins: Seq<Pin>, num: usize, f: PinFunction) -> bool {
    f == PinFunction::GpioInput || f == PinFunction::GpioOutput || !used_elsewhere(pins, num, f)
}

/// The functions of `avail` that are offered, in order.
pub open spec fn offered(pins: Seq<Pin>, num: usize, avail: Seq<PinFunction>) -> Seq<PinFunction>
    decreases avail.len(),
{
    if avail.len() == 0 {
        avail
    } else {
        let rest = offered(pins, num, avail.drop_last());
        if still_free(pins, num, avail.last()) {
            rest.push(avail.last())
        } else {
            rest
        }
    }
}

/// The first index of `f` in `s`.
pub open spec fn first_index(s: Seq<PinFunction>, f: PinFunction, i: int) -> Option<int>
    decreases s.len() - i,
{
    if i < 0 || i >= s.len() {
        None
    } else if s[i] == f {
        Some(i)
    } else {
        first_index(s, f, i + 1)
    }
}

/// `s` with the first `f` moved to the front.
pub open spec fn current_first(s: Seq<PinFunction>, f: PinFunction) -> Seq<PinFunction> {
    match first_index(s, f, 0) {
        Some(i) => seq![s[i]] + s.remove(i),
        None => s,
    }
}

proof fn lemma_first_index(s: Seq<PinFunction>, f: PinFunction, i: int)
    requires
        0 <= i,
    ensures
        first_index(s, f, i) matches Some(k) ==> i <= k < s.len() && s[k] == f,
    decreases s.len() - i,
{
    if i < s.len() {
        lemma_first_index(s, f, i + 1);
    }
}

/// Why a peripheral this chip has is still not offered: the sentence the
/// palette shows in place of the entry.
pub open spec fn hardware_only(kind: ModuleKind, family: Seq<char>) -> Option<Seq<char>> {
    if kind == ModuleKind::GenericInterfaceTouch && (family == "esp32s2"@ || family == "esp32s3"@) {
        Some(TOUCH_HARDWARE_ONLY@)
    } else {
        None
    }
}

/// The capacitive-touch explanation on the ESP32-S2 and -S3.
pub const TOUCH_HARDWARE_ONLY: &'static str = "This chip HAS capacitive touch, but esp-hal builds no touch driver for it - only for the original ESP32. Nothing could be generated, so the pads are not offered either. An external touch controller over I2C works today.";

impl Mcu {
    /// Why a peripheral this chip HAS is still not offered, as the sentence to
    /// show in place of the palette entry; `None` when nothing stands in the
    /// way.
    pub fn hardware_only_reason(&self, kind: ModuleKind) -> (r: Option<&'static str>)
        ensures
            r matches Some(s) ==> hardware_only(kind, self.family@) == Some(s@),
            r is None ==> hardware_only(kind, self.family@) is None,
    {
        if kind == ModuleKind::GenericInterfaceTouch {
            let f = crate::text::str_chars(self.family.as_str());
            if chars_eq_str(&f, "esp32s2") || chars_eq_str(&f, "esp32s3") {
                return Some(TOUCH_HARDWARE_ONLY);
            }
        }
        None
    }

    /// The functions offered for pad `num`: everything it can do, minus what
    /// another pad already carries (GPIO In/Out are always offered), with its
    /// current function heading the list. `None` when no pad has that
    /// number; otherwise the pad's name, the list and its current function.
    pub fn selectable_functions(&self, num: usize) -> (r: Option<(String, Vec<PinFunction>, PinFunction)>)
        requires
            self.pins_fit(),
        ensures
            r is None <==> pin_index(self.all_pins(), num) is None,
            r matches Some(t) ==> {
                let p = self.all_pins()[pin_index(self.all_pins(), num)->0];
                &&& t.0@ == p.name@
                &&& t.1@ == current_first(
                    offered(self.all_pins(), num, p.available_functions@),
                    p.selected_function,
                )
                &&& t.2 == p.selected_function
            },
    {
        let n = self.pin_count();
        let mut used: Vec<PinFunction> = Vec::new();
        let mut k: usize = 0;
        while k < n
            invariant
                n == self.all_pins().len(),
                k <= n,
                forall|f: PinFunction|
                    used@.contains(f) <==> exists|j: int|
                        0 <= j < k && self.all_pins()[j].number != num
                            && #[trigger] self.all_pins()[j].selected_function == f && f
                            != PinFunction::Unset,
            decreases n - k,
        {
            let p = self.pin_ref(k);
            let ghost before = used@;
            if p.number != num && p.selected_function != PinFunction::Unset {
                used.push(p.selected_function);
            }
            assert forall|f: PinFunction|
                used@.contains(f) <==> exists|j: int|
                    0 <= j < k + 1 && self.all_pins()[j].number != num
                        && #[trigger] self.all_pins()[j].selected_function == f && f
                        != PinFunction::Unset by {
                if used@.contains(f) && !before.contains(f) {
                    assert(self.all_pins()[k as int].selected_function == f);
                }
                if before.contains(f) {
                    let i = choose|i: int| 0 <= i < before.len() && before[i] == f;
                    assert(used@[i] == f);
                }
                if exists|j: int|
                    0 <= j < k + 1 && self.all_pins()[j].number != num
                        && #[trigger] self.all_pins()[j].selected_function == f && f
                        != PinFunction::Unset {
                    let j = choose|j: int|
                        0 <= j < k + 1 && self.all_pins()[j].number != num
                            && #[trigger] self.all_pins()[j].selected_function == f && f
                            != PinFunction::Unset;
                    if j == k {
                        assert(used@[used@.len() - 1] == f);
                    }
                }
            }
            k = k + 1;
        }
        let idx = match self.find_pin_index(num) {
            Some(i) => i,
            None => {
                return None;
            },
        };
        proof {
            lemma_index_from(self.all_pins(), num, 0);
        }
        let pin = self.pin_ref(idx);
        let avail = &pin.available_functions;
        let mut funcs: Vec<PinFunction> = Vec::new();
        let mut i: usize = 0;
        while i < avail.len()
            invariant
                i <= avail@.len(),
                n == self.all_pins().len(),
                forall|f: PinFunction| used@.contains(f) <==> used_elsewhere(self.all_pins(), num, f),
                funcs@ == offered(self.all_pins(), num, avail@.subrange(0, i as int)),
            decreases avail@.len() - i,
        {
            assert(avail@.subrange(0, i + 1).drop_last() =~= avail@.subrange(0, i as int));
            let f = avail[i];
            let free = f == PinFunction::GpioInput || f == PinFunction::GpioOutput
                || !crate::pwm::has_function(&used, f);
            if free {
                funcs.push(f);
            }
            i = i + 1;
        }
        assert(avail@.subrange(0, avail@.len() as int) =~= avail@);
        let cur = pin.selected_function;
        let ghost off = funcs@;
        let mut j: usize = 0;
        while j < funcs.len() && funcs[j] != cur
            invariant
                j <= funcs@.len(),
                funcs@ == off,
                first_index(off, cur, 0) == first_index(off, cur, j as int),
            decreases funcs@.len() - j,
        {
            j = j + 1;
        }
        if j < funcs.len() {
            let c = funcs.remove(j);
            funcs.insert(0, c);
            assert(funcs@ =~= seq![off[j as int]] + off.remove(j as int));
        }
        Some((pin.name.clone(), funcs, cur))
    }
}

/// The list a pad offers heads with its current function whenever that is
/// one of the offered ones, and always offers the GPIO roles it can take.
pub proof fn lemma_current_heads_the_list(pins: Seq<Pin>, num: usize, avail: Seq<PinFunction>, cur: PinFunction)
    ensures
        offered(pins, num, avail).contains(cur) ==> current_first(offered(pins, num, avail), cur)[0]
            == cur,
        current_first(offered(pins, num, avail), cur).len() == offered(pins, num, avail).len(),
        avail.contains(PinFunction::GpioOutput) ==> offered(pins, num, avail).contains(PinFunction::GpioOutput),
        avail.contains(PinFunction::GpioInput) ==> offered(pins, num, avail).contains(PinFunction::GpioInput),
    decreases avail.len(),
{
    let o = offered(pins, num, avail);
    lemma_first_index(o, cur, 0);
    if o.contains(cur) {
        let k = choose|k: int| 0 <= k < o.len() && o[k] == cur;
        lemma_first_index_some(o, cur, 0, k);
    }
    if avail.len() > 0 {
        lemma_current_heads_the_list(pins, num, avail.drop_last(), cur);
        if avail.contains(PinFunction::GpioOutput) {
            let k = choose|k: int| 0 <= k < avail.len() && avail[k] == PinFunction::GpioOutput;
            if k < avail.len() - 1 {
                assert(avail.drop_last()[k] == PinFunction::GpioOutput);
            }
        }
        if avail.contains(PinFunction::GpioInput) {
            let k = choose|k: int| 0 <= k < avail.len() && avail[k] == PinFunction::GpioInput;
            if k < avail.len() - 1 {
                assert(avail.drop_last()[k] == PinFunction::GpioInput);
            }
        }
        let rest = offered(pins, num, avail.drop_last());
        if still_free(pins, num, avail.last()) {
            if rest.contains(PinFunction::GpioOutput) {
                let k = choose|k: int| 0 <= k < rest.len() && rest[k] == PinFunction::GpioOutput;
                assert(o[k] == PinFunction::GpioOutput);
            }
            if rest.contains(PinFunction::GpioInput) {
                let k = choose|k: int| 0 <= k < rest.len() && rest[k] == PinFunction::GpioInput;
                assert(o[k] == PinFunction::GpioInput);
            }
            assert(o[rest.len() as int] == avail.last());
        }
    }
}

proof fn lemma_first_index_some(s: Seq<PinFunction>, f: PinFunction, i: int, k: int)
    requires
        0 <= i <= k < s.len(),
        s[k] == f,
    ensures
        first_index(s, f, i) is Some,
    decreases k - i,
{
    if s[i] != f {
        lemma_first_index_some(s, f, i + 1, k);
    }
}


/// The function a click on a row of the list asks for: the row's function,
/// or `Unset` when it is the one the pad already carries (a click on the
/// active function clears the pad).
pub fn clicked_function(current: PinFunction, row: PinFunction) -> (r: PinFunction)
    ensures
        r == (if row == current {
            PinFunction::Unset
        } else {
            row
        }),
{
    if row == current {
        PinFunction::Unset
    } else {
        row
    }
}

impl Mcu {
    /// A click on a row's info button: it opens that function's info window,
    /// or closes it when it is the one already open.
    pub fn toggle_info(&mut self, func: PinFunction)
        ensures
            final(self).show_info == (if old(self).show_info == Some(func) {
                None
            } else {
                Some(func)
            }),
            *final(self) == (Mcu { show_info: final(self).show_info, ..*old(self) }),
    {
        let open = match self.show_info {
            Some(f) => f == func,
            None => false,
        };
        self.show_info = if open {
            None
        } else {
            Some(func)
        };
    }
}

} // verus!
