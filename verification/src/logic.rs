//! The chip's pads as one list: building a chip, looking pads up by number,
//! counting and resetting what is configured, and what the package shape
//! says about the drawing.

use vstd::prelude::*;
use crate::model::{grid_pins, AutoBuild, BallGrid, GridCell, Mcu, Runtime};
use crate::modules::{ApiStyle, VirtualModule};
use crate::pins::{Pin, PinFunction};

verus! {

/// The index of the first pad numbered `n` at or after `i`.
pub open spec fn index_from(pins: Seq<Pin>, n: usize, i: int) -> Option<int>
    decreases pins.len() - i,
{
    if i < 0 || i >= pins.len() {
        None
    } else if pins[i].number == n {
        Some(i)
    } else {
        index_from(pins, n, i + 1)
    }
}

/// The index of the first pad numbered `n`.
pub open spec fn pin_index(pins: Seq<Pin>, n: usize) -> Option<int> {
    index_from(pins, n, 0)
}

/// The pad a number lookup finds carries that number, and none before it
/// does.
pub proof fn lemma_index_from(pins: Seq<Pin>, n: usize, i: int)
    requires
        0 <= i,
    ensures
        index_from(pins, n, i) matches Some(k) ==> i <= k < pins.len() && pins[k].number == n
            && forall|j: int| i <= j < k ==> pins[j].number != n,
        index_from(pins, n, i) is None ==> forall|j: int|
            i <= j < pins.len() ==> pins[j].number != n,
    decreases pins.len() - i,
{
    if i < pins.len() {
        lemma_index_from(pins, n, i + 1);
    }
}

/// A pad is configured when it is assignable and carries a function.
pub open spec fn configured(p: Pin) -> bool {
    !p.reserved && p.selected_function != PinFunction::Unset
}

/// How many of `pins` are configured.
pub open spec fn count_configured(pins: Seq<Pin>) -> nat
    decreases pins.len(),
{
    if pins.len() == 0 {
        0
    } else {
        count_configured(pins.drop_last()) + if configured(pins.last()) {
            1nat
        } else {
            0nat
        }
    }
}

/// A pad as "Reset pins" leaves it: an assignable pad is `Unset`, a reserved
/// one is untouched.
pub open spec fn reset_pin(p: Pin) -> Pin {
    if p.reserved {
        p
    } else {
        Pin { selected_function: PinFunction::Unset, ..p }
    }
}

/// `(number, name, selected_function)` of every assignable pad, in order.
pub open spec fn assignable_functions(pins: Seq<Pin>) -> Seq<(usize, Seq<char>, PinFunction)>
    decreases pins.len(),
{
    if pins.len() == 0 {
        Seq::empty()
    } else {
        let rest = assignable_functions(pins.drop_last());
        let p = pins.last();
        if p.reserved {
            rest
        } else {
            rest.push((p.number, p.name@, p.selected_function))
        }
    }
}

/// The views of a list of `(number, name, function)` rows.
pub open spec fn row_views(v: Seq<(usize, String, PinFunction)>) -> Seq<
    (usize, Seq<char>, PinFunction),
> {
    v.map_values(|r: (usize, String, PinFunction)| (r.0, r.1@, r.2))
}

impl Mcu {
    /// Create a new MCU with the given configuration: an edge package with no
    /// modules, devices or selection, every preference at its default and
    /// nothing staged.
    ///
    /// `family` is the codegen backend key (e.g. "stm32f1", "esp32c3").
    pub fn new(
        name: String,
        family: String,
        top_pins: Vec<Pin>,
        bottom_pins: Vec<Pin>,
        left_pins: Vec<Pin>,
        right_pins: Vec<Pin>,
    ) -> (r: Self)
        ensures
            r.id@ == Seq::<char>::empty(),
            r.name == name,
            r.family == family,
            r.top_pins == top_pins,
            r.bottom_pins == bottom_pins,
            r.left_pins == left_pins,
            r.right_pins == right_pins,
            r.grid is None,
            r.selected_pin is None,
            r.pin_search@ == Seq::<char>::empty(),
            r.show_info is None,
            r.modules@ == Seq::<VirtualModule>::empty(),
            r.runtime == Runtime::Blocking,
            r.gpio_api == ApiStyle::Portable,
            r.pending_runtime == Runtime::Blocking,
            r.pending_gpio_api == ApiStyle::Portable,
            r.pending_module_styles@.len() == 0,
            !r.pending_apply_confirm,
            !r.config_regen_forced,
            r.auto_build == AutoBuild::Check,
            !r.strict_lints,
            !r.debug_build,
            r.expand_module is None,
            r.module_undo@.len() == 0,
            r.module_remove_confirm is None,
            r.pin_goto is None,
            r.module_goto is None,
            r.selected_module is None,
            !r.collapse_modules,
            !r.rotated,
            r.groups@.len() == 0,
    {
        Mcu {
            id: String::new(),
            name,
            family,
            top_pins,
            bottom_pins,
            left_pins,
            right_pins,
            grid: None,
            selected_pin: None,
            pin_search: String::new(),
            show_info: None,
            modules: Vec::new(),
            runtime: Runtime::default(),
            gpio_api: ApiStyle::Portable,
            pending_runtime: Runtime::default(),
            pending_gpio_api: ApiStyle::Portable,
            pending_module_styles: Vec::new(),
            pending_apply_confirm: false,
            config_regen_forced: false,
            auto_build: AutoBuild::default(),
            strict_lints: false,
            debug_build: false,
            expand_module: None,
            module_undo: Vec::new(),
            module_remove_confirm: None,
            pin_goto: None,
            module_goto: None,
            selected_module: None,
            collapse_modules: false,
            rotated: false,
            groups: Vec::new(),
        }
    }

    /// Whether the package has pads on at least three of its four edges.
    pub open spec fn quad_package(self) -> bool {
        (if self.top_pins@.len() > 0 {
            1int
        } else {
            0
        }) + (if self.bottom_pins@.len() > 0 {
            1int
        } else {
            0
        }) + (if self.left_pins@.len() > 0 {
            1int
        } else {
            0
        }) + (if self.right_pins@.len() > 0 {
            1int
        } else {
            0
        }) >= 3
    }

    /// Whether the package carries pads inside its body (a ball grid).
    pub open spec fn inner_pins(self) -> bool {
        match self.grid {
            Some(g) => g.cells@.len() > 0,
            None => false,
        }
    }

    /// A 4-sided (QFP-style) package — pins on 3 or 4 edges. Rotation makes it
    /// a 45° diamond; a 2-sided (DIP) package rotates 90° instead.
    pub fn is_quad_package(&self) -> (r: bool)
        ensures
            r == self.quad_package(),
    {
        let mut n: u8 = 0;
        if self.top_pins.len() > 0 {
            n = n + 1;
        }
        if self.bottom_pins.len() > 0 {
            n = n + 1;
        }
        if self.left_pins.len() > 0 {
            n = n + 1;
        }
        if self.right_pins.len() > 0 {
            n = n + 1;
        }
        n >= 3
    }

    /// Whether the package carries pins INSIDE the body (a ball grid) rather
    /// than only around its edges.
    pub fn has_inner_pins(&self) -> (r: bool)
        ensures
            r == self.inner_pins(),
    {
        match &self.grid {
            Some(g) => g.cells.len() > 0,
            None => false,
        }
    }

    /// The pad count fits the machine's index type.
    pub open spec fn pins_fit(self) -> bool {
        self.all_pins().len() <= usize::MAX
    }

    /// How many pads the chip has.
    pub fn pin_count(&self) -> (r: usize)
        requires
            self.pins_fit(),
        ensures
            r == self.all_pins().len(),
    {
        let g = match &self.grid {
            Some(g) => g.cells.len(),
            None => 0,
        };
        assert(grid_pins(self.grid).len() == g);
        self.top_pins.len() + self.bottom_pins.len() + self.left_pins.len() + self.right_pins.len()
            + g
    }

    /// The `k`-th pad of [`Mcu::all_pins`].
    pub fn pin_ref(&self, k: usize) -> (r: &Pin)
        requires
            k < self.all_pins().len(),
        ensures
            *r == self.all_pins()[k as int],
    {
        let t = self.top_pins.len();
        let b = self.bottom_pins.len();
        let l = self.left_pins.len();
        let rr = self.right_pins.len();
        if k < t {
            &self.top_pins[k]
        } else if k - t < b {
            &self.bottom_pins[k - t]
        } else if k - t - b < l {
            &self.left_pins[k - t - b]
        } else if k - t - b - l < rr {
            &self.right_pins[k - t - b - l]
        } else {
            match &self.grid {
                Some(g) => &g.cells[k - t - b - l - rr].pin,
                None => {
                    proof {
                        assert(false);
                    }
                    &self.top_pins[0]
                },
            }
        }
    }

    /// The index of the first pad numbered `number`, if any.
    pub fn find_pin_index(&self, number: usize) -> (r: Option<usize>)
        requires
            self.pins_fit(),
        ensures
            r matches Some(k) ==> pin_index(self.all_pins(), number) == Some(k as int),
            r is None ==> pin_index(self.all_pins(), number) is None,
    {
        let n = self.pin_count();
        let mut k: usize = 0;
        while k < n
            invariant
                n == self.all_pins().len(),
                k <= n,
                pin_index(self.all_pins(), number) == index_from(self.all_pins(), number, k as int),
            decreases n - k,
        {
            if self.pin_ref(k).number == number {
                return Some(k);
            }
            k = k + 1;
        }
        None
    }

    /// Finds a pin by number: the first pad carrying it.
    pub fn find_pin(&self, number: usize) -> (r: Option<&Pin>)
        requires
            self.pins_fit(),
        ensures
            r matches Some(p) ==> pin_index(self.all_pins(), number) matches Some(k) && *p
                == self.all_pins()[k],
            r is None ==> pin_index(self.all_pins(), number) is None,
    {
        match self.find_pin_index(number) {
            Some(k) => {
                proof {
                    lemma_index_from(self.all_pins(), number, 0);
                }
                Some(self.pin_ref(k))
            },
            None => None,
        }
    }

    /// Every pad, in [`Mcu::all_pins`] order: top, bottom, left, right, then
    /// the ball grid.
    pub fn iter_all_pins(&self) -> (r: Vec<&Pin>)
        requires
            self.pins_fit(),
        ensures
            r@.len() == self.all_pins().len(),
            forall|i: int| 0 <= i < r@.len() ==> *r@[i] == self.all_pins()[i],
    {
        let n = self.pin_count();
        let mut out: Vec<&Pin> = Vec::new();
        let mut k: usize = 0;
        while k < n
            invariant
                n == self.all_pins().len(),
                k <= n,
                out@.len() == k,
                forall|i: int| 0 <= i < k ==> *out@[i] == self.all_pins()[i],
            decreases n - k,
        {
            out.push(self.pin_ref(k));
            k = k + 1;
        }
        out
    }

    /// The first pad numbered `number`, mutably.
    pub fn find_pin_mut(&mut self, number: usize) -> (r: Option<&mut Pin>)
        requires
            old(self).pins_fit(),
        ensures
            match r {
                Some(p) => pin_index(old(self).all_pins(), number) matches Some(k) && *p == old(
                    self,
                ).all_pins()[k] && final(self).all_pins() == old(self).all_pins().update(k, *final(p))
                    && final(self).same_layout(*old(self)) && final(self).same_but_pins(*old(self)),
                None => pin_index(old(self).all_pins(), number) is None && *final(self) == *old(self),
            },
    {
        match self.find_pin_index(number) {
            Some(k) => {
                proof {
                    lemma_index_from(self.all_pins(), number, 0);
                }
                Some(self.pin_mut(k))
            },
            None => None,
        }
    }

    /// How many pins "Reset pins" would actually clear: 0 exactly when the
    /// button has nothing to do.
    pub fn configured_pin_count(&self) -> (r: usize)
        requires
            self.pins_fit(),
        ensures
            r == count_configured(self.all_pins()),
    {
        let n = self.pin_count();
        let mut c: usize = 0;
        let mut k: usize = 0;
        while k < n
            invariant
                n == self.all_pins().len(),
                k <= n,
                c == count_configured(self.all_pins().subrange(0, k as int)),
                c <= k,
            decreases n - k,
        {
            let p = self.pin_ref(k);
            assert(self.all_pins().subrange(0, k + 1).drop_last() =~= self.all_pins().subrange(
                0,
                k as int,
            ));
            if !p.reserved && p.selected_function != PinFunction::Unset {
                c = c + 1;
            }
            k = k + 1;
        }
        assert(self.all_pins().subrange(0, n as int) =~= self.all_pins());
        c
    }

    /// Resets all non-reserved pins to Unset and clears selection/info state.
    pub fn reset_all_pins(&mut self)
        requires
            old(self).pins_fit(),
        ensures
            final(self).all_pins() == old(self).all_pins().map_values(|p: Pin| reset_pin(p)),
            final(self).same_layout(*old(self)),
            final(self).same_but_pins(Mcu { selected_pin: None, show_info: None, ..*old(self) }),
    {
        let n = self.pin_count();
        let ghost start = self.all_pins();
        let mut k: usize = 0;
        while k < n
            invariant
                n == self.all_pins().len(),
                start.len() == n,
                k <= n,
                self.pins_fit(),
                forall|j: int| 0 <= j < k ==> self.all_pins()[j] == reset_pin(start[j]),
                forall|j: int| k <= j < n ==> self.all_pins()[j] == start[j],
                self.same_layout(*old(self)),
                self.same_but_pins(*old(self)),
            decreases n - k,
        {
            if !self.pin_ref(k).reserved {
                let p = self.pin_mut(k);
                p.selected_function = PinFunction::Unset;
            }
            k = k + 1;
        }
        assert(self.all_pins() =~= start.map_values(|p: Pin| reset_pin(p)));
        self.selected_pin = None;
        self.show_info = None;
    }

    /// Returns `(number, name, selected_function)` for every non-reserved pin.
    pub fn all_pin_functions(&self) -> (r: Vec<(usize, String, PinFunction)>)
        requires
            self.pins_fit(),
        ensures
            row_views(r@) == assignable_functions(self.all_pins()),
    {
        let n = self.pin_count();
        let mut out: Vec<(usize, String, PinFunction)> = Vec::new();
        let mut k: usize = 0;
        while k < n
            invariant
                n == self.all_pins().len(),
                k <= n,
                row_views(out@) == assignable_functions(self.all_pins().subrange(0, k as int)),
            decreases n - k,
        {
            let p = self.pin_ref(k);
            assert(self.all_pins().subrange(0, k + 1).drop_last() =~= self.all_pins().subrange(
                0,
                k as int,
            ));
            if !p.reserved {
                let ghost prev = out@;
                out.push((p.number, p.name.clone(), p.selected_function));
                assert(row_views(out@) =~= row_views(prev).push(
                    (p.number, p.name@, p.selected_function),
                ));
            }
            k = k + 1;
        }
        assert(self.all_pins().subrange(0, n as int) =~= self.all_pins());
        out
    }

    /// Ask the editor to jump to the line that defines pin `pin_num`'s
    /// variable. A no-op for a pin with no function (or no such pin).
    pub fn request_pin_goto(&mut self, pin_num: usize)
        requires
            old(self).pins_fit(),
        ensures
            ({
                let configured_pad = match pin_index(old(self).all_pins(), pin_num) {
                    Some(k) => old(self).all_pins()[k].selected_function != PinFunction::Unset,
                    None => false,
                };
                if configured_pad {
                    *final(self) == Mcu { pin_goto: Some(pin_num), ..*old(self) }
                } else {
                    *final(self) == *old(self)
                }
            }),
    {
        let configured_pad = match self.find_pin(pin_num) {
            Some(p) => p.selected_function != PinFunction::Unset,
            None => false,
        };
        if configured_pad {
            self.pin_goto = Some(pin_num);
        }
    }
}

/// After "Reset pins" nothing is left to reset: the count the confirm names
/// is exactly what the reset clears.
pub proof fn lemma_reset_clears_count(pins: Seq<Pin>)
    ensures
        count_configured(pins.map_values(|p: Pin| reset_pin(p))) == 0,
    decreases pins.len(),
{
    if pins.len() > 0 {
        lemma_reset_clears_count(pins.drop_last());
        assert(pins.map_values(|p: Pin| reset_pin(p)).drop_last() =~= pins.drop_last().map_values(
            |p: Pin| reset_pin(p),
        ));
    }
}

} // verus!
