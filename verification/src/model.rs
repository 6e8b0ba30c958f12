//! The chip model: the microcontroller with its pads, modules, devices and
//! panel state, and the runtime and build preferences a project carries.

use vstd::prelude::*;
use std::collections::BTreeSet;
use crate::modules::{ApiStyle, AsyncBusMode, VirtualModule};
use crate::pins::{Pin, PinFunction};
use crate::text::{chars_eq_str, is_ws, trim, trimmed};

verus! {

/// Project-level execution model: which code-generation runtime the firmware
/// targets. Persisted in `mcu.config` (`@runtime`); a project with no such
/// section loads as [`Runtime::Blocking`].
#[derive(Clone, Copy, PartialEq, Eq, Debug, Structural)]
pub enum Runtime {
    Blocking,
    Native,
    Async,
    Rtic,
}

impl Default for Runtime {
    fn default() -> (r: Self)
        ensures
            r == Runtime::Blocking,
    {
        Runtime::Blocking
    }
}

/// The token `r` is written as in the `@runtime` section.
pub open spec fn runtime_token(r: Runtime) -> Seq<char> {
    match r {
        Runtime::Blocking => "Blocking"@,
        Runtime::Native => "Native"@,
        Runtime::Async => "Async"@,
        Runtime::Rtic => "Rtic"@,
    }
}

/// The runtime a `@runtime` token names; anything unrecognised is Blocking.
pub open spec fn runtime_of_token(s: Seq<char>) -> Runtime {
    let t = trim(s);
    if t == "Async"@ {
        Runtime::Async
    } else if t == "Native"@ {
        Runtime::Native
    } else if t == "Rtic"@ {
        Runtime::Rtic
    } else {
        Runtime::Blocking
    }
}

impl Runtime {
    /// The token written to / read from the `mcu.config` `@runtime` section.
    pub fn as_token(self) -> (r: &'static str)
        ensures
            r@ == runtime_token(self),
    {
        match self {
            Runtime::Blocking => "Blocking",
            Runtime::Native => "Native",
            Runtime::Async => "Async",
            Runtime::Rtic => "Rtic",
        }
    }

    /// Parse the `@runtime` token; anything unrecognised (a missing section
    /// included) is the safe [`Runtime::Blocking`] default.
    pub fn from_token(s: &str) -> (r: Self)
        ensures
            r == runtime_of_token(s@),
    {
        let t = trimmed(s);
        if chars_eq_str(&t, "Async") {
            Runtime::Async
        } else if chars_eq_str(&t, "Native") {
            Runtime::Native
        } else if chars_eq_str(&t, "Rtic") {
            Runtime::Rtic
        } else {
            Runtime::Blocking
        }
    }
}

/// What the IDE does on Project Save when a library changed in `Cargo.toml`.
/// Persisted in `mcu.config` (`@autobuild`); the default is `Check`.
#[derive(Clone, Copy, PartialEq, Eq, Debug, Structural)]
pub enum AutoBuild {
    /// Never auto-build; the user runs Build/Check manually.
    Off,
    /// Run `cargo check`.
    Check,
    /// Run `cargo build --release`.
    Release,
}

impl Default for AutoBuild {
    fn default() -> (r: Self)
        ensures
            r == AutoBuild::Check,
    {
        AutoBuild::Check
    }
}

/// The token `a` is written as in the `@autobuild` section.
pub open spec fn autobuild_token(a: AutoBuild) -> Seq<char> {
    match a {
        AutoBuild::Off => "Off"@,
        AutoBuild::Check => "Check"@,
        AutoBuild::Release => "Release"@,
    }
}

/// The preference an `@autobuild` token names; anything unrecognised is Check.
pub open spec fn autobuild_of_token(s: Seq<char>) -> AutoBuild {
    let t = trim(s);
    if t == "Off"@ {
        AutoBuild::Off
    } else if t == "Release"@ {
        AutoBuild::Release
    } else {
        AutoBuild::Check
    }
}

impl AutoBuild {
    /// The token written to / read from the `@autobuild` section.
    pub fn as_token(self) -> (r: &'static str)
        ensures
            r@ == autobuild_token(self),
    {
        match self {
            AutoBuild::Off => "Off",
            AutoBuild::Check => "Check",
            AutoBuild::Release => "Release",
        }
    }

    /// Parse the `@autobuild` token; anything unrecognised is the default
    /// [`AutoBuild::Check`].
    pub fn from_token(s: &str) -> (r: Self)
        ensures
            r == autobuild_of_token(s@),
    {
        let t = trimmed(s);
        if chars_eq_str(&t, "Off") {
            AutoBuild::Off
        } else if chars_eq_str(&t, "Release") {
            AutoBuild::Release
        } else {
            AutoBuild::Check
        }
    }
}

// ── The chip ─────────────────────────────────────────────────────────────────

/// One ball of a ball-grid package: the pad, and the designator printed under
/// it (`N13`).
pub struct GridCell {
    pub designator: String,
    pub pin: Pin,
}

/// The pads inside a ball-grid package's body.
pub struct BallGrid {
    pub cells: Vec<GridCell>,
}

/// A device: a named set of pads drawn and saved together.
pub struct PinGroup {
    pub name: String,
    pub pins: BTreeSet<usize>,
}

/// A device is live once it has a name; a row the roster is still filling in
/// is not shown, saved or commented.
pub open spec fn group_live(g: PinGroup) -> bool {
    !crate::text::is_blank(g.name@)
}

/// One module undo snapshot: the modules and the pin state
/// (`(number, function, custom_label)`) as they were before an add/remove,
/// plus a short label for the Undo button's hover.
pub struct ModuleUndo {
    pub modules: Vec<VirtualModule>,
    pub pins: Vec<(usize, PinFunction, String)>,
    pub label: String,
}

/// A microcontroller with four sides of pins (and, for a ball grid, pads in
/// its body), the modules wired to it, its devices and its UI state.
pub struct Mcu {
    /// Stable definition id; empty when built outside the registry.
    pub id: String,
    pub name: String,
    /// Family / backend key (e.g. "stm32f1", "esp32c3").
    pub family: String,
    pub top_pins: Vec<Pin>,
    pub bottom_pins: Vec<Pin>,
    pub left_pins: Vec<Pin>,
    pub right_pins: Vec<Pin>,
    /// The pads in the body of a ball-grid package; `None` for an edge package.
    pub grid: Option<BallGrid>,
    /// Currently selected pin number.
    pub selected_pin: Option<usize>,
    /// The toolbar search box.
    pub pin_search: String,
    /// Function whose info window is open.
    pub show_info: Option<PinFunction>,
    /// Virtual modules wired to the chip's pins.
    pub modules: Vec<VirtualModule>,
    /// Applied execution model and GPIO api (what codegen reads).
    pub runtime: Runtime,
    pub gpio_api: ApiStyle,
    /// Staged choices, edited by the System tab and committed on Apply.
    pub pending_runtime: Runtime,
    pub pending_gpio_api: ApiStyle,
    /// Staged per-module `(api_style, async_mode)` keyed by module id.
    pub pending_module_styles: Vec<(String, (ApiStyle, AsyncBusMode))>,
    /// The inline Apply confirmation is showing.
    pub pending_apply_confirm: bool,
    /// The next config regeneration rewrites the templates in full.
    pub config_regen_forced: bool,
    pub auto_build: AutoBuild,
    pub strict_lints: bool,
    pub debug_build: bool,
    /// Id of a module the list should expand next frame.
    pub expand_module: Option<String>,
    /// Undo stack for explicit module add/remove.
    pub module_undo: Vec<ModuleUndo>,
    /// Id of the module whose Remove button awaits confirmation.
    pub module_remove_confirm: Option<String>,
    /// A pin whose generated binding the editor should jump to.
    pub pin_goto: Option<usize>,
    /// A module whose bindings the editor should jump to.
    pub module_goto: Option<String>,
    /// The module selected on the canvas.
    pub selected_module: Option<String>,
    /// A click on empty canvas asks the module list to collapse.
    pub collapse_modules: bool,
    /// Diagram rotation toggle.
    pub rotated: bool,
    /// The devices, in roster order.
    pub groups: Vec<PinGroup>,
}

/// The pads of a ball grid, in cell order.
pub open spec fn grid_pins(g: Option<BallGrid>) -> Seq<Pin> {
    match g {
        Some(b) => b.cells@.map_values(|c: GridCell| c.pin),
        None => Seq::empty(),
    }
}

/// The designators of a ball grid, in cell order.
pub open spec fn grid_designators(g: Option<BallGrid>) -> Seq<Seq<char>> {
    match g {
        Some(b) => cell_designators(b.cells@),
        None => Seq::empty(),
    }
}

/// The designators of a list of ball-grid cells, in order.
pub open spec fn cell_designators(cells: Seq<GridCell>) -> Seq<Seq<char>> {
    cells.map_values(|c: GridCell| c.designator@)
}

/// Replacing one cell's pad leaves the designators as they were.
pub proof fn lemma_designators_keep(cells: Seq<GridCell>, i: int, p: Pin)
    requires
        0 <= i < cells.len(),
    ensures
        #[trigger] cell_designators(
            cells.update(i, GridCell { designator: cells[i].designator, pin: p }),
        ) == cell_designators(cells),
{
    assert(cell_designators(cells.update(i, GridCell { designator: cells[i].designator, pin: p }))
        =~= cell_designators(cells));
}

impl Mcu {
    /// Every pad: top, bottom, left, right, then the ball grid.
    pub open spec fn all_pins(self) -> Seq<Pin> {
        self.top_pins@ + self.bottom_pins@ + self.left_pins@ + self.right_pins@ + grid_pins(
            self.grid,
        )
    }

    /// Where each pad sits, independent of what it carries.
    pub open spec fn same_layout(self, other: Mcu) -> bool {
        &&& self.top_pins@.len() == other.top_pins@.len()
        &&& self.bottom_pins@.len() == other.bottom_pins@.len()
        &&& self.left_pins@.len() == other.left_pins@.len()
        &&& self.right_pins@.len() == other.right_pins@.len()
        &&& self.grid is Some == other.grid is Some
        &&& grid_designators(self.grid) == grid_designators(other.grid)
    }

    /// Everything but the pads is the same.
    pub open spec fn same_but_pins(self, other: Mcu) -> bool {
        &&& self.id == other.id
        &&& self.name == other.name
        &&& self.family == other.family
        &&& self.selected_pin == other.selected_pin
        &&& self.pin_search == other.pin_search
        &&& self.show_info == other.show_info
        &&& self.modules == other.modules
        &&& self.runtime == other.runtime
        &&& self.gpio_api == other.gpio_api
        &&& self.pending_runtime == other.pending_runtime
        &&& self.pending_gpio_api == other.pending_gpio_api
        &&& self.pending_module_styles == other.pending_module_styles
        &&& self.pending_apply_confirm == other.pending_apply_confirm
        &&& self.config_regen_forced == other.config_regen_forced
        &&& self.auto_build == other.auto_build
        &&& self.strict_lints == other.strict_lints
        &&& self.debug_build == other.debug_build
        &&& self.expand_module == other.expand_module
        &&& self.module_undo == other.module_undo
        &&& self.module_remove_confirm == other.module_remove_confirm
        &&& self.pin_goto == other.pin_goto
        &&& self.module_goto == other.module_goto
        &&& self.selected_module == other.selected_module
        &&& self.collapse_modules == other.collapse_modules
        &&& self.rotated == other.rotated
        &&& self.groups == other.groups
    }

    /// A mutable borrow of the `k`-th pad of [`Mcu::all_pins`].
    pub fn pin_mut(&mut self, k: usize) -> (r: &mut Pin)
        requires
            k < old(self).all_pins().len(),
        ensures
            *r == old(self).all_pins()[k as int],
            final(self).all_pins() == old(self).all_pins().update(k as int, *final(r)),
            final(self).same_layout(*old(self)),
            final(self).same_but_pins(*old(self)),
    {
        let t = self.top_pins.len();
        let b = self.bottom_pins.len();
        let l = self.left_pins.len();
        let rr = self.right_pins.len();
        if k < t {
            &mut self.top_pins[k]
        } else if k - t < b {
            &mut self.bottom_pins[k - t]
        } else if k - t - b < l {
            &mut self.left_pins[k - t - b]
        } else if k - t - b - l < rr {
            &mut self.right_pins[k - t - b - l]
        } else {
            match &mut self.grid {
                Some(g) => {
                    let i = k - t - b - l - rr;
                    proof {
                        let cells = g.cells@;
                        assert forall|p: Pin|
                            #[trigger] cell_designators(
                                cells.update(
                                    i as int,
                                    GridCell { designator: cells[i as int].designator, pin: p },
                                ),
                            ) == cell_designators(cells) by {
                            lemma_designators_keep(cells, i as int, p);
                        }
                    }
                    &mut g.cells[i].pin
                },
                None => {
                    proof {
                        assert(false);
                    }
                    &mut self.top_pins[0]
                },
            }
        }
    }
}

/// A token without surrounding white space trims to itself.
proof fn lemma_trim_plain(s: Seq<char>)
    requires
        s.len() > 0,
        !is_ws(s[0]),
        !is_ws(s.last()),
    ensures
        trim(s) == s,
{
}

/// Reading back the token a runtime is written as gives that runtime.
pub proof fn lemma_runtime_token_round_trip(r: Runtime)
    ensures
        runtime_of_token(runtime_token(r)) == r,
{
    reveal_strlit("Blocking");
    reveal_strlit("Native");
    reveal_strlit("Async");
    reveal_strlit("Rtic");
    lemma_trim_plain(runtime_token(r));
}

/// Reading back the token an auto-build preference is written as gives that
/// preference.
pub proof fn lemma_autobuild_token_round_trip(a: AutoBuild)
    ensures
        autobuild_of_token(autobuild_token(a)) == a,
{
    reveal_strlit("Off");
    reveal_strlit("Check");
    reveal_strlit("Release");
    lemma_trim_plain(autobuild_token(a));
}

/// White space around a token never changes what it reads as.
pub proof fn lemma_runtime_token_ignores_padding(a: Seq<char>, b: Seq<char>)
    requires
        trim(a) == trim(b),
    ensures
        runtime_of_token(a) == runtime_of_token(b),
        autobuild_of_token(a) == autobuild_of_token(b),
{
}

} // verus!
