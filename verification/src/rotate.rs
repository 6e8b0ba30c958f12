//! Which rotation the Pins canvas applies: a two-sided chip turns a quarter,
//! a four-sided chip or a ball grid becomes a diamond. View-only; the model's
//! pins and codegen never see it.

use vstd::prelude::*;
use crate::model::Mcu;

verus! {

/// The rotation the current chip + toggle produce.
#[derive(Clone, Copy, PartialEq, Eq, Debug, Structural)]
pub enum RotMode {
    /// Default orientation (no rotation).
    Unrotated,
    /// 2-sided (DIP) chip rotated 90° clockwise.
    Quarter,
    /// 4-sided (QFP) chip or ball grid rotated 45° clockwise (diamond).
    Diamond,
}

/// Which screen edge an outward direction points to (nearest axis): picks a
/// per-side pin renderer on a quarter turn and places module boxes.
#[derive(Clone, Copy, PartialEq, Eq, Debug, Structural)]
pub enum ScreenSide {
    Right,
    Left,
    Top,
    Bottom,
}

/// Hover text of the toggle on a chip that turns into a diamond.
pub const DIAMOND_HINT: &'static str =
    "Rotate the chip 45° into a diamond — helps line up pins & modules. Toggle off to reset.";

/// Hover text of the toggle on a chip that turns a quarter.
pub const QUARTER_HINT: &'static str =
    "Rotate the chip 90° (vertical / horizontal) — helps line up pins & modules.";

/// The shape a package turns into: a diamond for a quad package or a ball
/// grid, a quarter turn otherwise.
pub open spec fn package_rotation(mcu: Mcu) -> RotMode {
    if mcu.quad_package() || mcu.inner_pins() {
        RotMode::Diamond
    } else {
        RotMode::Quarter
    }
}

/// The rotation in force: the package's shape when the toggle is on.
pub open spec fn rotation_of(mcu: Mcu) -> RotMode {
    if mcu.rotated {
        package_rotation(mcu)
    } else {
        RotMode::Unrotated
    }
}

impl RotMode {
    /// The shape this PACKAGE turns into — what the toggle *would* do, asked
    /// without reference to whether it is currently on.
    pub fn for_package(mcu: &Mcu) -> (r: Self)
        ensures
            r == package_rotation(*mcu),
    {
        if mcu.is_quad_package() || mcu.has_inner_pins() {
            RotMode::Diamond
        } else {
            RotMode::Quarter
        }
    }

    /// Pick the mode from the chip's package and its `rotated` toggle.
    pub fn of(mcu: &Mcu) -> (r: Self)
        ensures
            r == rotation_of(*mcu),
    {
        if mcu.rotated {
            Self::for_package(mcu)
        } else {
            RotMode::Unrotated
        }
    }

    /// What the Rotate toggle promises, for its hover text.
    pub fn hint(self) -> (r: &'static str)
        ensures
            r@ == if self == RotMode::Diamond {
                DIAMOND_HINT@
            } else {
                QUARTER_HINT@
            },
    {
        match self {
            RotMode::Diamond => DIAMOND_HINT,
            _ => QUARTER_HINT,
        }
    }
}

/// The hover text promises what the toggle does: with the toggle on, the
/// rotation in force is the package's shape the hint names, and it is a real
/// rotation; a ball grid (pads in its body, none on its sides) is promised and
/// given the diamond.
pub proof fn lemma_hint_matches_rotation(mcu: Mcu)
    ensures
        mcu.rotated ==> rotation_of(mcu) == package_rotation(mcu),
        package_rotation(mcu) != RotMode::Unrotated,
        mcu.inner_pins() ==> package_rotation(mcu) == RotMode::Diamond,
{
}

} // verus!
