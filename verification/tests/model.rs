use mcu_module::model::{AutoBuild, BallGrid, GridCell, Mcu, Runtime};
use mcu_module::modules::ApiStyle;
use mcu_module::pins::{Pin, PinFunction};
use mcu_module::rotate::{RotMode, DIAMOND_HINT, QUARTER_HINT};

fn pad(number: usize, name: &str) -> Pin {
    Pin {
        number,
        name: name.to_owned(),
        reserved: false,
        selected_function: PinFunction::Unset,
        available_functions: vec![PinFunction::GpioOutput],
        custom_label: String::new(),
        irq: None,
    }
}

#[test]
fn runtime_tokens_round_trip() {
    for r in [Runtime::Blocking, Runtime::Native, Runtime::Async, Runtime::Rtic] {
        assert_eq!(Runtime::from_token(r.as_token()), r);
    }
    assert_eq!(Runtime::from_token("  Async \n"), Runtime::Async);
    assert_eq!(Runtime::from_token("async"), Runtime::Blocking);
    assert_eq!(Runtime::from_token(""), Runtime::Blocking);
    assert_eq!(Runtime::Rtic.as_token(), "Rtic");
    assert_eq!(Runtime::default(), Runtime::Blocking);
}

#[test]
fn autobuild_tokens_round_trip() {
    for a in [AutoBuild::Off, AutoBuild::Check, AutoBuild::Release] {
        assert_eq!(AutoBuild::from_token(a.as_token()), a);
    }
    assert_eq!(AutoBuild::from_token(" Off"), AutoBuild::Off);
    assert_eq!(AutoBuild::from_token("release"), AutoBuild::Check);
    assert_eq!(AutoBuild::default(), AutoBuild::Check);
}

#[test]
fn a_new_chip_starts_bare() {
    let mcu = Mcu::new(
        "STM32F103C8Tx".to_owned(),
        "stm32f1".to_owned(),
        vec![pad(1, "PA0")],
        vec![pad(2, "PA1")],
        vec![],
        vec![],
    );
    assert_eq!(mcu.id, "");
    assert_eq!(mcu.family, "stm32f1");
    assert!(mcu.modules.is_empty() && mcu.groups.is_empty() && mcu.module_undo.is_empty());
    assert_eq!(mcu.runtime, Runtime::Blocking);
    assert_eq!(mcu.gpio_api, ApiStyle::Portable);
    assert_eq!(mcu.auto_build, AutoBuild::Check);
    assert!(!mcu.rotated && mcu.grid.is_none());
    assert_eq!(mcu.pin_count(), 2);
}

#[test]
fn a_two_sided_chip_turns_a_quarter_and_a_quad_a_diamond() {
    let dip = Mcu::new("dip".into(), "stm32f1".into(), vec![], vec![], vec![pad(1, "A")], vec![pad(2, "B")]);
    assert!(!dip.is_quad_package());
    assert_eq!(RotMode::for_package(&dip), RotMode::Quarter);
    assert_eq!(RotMode::of(&dip), RotMode::Unrotated);
    let mut quad = Mcu::new(
        "qfp".into(),
        "stm32f1".into(),
        vec![pad(1, "A")],
        vec![pad(2, "B")],
        vec![pad(3, "C")],
        vec![],
    );
    assert!(quad.is_quad_package());
    quad.rotated = true;
    assert_eq!(RotMode::of(&quad), RotMode::Diamond);
    assert_eq!(RotMode::Diamond.hint(), DIAMOND_HINT);
    assert_eq!(RotMode::Quarter.hint(), QUARTER_HINT);
    assert_eq!(RotMode::Unrotated.hint(), QUARTER_HINT);
}

/// Four sides of pads, like an LQFP48.
fn stm32f103c8tx() -> Mcu {
    let side = |first: usize| -> Vec<Pin> {
        (first..first + 12).map(|n| pad(n, &format!("P{n}"))).collect()
    };
    Mcu::new(
        "STM32F103C8Tx".into(),
        "stm32f1".into(),
        side(1),
        side(13),
        side(25),
        side(37),
    )
}

/// Twelve balls in a grid, none on an edge list.
fn wlcsp12() -> Mcu {
    let mut mcu = Mcu::new("WLCSP12".into(), "stm32g0".into(), vec![], vec![], vec![], vec![]);
    let cells = (0..12usize)
        .map(|i| GridCell {
            designator: format!("{}{}", ["A", "B", "C"][i / 4], i % 4 + 1),
            pin: pad(i + 1, &format!("PA{i}")),
        })
        .collect();
    mcu.grid = Some(BallGrid { cells });
    mcu
}

/// Pads down two opposite sides only, like a DIP.
fn two_sided() -> Mcu {
    Mcu::new(
        "DIP8".into(),
        "rp2040".into(),
        vec![],
        vec![],
        (1..5).map(|n| pad(n, &format!("L{n}"))).collect(),
        (5..9).map(|n| pad(n, &format!("R{n}"))).collect(),
    )
}

#[test]
fn an_unrotated_grid_is_still_upright() {
    let mcu = wlcsp12();
    assert!(!mcu.rotated, "the fixture starts upright");
    assert_eq!(RotMode::of(&mcu), RotMode::Unrotated);
    assert_eq!(
        RotMode::for_package(&mcu),
        RotMode::Diamond,
        "…but it is a diamond the moment it is switched on"
    );
}

#[test]
fn every_package_has_a_rotation() {
    for mcu in [stm32f103c8tx(), wlcsp12(), two_sided()] {
        assert_ne!(RotMode::for_package(&mcu), RotMode::Unrotated, "{}", mcu.name);
    }
}

#[test]
fn the_hint_matches_the_mode() {
    for mcu in [stm32f103c8tx(), wlcsp12(), two_sided()] {
        let mode = RotMode::for_package(&mcu);
        let hint = mode.hint();
        assert_eq!(hint.contains("45°"), mode == RotMode::Diamond, "{} says: {hint}", mcu.name);
        assert_eq!(hint.contains("90°"), mode == RotMode::Quarter, "{} says: {hint}", mcu.name);
    }
}
