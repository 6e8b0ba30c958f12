use mcu_module::model::{BallGrid, GridCell, Mcu};
use mcu_module::pins::{Pin, PinFunction};
use mcu_module::rotate::RotMode;

fn pad(number: usize, name: &str) -> Pin {
    Pin {
        number,
        name: name.to_owned(),
        reserved: false,
        selected_function: PinFunction::Unset,
        available_functions: vec![PinFunction::GpioOutput],
        custom_label: String::new(),
        irq: None,
    }
}

/// Pins 1..=48 named PA0..PA15, PB0..PB15, PC0..PC15 around four sides.
fn lqfp() -> Mcu {
    let names: Vec<String> = ["PA", "PB", "PC"]
        .iter()
        .flat_map(|p| (0..16).map(move |i| format!("{p}{i}")))
        .collect();
    let pins: Vec<Pin> = names.iter().enumerate().map(|(i, n)| pad(i + 1, n)).collect();
    let top = pins[0..12].iter().map(|p| pad(p.number, &p.name)).collect();
    let bottom = pins[12..24].iter().map(|p| pad(p.number, &p.name)).collect();
    let left = pins[24..36].iter().map(|p| pad(p.number, &p.name)).collect();
    let right = pins[36..48].iter().map(|p| pad(p.number, &p.name)).collect();
    Mcu::new("LQFP48".to_owned(), "stm32f1".to_owned(), top, bottom, left, right)
}

fn name_of(mcu: &Mcu, n: usize) -> String {
    mcu.find_pin(n).map(|p| p.name.clone()).unwrap_or_default()
}

#[test]
fn name_matches_any_part_case_insensitively() {
    let mut mcu = lqfp();
    mcu.pin_search = "pb1".to_owned();
    let hits = mcu.pin_search_hits();
    let names: Vec<String> = hits.iter().map(|n| name_of(&mcu, *n)).collect();
    assert!(names.contains(&"PB1".to_owned()), "{names:?}");
    assert!(names.contains(&"PB12".to_owned()), "{names:?}");
    assert!(!names.iter().any(|n| n.starts_with("PA")), "{names:?}");
    mcu.pin_search = "PB1".to_owned();
    assert_eq!(mcu.pin_search_hits(), hits);
}

#[test]
fn ball_designator_is_searchable() {
    let mut mcu = lqfp();
    mcu.grid = Some(BallGrid {
        cells: vec![
            GridCell { designator: "N13".to_owned(), pin: pad(900, "PH12") },
            GridCell { designator: "M12".to_owned(), pin: pad(901, "PH11") },
        ],
    });
    mcu.pin_search = "N13".to_owned();
    let hits = mcu.pin_search_hits();
    assert!(hits.contains(&900), "{hits:?}");
    assert!(!hits.contains(&901), "{hits:?}");
    mcu.pin_search = "n13".to_owned();
    assert!(mcu.pin_search_hits().contains(&900));
    mcu.pin_search = "ph12".to_owned();
    assert!(mcu.pin_search_hits().contains(&900));
}

#[test]
fn number_matches_exactly() {
    let mut mcu = lqfp();
    mcu.pin_search = "13".to_owned();
    let hits = mcu.pin_search_hits();
    assert!(hits.contains(&13));
    assert!(!hits.contains(&1) && !hits.contains(&31), "{hits:?}");
}

#[test]
fn no_query_and_no_match_both_dim_nothing() {
    let mut mcu = lqfp();
    assert!(mcu.pin_search_highlight().is_none());
    mcu.pin_search = "   ".to_owned();
    assert!(mcu.pin_search_highlight().is_none());
    mcu.pin_search = "zzz".to_owned();
    assert!(mcu.pin_search_hits().is_empty());
    assert!(mcu.pin_search_highlight().is_none());
    mcu.pin_search = "pa5".to_owned();
    assert!(mcu.pin_search_highlight().is_some());
}

#[test]
fn a_padded_query_is_trimmed() {
    let mut mcu = lqfp();
    mcu.pin_search = "  pc15 ".to_owned();
    let hits: Vec<usize> = mcu.pin_search_hits().into_iter().collect();
    assert_eq!(hits, vec![48]);
}

#[test]
fn a_ball_grid_rotates_into_a_diamond() {
    let mut mcu = Mcu::new("BGA".into(), "stm32h7".into(), vec![], vec![], vec![], vec![]);
    mcu.grid = Some(BallGrid { cells: vec![GridCell { designator: "A1".to_owned(), pin: pad(1, "PA0") }] });
    assert!(!mcu.is_quad_package());
    assert!(mcu.has_inner_pins());
    assert_eq!(RotMode::for_package(&mcu), RotMode::Diamond);
    assert_eq!(RotMode::of(&mcu), RotMode::Unrotated);
    mcu.rotated = true;
    assert_eq!(RotMode::of(&mcu), RotMode::Diamond);
    assert_eq!(mcu.find_pin(1).map(|p| p.name.as_str()), Some("PA0"));
}
