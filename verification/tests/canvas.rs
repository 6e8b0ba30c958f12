use mcu_module::canvas::{
    custom_module_color, dominant_side, f1_moves_as_a_group, group_color, legend_accent, legend_grey,
    legend_grey_off, module_owned_pins, parity_label, rmt_source_hz, stop_label, wire_lit,
    BoxShape, Side,
};
use mcu_module::model::{Mcu, PinGroup};
use mcu_module::modules::{
    Connection, CustomModuleConfig, GenericModuleConfig, ModuleConfig, ModuleKind, ModuleSignal,
    Parity, StopBits, VirtualModule,
};
use mcu_module::pins::{Pin, PinFunction};

fn pad(number: usize, name: &str) -> Pin {
    Pin {
        number,
        name: name.to_owned(),
        reserved: false,
        selected_function: PinFunction::Unset,
        available_functions: vec![PinFunction::GpioOutput],
        custom_label: String::new(),
        irq: None,
    }
}

fn pico() -> Mcu {
    let left: Vec<Pin> = (0..10).map(|n| pad(n, &format!("GP{n}"))).collect();
    let right: Vec<Pin> = (10..20).map(|n| pad(n, &format!("GP{n}"))).collect();
    Mcu::new("RP2040".to_owned(), "rp2040".to_owned(), Vec::new(), Vec::new(), left, right)
}

#[test]
fn the_palette_is_exactly_two_colours() {
    assert_ne!(legend_grey(), legend_accent());
    assert_ne!(legend_grey_off(), legend_accent());
    assert_ne!(legend_grey(), legend_grey_off());
}

#[test]
fn a_wire_is_lit_by_the_pad_it_ends_on_not_by_its_box() {
    let mut mcu = pico();
    mcu.join_group(7, "radar");
    mcu.join_group(8, "display");
    assert_eq!(wire_lit(Some("radar"), &mcu, 7), Some("radar"));
    assert_eq!(wire_lit(Some("radar"), &mcu, 8), None);
    assert_eq!(wire_lit(None, &mcu, 7), None);
}

#[test]
fn a_wire_is_lit_through_a_padded_spelling() {
    let mut mcu = pico();
    mcu.groups = vec![PinGroup { name: "radar ".into(), pins: [7].into_iter().collect() }];
    assert_eq!(wire_lit(Some("radar"), &mcu, 7), Some("radar"));
}

#[test]
fn a_nameless_device_lights_no_wire() {
    let mut mcu = pico();
    mcu.groups = vec![PinGroup { name: "  ".into(), pins: [7].into_iter().collect() }];
    assert_eq!(wire_lit(Some(""), &mcu, 7), None);
}

#[test]
fn every_kind_lands_in_a_family() {
    assert_eq!(BoxShape::of(ModuleKind::GenericInterfaceUsart), BoxShape::Serial);
    assert_eq!(BoxShape::of(ModuleKind::Custom), BoxShape::Custom);
    assert!(BoxShape::Serial.is_square() || BoxShape::Serial.is_rect());
    assert!(BoxShape::Custom.is_square());
    assert!(!BoxShape::Memory.is_square());
}

#[test]
fn settings_are_labelled_as_the_panel_shows_them() {
    assert_eq!(parity_label(Parity::NoParity), "None");
    assert_eq!(parity_label(Parity::Even), "Even");
    assert_eq!(parity_label(Parity::Odd), "Odd");
    assert_eq!(stop_label(StopBits::One), "1");
    assert_eq!(stop_label(StopBits::Two), "2");
}

#[test]
fn the_rmt_clock_follows_the_family() {
    assert_eq!(rmt_source_hz("esp32h2"), 32_000_000);
    assert_eq!(rmt_source_hz("esp32c3"), 80_000_000);
    assert_eq!(rmt_source_hz(""), 80_000_000);
}

#[test]
fn only_an_f1_bus_moves_as_a_group() {
    assert!(f1_moves_as_a_group("stm32f1", 2));
    assert!(!f1_moves_as_a_group("stm32f1", 1));
    assert!(!f1_moves_as_a_group("stm32f4", 2));
}

#[test]
fn a_device_colour_ignores_padding_but_not_the_name() {
    assert_eq!(group_color("radar"), group_color("  radar "));
    let _ = custom_module_color();
}

fn custom(id: &str, pins: Vec<usize>) -> VirtualModule {
    VirtualModule {
        id: id.to_owned(),
        kind: ModuleKind::Custom,
        name: "Custom1".to_owned(),
        instance: 1,
        config: ModuleConfig::Custom(CustomModuleConfig {
            name: "sensor".to_owned(),
            struct_name: String::new(),
            pins,
            revision: 0,
            applied_pins: Vec::new(),
            applied_sig: String::new(),
        }),
        connections: Vec::new(),
    }
}

#[test]
fn custom_and_timer_modules_own_their_pads_names() {
    let mut mcu = pico();
    mcu.modules.push(custom("custom_1", vec![3, 4]));
    mcu.modules.push(VirtualModule {
        id: "tim_2".to_owned(),
        kind: ModuleKind::GenericInterfaceTimer,
        name: "TIM2".to_owned(),
        instance: 2,
        config: ModuleConfig::Other(GenericModuleConfig { label: String::new() }),
        connections: vec![Connection { signal: ModuleSignal::PwmChannel(1), mcu_pin: 9 }],
    });
    mcu.modules.push(VirtualModule {
        id: "usart_3".to_owned(),
        kind: ModuleKind::GenericInterfaceUsart,
        name: "USART1".to_owned(),
        instance: 1,
        config: ModuleConfig::Other(GenericModuleConfig { label: String::new() }),
        connections: vec![Connection { signal: ModuleSignal::Tx, mcu_pin: 12 }],
    });
    let owned = module_owned_pins(&mcu);
    let mut got: Vec<usize> = owned.into_iter().collect();
    got.sort();
    assert_eq!(got, vec![3, 4, 9]);
}

#[test]
fn a_box_faces_the_side_most_of_its_pins_are_on() {
    assert_eq!(dominant_side(&[Side::Left, Side::Left, Side::Top]), Side::Left);
    assert_eq!(dominant_side(&[Side::Top, Side::Bottom, Side::Bottom]), Side::Bottom);
}

#[test]
fn a_tied_vote_goes_to_the_first_connections_side_and_no_vote_to_the_right() {
    assert_eq!(dominant_side(&[Side::Left, Side::Top]), Side::Left);
    assert_eq!(dominant_side(&[Side::Top, Side::Left, Side::Left, Side::Top]), Side::Top);
    assert_eq!(dominant_side(&[Side::Bottom, Side::Left, Side::Top, Side::Left, Side::Top]), Side::Left);
    assert_eq!(dominant_side(&[]), Side::Right);
}

#[test]
fn a_click_on_a_box_selects_expands_and_goes_to_it() {
    let mut mcu = Mcu::new("c".into(), "stm32f1".into(), vec![], vec![], vec![], vec![]);
    mcu.click_module("usart_1");
    assert_eq!(mcu.selected_module.as_deref(), Some("usart_1"));
    assert_eq!(mcu.expand_module.as_deref(), Some("usart_1"));
    assert_eq!(mcu.module_goto.as_deref(), Some("usart_1"));
    mcu.click_module("spi_2");
    assert_eq!(mcu.selected_module.as_deref(), Some("spi_2"));
    mcu.click_module("spi_2");
    assert_eq!(mcu.selected_module, None);
    assert_eq!(mcu.expand_module.as_deref(), Some("spi_2"));
}
