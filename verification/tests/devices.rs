use mcu_module::model::{Mcu, PinGroup};
use mcu_module::modules::{Connection, GenericModuleConfig, ModuleConfig, ModuleKind, ModuleSignal, VirtualModule};
use mcu_module::pins::{Pin, PinFunction};

fn pad(number: usize, name: &str) -> Pin {
    Pin {
        number,
        name: name.to_owned(),
        reserved: false,
        selected_function: PinFunction::Unset,
        available_functions: vec![PinFunction::GpioOutput, PinFunction::UsartTx(0), PinFunction::UsartRx(0)],
        custom_label: String::new(),
        irq: None,
    }
}

fn pico() -> Mcu {
    let left: Vec<Pin> = (0..20).map(|n| pad(n, &format!("GP{n}"))).collect();
    let right: Vec<Pin> = (20..30).map(|n| pad(n, &format!("GP{n}"))).collect();
    Mcu::new("RP2040".to_owned(), "rp2040".to_owned(), Vec::new(), Vec::new(), left, right)
}

fn named(mcu: &Mcu, name: &str) -> Option<Vec<usize>> {
    mcu.groups.iter().find(|g| g.name == name).map(|g| g.pins.iter().copied().collect())
}

fn uart(id: &str, tx: usize, rx: usize) -> VirtualModule {
    VirtualModule {
        id: id.to_owned(),
        kind: ModuleKind::GenericInterfaceUsart,
        name: "USART0".to_owned(),
        instance: 0,
        config: ModuleConfig::Other(GenericModuleConfig { label: String::new() }),
        connections: vec![
            Connection { signal: ModuleSignal::Tx, mcu_pin: tx },
            Connection { signal: ModuleSignal::Rx, mcu_pin: rx },
        ],
    }
}

#[test]
fn a_pad_belongs_to_one_device_at_a_time() {
    let mut mcu = pico();
    mcu.join_group(7, "radar");
    mcu.join_group(8, "radar");
    mcu.join_group(7, "display");
    assert_eq!(named(&mcu, "radar"), Some(vec![8]));
    assert_eq!(named(&mcu, "display"), Some(vec![7]));
}

#[test]
fn the_last_pad_out_takes_the_device_with_it() {
    let mut mcu = pico();
    mcu.join_group(7, "radar");
    mcu.join_group(8, "radar");
    mcu.join_group(7, "");
    assert_eq!(named(&mcu, "radar"), Some(vec![8]));
    mcu.join_group(8, "");
    assert!(mcu.groups.is_empty());
}

#[test]
fn a_device_with_nothing_in_it_yet_survives_the_next_grouping() {
    let mut mcu = pico();
    mcu.new_group("Device 2".into());
    mcu.join_group(7, "Device 1");
    assert!(mcu.groups.iter().any(|g| g.name == "Device 2"));
}

#[test]
fn regrouping_a_pad_into_its_own_device_keeps_it() {
    let mut mcu = pico();
    mcu.join_group(7, "radar");
    mcu.join_group(7, "radar");
    assert_eq!(named(&mcu, "radar"), Some(vec![7]));
}

#[test]
fn renaming_onto_a_taken_name_merges_the_two() {
    let mut mcu = pico();
    mcu.join_group(7, "radar");
    mcu.join_group(8, "sensor");
    mcu.rename_group(1, "radar");
    assert_eq!(mcu.groups.len(), 1);
    assert_eq!(named(&mcu, "radar"), Some(vec![7, 8]));
}

#[test]
fn a_name_typed_in_passing_never_merges() {
    let mut mcu = pico();
    mcu.join_group(7, "display");
    mcu.join_group(8, "disp");
    mcu.set_group_name(1, "display");
    assert_eq!(mcu.groups.len(), 2);
    // Leaving the field merges: the first row answering to the name takes it.
    mcu.rename_group(1, "display");
    assert_eq!(mcu.groups.len(), 1);
    assert_eq!(named(&mcu, "display"), Some(vec![7, 8]));
    // An index past the roster changes nothing.
    mcu.set_group_name(9, "x");
    mcu.rename_group(9, "x");
    assert_eq!(mcu.groups.len(), 1);
}

#[test]
fn a_space_can_be_typed_into_a_name() {
    let mut mcu = pico();
    mcu.join_group(7, "mw");
    mcu.rename_group(0, "mw ");
    assert_eq!(mcu.groups[0].name, "mw ");
}

#[test]
fn a_nameless_device_marks_none_of_its_pads() {
    let mut mcu = pico();
    mcu.join_group(7, "radar");
    assert!(mcu.group_of_pin(7).is_some());
    mcu.rename_group(0, "  ");
    assert_eq!(mcu.groups.len(), 1);
    assert!(mcu.group_of_pin(7).is_none());
}

#[test]
fn a_pad_joins_a_device_whose_name_differs_only_in_padding() {
    let mut mcu = pico();
    mcu.join_group(7, "mw radar");
    mcu.join_group(8, " mw radar ");
    assert_eq!(mcu.groups.len(), 1);
    assert_eq!(named(&mcu, "mw radar"), Some(vec![7, 8]));
}

#[test]
fn a_module_is_in_the_device_holding_any_of_its_pads() {
    let mut mcu = pico();
    let m = uart("usart_1", 4, 5);
    mcu.modules.push(uart("usart_1", 4, 5));
    assert!(mcu.group_of_module(&m).is_none());
    mcu.join_group(m.connections[0].mcu_pin, "radar");
    assert_eq!(mcu.group_of_module(&m).map(|g| g.name.as_str()), Some("radar"));
    mcu.join_group_module(&m, "radar");
    assert_eq!(named(&mcu, "radar").map(|v| v.len()), Some(m.connections.len()));
}

#[test]
fn a_device_outlives_the_module_id_it_was_grouped_through() {
    let mut mcu = pico();
    mcu.modules.push(uart("usart_1", 4, 5));
    let m = uart("usart_1", 4, 5);
    mcu.join_group_module(&m, "radar");
    mcu.remove_module("usart_1");
    assert!(mcu.modules.is_empty());
    mcu.modules.push(uart("usart_2", 4, 5));
    let again = uart("usart_2", 4, 5);
    assert_eq!(mcu.group_of_module(&again).map(|g| g.name.as_str()), Some("radar"));
}

#[test]
fn a_device_is_stored_as_a_set_of_pads() {
    let mut mcu = pico();
    mcu.join_group(8, "mw radar");
    mcu.join_group(7, "mw radar");
    assert_eq!(
        mcu.groups.iter().map(|g| (g.name.clone(), g.pins.iter().copied().collect::<Vec<usize>>())).collect::<Vec<_>>(),
        vec![("mw radar".to_owned(), vec![7, 8])]
    );
    let _ = PinGroup { name: String::new(), pins: Default::default() };
}

#[test]
fn no_pad_is_ever_in_two_devices_across_joins_and_renames() {
    let mut mcu = pico();
    mcu.join_group(1, "radar");
    mcu.join_group(2, "radar");
    mcu.join_group(3, "display");
    mcu.join_group(2, "display");
    mcu.rename_group(1, "radar");
    mcu.join_group(4, "lamp");
    mcu.join_group(4, "radar");
    for n in 0..30usize {
        let holders = mcu.groups.iter().filter(|g| g.pins.contains(&n)).count();
        assert!(holders <= 1, "pad {n} is in {holders} devices");
    }
    assert_eq!(named(&mcu, "radar"), Some(vec![1, 2, 3, 4]));
}
