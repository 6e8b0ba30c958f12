use mcu_module::model::Mcu;
use mcu_module::modules::{ModuleConfig, ModuleKind, ModuleSignal};
use mcu_module::pins::{Pin, PinFunction};
use mcu_module::reconcile::module_signal_of;

/// A pad that can be a GPIO output or UART0/UART1 TX/RX, like an RP GPIO.
fn pad(number: usize) -> Pin {
    Pin {
        number,
        name: format!("GP{number}"),
        reserved: false,
        selected_function: PinFunction::Unset,
        available_functions: vec![
            PinFunction::GpioOutput,
            PinFunction::UsartTx(0),
            PinFunction::UsartRx(0),
            PinFunction::UsartTx(1),
            PinFunction::UsartRx(1),
            PinFunction::SpiSck(0),
        ],
        custom_label: String::new(),
        irq: None,
    }
}

fn pico() -> Mcu {
    let left: Vec<Pin> = (0..15).map(pad).collect();
    let right: Vec<Pin> = (15..30).map(pad).collect();
    Mcu::new("RP2040".to_owned(), "rp2040".to_owned(), Vec::new(), Vec::new(), left, right)
}

fn set(mcu: &mut Mcu, n: usize, f: PinFunction) {
    let names = [(format!("GP{n}"), f)];
    // Write one pad without resetting the others.
    let mut all: Vec<(String, PinFunction)> = mcu
        .all_pin_functions()
        .into_iter()
        .filter(|r| r.2 != PinFunction::Unset && r.0 != n)
        .map(|r| (r.1, r.2))
        .collect();
    all.extend(names);
    mcu.apply_saved_pins(&all);
}

fn ids(mcu: &Mcu) -> Vec<String> {
    mcu.modules.iter().map(|m| m.id.clone()).collect()
}

fn assert_distinct(mcu: &Mcu) {
    let got = ids(mcu);
    let mut u = got.clone();
    u.sort();
    u.dedup();
    assert_eq!(u.len(), got.len(), "{got:?}");
}

fn pin_of(mcu: &Mcu, sig: ModuleSignal) -> usize {
    mcu.modules[0].connections.iter().find(|c| c.signal == sig).map(|c| c.mcu_pin).expect("wired")
}

fn named(mcu: &Mcu, name: &str) -> Option<Vec<usize>> {
    mcu.groups.iter().find(|g| g.name == name).map(|g| g.pins.iter().copied().collect())
}

#[test]
fn an_uncontested_id_keeps_the_number_it_always_had() {
    let mut mcu = pico();
    assert!(mcu.add_module(
        ModuleKind::GenericInterfaceUsart,
        Some((0, vec![(ModuleSignal::Tx, 0), (ModuleSignal::Rx, 1)])),
    ));
    assert_eq!(mcu.modules[0].id, "usart_1");
    assert!(mcu.add_module(ModuleKind::GenericInterfaceSpi, Some((0, vec![(ModuleSignal::Sck, 2)]))));
    assert_eq!(mcu.modules[1].id, "spi_2");
    assert_eq!(mcu.modules[0].name, "USART0");
    assert_eq!(mcu.modules[0].connections.len(), 2);
    assert!(matches!(mcu.modules[0].config, ModuleConfig::Usart(ref c) if c.baud == 115200));
}

#[test]
fn a_re_wired_module_does_not_reuse_a_live_id() {
    let mut mcu = pico();
    set(&mut mcu, 0, PinFunction::UsartTx(0));
    set(&mut mcu, 1, PinFunction::UsartRx(0));
    set(&mut mcu, 2, PinFunction::UsartTx(1));
    set(&mut mcu, 3, PinFunction::UsartRx(1));
    mcu.reconcile_modules();
    assert_eq!(mcu.modules.len(), 2);
    assert_distinct(&mcu);
    set(&mut mcu, 0, PinFunction::Unset);
    set(&mut mcu, 1, PinFunction::Unset);
    mcu.reconcile_modules();
    assert_eq!(mcu.modules.len(), 1);
    set(&mut mcu, 0, PinFunction::UsartTx(0));
    set(&mut mcu, 1, PinFunction::UsartRx(0));
    mcu.reconcile_modules();
    assert_eq!(mcu.modules.len(), 2);
    assert_distinct(&mcu);
}

#[test]
fn wires_are_sorted_by_signal_and_reconciling_twice_changes_nothing() {
    let mut mcu = pico();
    set(&mut mcu, 5, PinFunction::UsartRx(0));
    set(&mut mcu, 9, PinFunction::UsartTx(0));
    mcu.reconcile_modules();
    let wires: Vec<(ModuleSignal, usize)> = mcu.modules[0].connections.iter().map(|c| (c.signal, c.mcu_pin)).collect();
    assert_eq!(wires, vec![(ModuleSignal::Tx, 9), (ModuleSignal::Rx, 5)]);
    let before = ids(&mcu);
    mcu.reconcile_modules();
    assert_eq!(ids(&mcu), before);
    assert_eq!(mcu.modules[0].connections.len(), 2);
}

#[test]
fn reset_pins_takes_the_derived_modules_with_them() {
    let mut mcu = pico();
    set(&mut mcu, 0, PinFunction::UsartTx(0));
    set(&mut mcu, 4, PinFunction::GpioOutput);
    mcu.reconcile_modules();
    assert_eq!(mcu.configured_pin_count(), 2);
    mcu.reset_all_pins();
    assert_eq!(mcu.configured_pin_count(), 0);
    mcu.reconcile_modules();
    assert!(mcu.modules.is_empty());
}

#[test]
fn a_signal_maps_to_its_module() {
    assert_eq!(
        module_signal_of(&PinFunction::UsartTx(2)),
        Some((ModuleKind::GenericInterfaceUsart, 2, ModuleSignal::Tx))
    );
    assert_eq!(
        module_signal_of(&PinFunction::TimerPwm { timer: 3, channel: 2 }),
        Some((ModuleKind::GenericInterfaceTimer, 3, ModuleSignal::PwmChannel(2)))
    );
    assert_eq!(module_signal_of(&PinFunction::GpioOutput), None);
    assert_eq!(ModuleSignal::Tx.pin_function(0), PinFunction::UsartTx(0));
}

#[test]
fn the_module_and_its_settings_come_along() {
    let mut mcu = pico();
    assert!(mcu.add_module_wired(0, &[(ModuleSignal::Tx, 3), (ModuleSignal::Rx, 4)]));
    if let ModuleConfig::Usart(c) = &mut mcu.modules[0].config {
        c.baud = 9600;
    }
    let tx = pin_of(&mcu, ModuleSignal::Tx);
    let rx = pin_of(&mcu, ModuleSignal::Rx);
    assert_eq!((tx, rx), (3, 4));
    assert!(mcu.move_pin_function(tx, 20));
    assert_eq!(mcu.modules.len(), 1);
    assert_eq!(pin_of(&mcu, ModuleSignal::Tx), 20);
    assert_eq!(pin_of(&mcu, ModuleSignal::Rx), rx);
    assert_eq!(mcu.modules[0].connections.iter().filter(|c| c.signal == ModuleSignal::Tx).count(), 1);
    assert_eq!(mcu.find_pin(tx).unwrap().selected_function, PinFunction::Unset);
    match &mcu.modules[0].config {
        ModuleConfig::Usart(c) => assert_eq!(c.baud, 9600),
        _ => panic!("still a USART"),
    }
}

#[test]
fn an_impossible_move_is_refused_whole() {
    let mut mcu = pico();
    assert!(mcu.add_module_wired(0, &[(ModuleSignal::Tx, 3), (ModuleSignal::Rx, 4)]));
    mcu.left_pins[7].available_functions = vec![PinFunction::GpioOutput];
    let before: Vec<(usize, String, PinFunction)> = mcu.all_pin_functions();
    assert!(!mcu.move_pin_function(3, 7));
    assert_eq!(mcu.all_pin_functions(), before);
    assert!(!mcu.move_pin_function(3, 3));
    assert!(!mcu.move_pin_function(10, 11), "nothing to move");
    assert!(!mcu.move_pin_function(3, 4), "the destination carries another function");
}

#[test]
fn a_pad_that_cannot_carry_the_signal_is_refused() {
    let mut mcu = pico();
    mcu.left_pins[6].available_functions = vec![PinFunction::GpioOutput];
    assert!(!mcu.add_module_wired(0, &[(ModuleSignal::Tx, 6)]));
    assert_eq!(mcu.find_pin(6).unwrap().selected_function, PinFunction::Unset);
    assert!(mcu.modules.is_empty());
    assert!(!mcu.add_module_wired(0, &[]));
}

#[test]
fn one_bad_pad_rolls_the_whole_set_back() {
    let mut mcu = pico();
    mcu.left_pins[6].available_functions = vec![PinFunction::GpioOutput];
    assert!(!mcu.add_module_wired(0, &[(ModuleSignal::Tx, 5), (ModuleSignal::Rx, 6)]));
    assert_eq!(mcu.find_pin(5).unwrap().selected_function, PinFunction::Unset);
    assert!(mcu.modules.is_empty());
}

#[test]
fn a_device_follows_its_pad_across_a_move() {
    let mut mcu = pico();
    assert!(mcu.add_module_wired(0, &[(ModuleSignal::Tx, 3), (ModuleSignal::Rx, 4)]));
    mcu.join_group(3, "radar");
    assert!(mcu.move_pin_function(3, 12));
    assert_eq!(named(&mcu, "radar"), Some(vec![12]));
}

#[test]
fn a_move_never_leaves_a_pad_in_two_devices() {
    let mut mcu = pico();
    set(&mut mcu, 1, PinFunction::GpioOutput);
    mcu.join_group(1, "radar");
    mcu.join_group(2, "display");
    mcu.join_group(3, "display");
    assert!(mcu.move_pin_function(1, 2));
    let holders: Vec<&str> = mcu.groups.iter().filter(|g| g.pins.contains(&2)).map(|g| g.name.as_str()).collect();
    assert_eq!(holders, ["radar"]);
    assert_eq!(named(&mcu, "radar"), Some(vec![2]));
    assert_eq!(named(&mcu, "display"), Some(vec![3]));
}

#[test]
fn a_move_onto_a_devices_last_pad_retires_that_device() {
    let mut mcu = pico();
    set(&mut mcu, 1, PinFunction::GpioOutput);
    mcu.join_group(1, "radar");
    mcu.join_group(2, "display");
    mcu.new_group("unfilled".into());
    assert!(mcu.move_pin_function(1, 2));
    assert!(named(&mcu, "display").is_none());
    assert_eq!(named(&mcu, "radar"), Some(vec![2]));
    assert!(mcu.groups.iter().any(|g| g.name == "unfilled"));
}

#[test]
fn a_click_assigns_its_partners_and_a_second_click_clears_them() {
    let mut mcu = pico();
    mcu.show_info = Some(PinFunction::GpioOutput);
    let r = mcu.apply_pin_function(10, PinFunction::UsartTx(0), &[(PinFunction::UsartRx(0), 11)]);
    assert_eq!(r, Some((10, "GP10".to_owned(), PinFunction::UsartTx(0))));
    assert_eq!(mcu.show_info, None);
    assert_eq!(mcu.find_pin(11).unwrap().selected_function, PinFunction::UsartRx(0));
    assert_eq!(mcu.modules.len(), 1);
    assert_eq!(mcu.modules[0].connections.len(), 2);
    assert_eq!(mcu.configured_pin_count(), 2);

    mcu.left_pins[10].custom_label = "debug".to_owned();
    let r = mcu.apply_pin_function(10, PinFunction::Unset, &[]);
    assert_eq!(r, Some((10, "GP10".to_owned(), PinFunction::Unset)));
    assert_eq!(mcu.find_pin(10).unwrap().custom_label, "", "a freed pin starts clean");
    assert_eq!(mcu.find_pin(11).unwrap().selected_function, PinFunction::Unset, "the RX went too");
    assert!(mcu.modules.is_empty());
    assert_eq!(mcu.apply_pin_function(99, PinFunction::GpioOutput, &[]), None);
}

#[test]
fn partners_land_where_they_were_picked() {
    let mut mcu = pico();
    mcu.auto_assign_partners(&[(PinFunction::UsartRx(1), 4), (PinFunction::UsartTx(1), 99)]);
    assert_eq!(mcu.find_pin(4).unwrap().selected_function, PinFunction::UsartRx(1));
    assert_eq!(mcu.configured_pin_count(), 1);
}

#[test]
fn removing_a_custom_module_does_not_free_a_live_id() {
    let mut mcu = pico();
    for _ in 0..3 {
        assert!(mcu.add_module(ModuleKind::Custom, None));
    }
    assert_distinct(&mcu);

    // Drop the FIRST, so the count no longer matches the highest number.
    let first = mcu.modules[0].id.clone();
    mcu.modules.retain(|m| m.id != first);
    assert!(mcu.add_module(ModuleKind::Custom, None));
    assert_distinct(&mcu);
}

#[test]
fn a_custom_module_joins_empty_and_numbered_past_the_highest() {
    let mut mcu = pico();
    assert!(mcu.add_module(ModuleKind::Custom, None));
    assert!(mcu.add_module(ModuleKind::Custom, None));
    assert_eq!(ids(&mcu), vec!["custom_1".to_owned(), "custom_2".to_owned()]);
    assert_eq!(mcu.modules[1].name, "Custom2");
    assert_eq!(mcu.modules[1].instance, 2);
    assert!(mcu.modules[1].connections.is_empty());
    mcu.modules.remove(0);
    assert!(mcu.add_module(ModuleKind::Custom, None));
    assert_eq!(mcu.modules[1].name, "Custom3");
    assert_eq!(mcu.modules[1].id, "custom_3");
}

#[test]
fn a_kind_is_wired_as_picked_or_refused_without_a_pick() {
    let mut mcu = pico();
    let before = mcu.all_pin_functions();
    assert!(!mcu.add_module(ModuleKind::GenericInterfaceUsart, None));
    assert!(mcu.modules.is_empty());
    assert_eq!(mcu.all_pin_functions(), before);
    assert!(mcu.add_module(
        ModuleKind::GenericInterfaceUsart,
        Some((1, vec![(ModuleSignal::Tx, 4), (ModuleSignal::Rx, 5)])),
    ));
    assert_eq!(ids(&mcu), vec!["usart_1".to_owned()]);
    assert_eq!(pin_of(&mcu, ModuleSignal::Tx), 4);
    assert_eq!(mcu.find_pin(5).unwrap().selected_function, PinFunction::UsartRx(1));
}

#[test]
fn a_second_can_module_is_refused() {
    let mut mcu = pico();
    assert!(mcu.add_module(ModuleKind::Custom, None));
    mcu.modules[0].kind = ModuleKind::GenericInterfaceCan;
    let before = ids(&mcu);
    assert!(!mcu.add_module(ModuleKind::GenericInterfaceCan, Some((0, vec![(ModuleSignal::Tx, 4)]))));
    assert_eq!(ids(&mcu), before);
    assert_eq!(mcu.find_pin(4).unwrap().selected_function, PinFunction::Unset);
}

#[test]
fn can_add_module_always_agrees_with_add_module() {
    let base = pico();
    let picks: Vec<Option<(u8, Vec<(ModuleSignal, usize)>)>> = vec![
        None,
        Some((0, vec![(ModuleSignal::Tx, 0), (ModuleSignal::Rx, 1)])),
        Some((0, vec![])),
    ];
    for kind in [ModuleKind::GenericInterfaceUsart, ModuleKind::Custom, ModuleKind::GenericInterfaceCan] {
        for pick in &picks {
            let mut mcu = Mcu::new("RP2040".into(), "rp2040".into(), vec![], vec![], base.left_pins.iter().map(|p| pad(p.number)).collect(), vec![]);
            let exists = matches!(pick, Some((_, c)) if !c.is_empty());
            let promised = mcu.can_add_module(kind, exists);
            assert_eq!(mcu.add_module(kind, pick.clone()), promised, "{kind:?} {pick:?}");
        }
    }
}

#[test]
fn the_wiring_preview_names_the_pads_it_would_take() {
    let mcu = pico();
    assert_eq!(
        mcu.auto_wiring_summary(
            ModuleKind::GenericInterfaceUsart,
            Some(&[(ModuleSignal::Tx, 4), (ModuleSignal::Rx, 99), (ModuleSignal::Rx, 5)])
        ),
        Some("GP4 / GP5".to_owned())
    );
    assert_eq!(mcu.auto_wiring_summary(ModuleKind::Custom, Some(&[(ModuleSignal::Tx, 4)])), None);
    assert_eq!(mcu.auto_wiring_summary(ModuleKind::GenericInterfaceUsart, None), None);
    assert_eq!(mcu.auto_wiring_summary(ModuleKind::GenericInterfaceUsart, Some(&[(ModuleSignal::Tx, 99)])), None);
    assert!(mcu.supports_module(ModuleKind::Custom, false, false));
    assert!(!mcu.supports_module(ModuleKind::GenericInterfaceUsb, false, true));
    assert!(mcu.supports_module(ModuleKind::GenericInterfaceUsb, true, true));
}
