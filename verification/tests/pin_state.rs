use mcu_module::model::Mcu;
use mcu_module::modules::{Connection, GenericModuleConfig, ModuleConfig, ModuleKind, ModuleSignal, VirtualModule};
use mcu_module::pins::{partner_functions, Pin, PinFunction};
use mcu_module::undo::MODULE_UNDO_CAP;

fn pad(number: usize, name: &str) -> Pin {
    Pin {
        number,
        name: name.to_owned(),
        reserved: false,
        selected_function: PinFunction::Unset,
        available_functions: vec![PinFunction::GpioOutput],
        custom_label: String::new(),
        irq: None,
    }
}

fn power(number: usize, name: &str) -> Pin {
    Pin { reserved: true, ..pad(number, name) }
}

fn chip() -> Mcu {
    Mcu::new(
        "chip".into(),
        "stm32f1".into(),
        vec![pad(1, "PA0"), pad(2, "PA1"), power(3, "VDD")],
        vec![pad(4, "PA2"), pad(5, "PA3")],
        vec![pad(6, "PB0")],
        vec![pad(7, "PB1")],
    )
}

fn function_of(mcu: &Mcu, n: usize) -> PinFunction {
    mcu.find_pin(n).unwrap().selected_function
}

fn uart(id: &str, tx: usize, rx: usize) -> VirtualModule {
    VirtualModule {
        id: id.to_owned(),
        kind: ModuleKind::GenericInterfaceUsart,
        name: "USART1".to_owned(),
        instance: 1,
        config: ModuleConfig::Other(GenericModuleConfig { label: String::new() }),
        connections: vec![
            Connection { signal: ModuleSignal::Tx, mcu_pin: tx },
            Connection { signal: ModuleSignal::Rx, mcu_pin: rx },
        ],
    }
}

#[test]
fn the_count_is_what_reset_actually_clears() {
    let mut mcu = chip();
    mcu.top_pins[1].available_functions.push(PinFunction::GpioInput);
    for p in mcu.bottom_pins.iter_mut() {
        p.available_functions.extend([PinFunction::UsartTx(1), PinFunction::UsartRx(1)]);
    }
    assert_eq!(mcu.configured_pin_count(), 0, "a fresh chip has none");

    mcu.apply_pin_function(1, PinFunction::GpioOutput, &[]);
    mcu.apply_pin_function(2, PinFunction::GpioInput, &[]);
    assert_eq!(mcu.configured_pin_count(), 2);

    // A module wires several pins at once — all of them count.
    assert!(mcu.add_module(
        ModuleKind::GenericInterfaceUsart,
        Some((1, vec![(ModuleSignal::Tx, 4), (ModuleSignal::Rx, 5)])),
    ));
    let with_module = mcu.configured_pin_count();
    assert!(with_module > 2, "the USART's pins count too: {with_module}");

    mcu.selected_pin = Some(1);
    mcu.reset_all_pins();
    assert_eq!(mcu.configured_pin_count(), 0);
    assert_eq!(mcu.selected_pin, None);
    assert!(mcu
        .iter_all_pins()
        .iter()
        .all(|p| p.reserved || p.selected_function == PinFunction::Unset));
    // And the modules go with the pins they were wired to.
    mcu.reconcile_modules();
    assert!(mcu.modules.is_empty(), "{:?}", mcu.modules.len());
}

#[test]
fn a_reserved_pad_is_never_counted_or_reset() {
    let mut mcu = chip();
    mcu.top_pins[2].selected_function = PinFunction::Mco;
    assert_eq!(mcu.configured_pin_count(), 0);
    mcu.reset_all_pins();
    assert_eq!(function_of(&mcu, 3), PinFunction::Mco);
}

#[test]
fn saved_pins_land_by_name_and_unknown_names_are_skipped() {
    let mut mcu = chip();
    mcu.find_pin(1).unwrap();
    mcu.top_pins[0].selected_function = PinFunction::GpioInput;
    mcu.apply_saved_pins(&[
        ("PB1".to_owned(), PinFunction::UsartTx(1)),
        ("PZ9".to_owned(), PinFunction::GpioOutput),
        ("VDD".to_owned(), PinFunction::GpioOutput),
    ]);
    assert_eq!(function_of(&mcu, 7), PinFunction::UsartTx(1));
    assert_eq!(function_of(&mcu, 1), PinFunction::Unset, "reset first");
    assert_eq!(function_of(&mcu, 3), PinFunction::Unset, "a reserved pad takes nothing");
    mcu.apply_saved_pin_labels(&[("PB1".to_owned(), "debug".to_owned()), ("nope".to_owned(), "x".to_owned())]);
    assert_eq!(mcu.find_pin(7).unwrap().custom_label, "debug");
}

#[test]
fn every_assignable_pin_is_listed_in_order() {
    let mut mcu = chip();
    mcu.apply_saved_pins(&[("PA2".to_owned(), PinFunction::GpioOutput)]);
    let all = mcu.all_pin_functions();
    let numbers: Vec<usize> = all.iter().map(|r| r.0).collect();
    assert_eq!(numbers, vec![1, 2, 4, 5, 6, 7]);
    assert_eq!(all[2], (4, "PA2".to_owned(), PinFunction::GpioOutput));
}

#[test]
fn deselecting_a_tx_clears_its_rx() {
    let mut mcu = chip();
    mcu.apply_saved_pins(&[
        ("PA0".to_owned(), PinFunction::UsartTx(1)),
        ("PA1".to_owned(), PinFunction::UsartRx(1)),
        ("PA2".to_owned(), PinFunction::UsartRx(2)),
    ]);
    mcu.deselect_partners(1, &PinFunction::UsartTx(1));
    assert_eq!(function_of(&mcu, 2), PinFunction::Unset);
    assert_eq!(function_of(&mcu, 4), PinFunction::UsartRx(2));
    assert_eq!(function_of(&mcu, 1), PinFunction::UsartTx(1), "the source pad is the caller's");
    assert_eq!(partner_functions(&PinFunction::SpiSck(1)), vec![PinFunction::SpiMiso(1), PinFunction::SpiMosi(1)]);
    assert!(partner_functions(&PinFunction::GpioOutput).is_empty());
}

#[test]
fn removing_a_module_resets_its_pads() {
    let mut mcu = chip();
    mcu.apply_saved_pins(&[("PA2".to_owned(), PinFunction::UsartTx(1)), ("PA3".to_owned(), PinFunction::UsartRx(1))]);
    mcu.modules.push(uart("usart_1", 4, 5));
    mcu.modules.push(uart("usart_2", 6, 7));
    mcu.remove_module("usart_1");
    assert_eq!(mcu.modules.len(), 1);
    assert_eq!(mcu.modules[0].id, "usart_2");
    assert_eq!(function_of(&mcu, 4), PinFunction::Unset);
    assert_eq!(function_of(&mcu, 5), PinFunction::Unset);
    mcu.remove_module("nothing");
    assert_eq!(mcu.modules.len(), 1);
}

#[test]
fn a_goto_is_asked_only_for_a_configured_pin() {
    let mut mcu = chip();
    mcu.request_pin_goto(1);
    assert_eq!(mcu.pin_goto, None);
    mcu.apply_saved_pins(&[("PA0".to_owned(), PinFunction::GpioOutput)]);
    mcu.request_pin_goto(1);
    assert_eq!(mcu.pin_goto, Some(1));
    mcu.request_pin_goto(99);
    assert_eq!(mcu.pin_goto, Some(1));
}

#[test]
fn undo_reverts_the_last_add() {
    let mut mcu = chip();
    assert!(!mcu.can_undo_modules());
    assert_eq!(mcu.undo_modules(), None);
    mcu.push_module_undo("Add USART1".to_owned());
    mcu.apply_saved_pins(&[("PA2".to_owned(), PinFunction::UsartTx(1))]);
    mcu.modules.push(uart("usart_1", 4, 5));
    mcu.module_remove_confirm = Some("usart_1".to_owned());
    assert_eq!(mcu.last_module_undo_label(), Some("Add USART1"));
    assert_eq!(mcu.undo_modules(), Some("Add USART1".to_owned()));
    assert!(mcu.modules.is_empty());
    assert_eq!(function_of(&mcu, 4), PinFunction::Unset);
    assert_eq!(mcu.module_remove_confirm, None);
    assert!(!mcu.can_undo_modules());
}

#[test]
fn the_undo_stack_is_capped() {
    let mut mcu = chip();
    for i in 0..(MODULE_UNDO_CAP + 5) {
        mcu.push_module_undo(format!("step {i}"));
    }
    assert_eq!(mcu.module_undo.len(), MODULE_UNDO_CAP);
    assert_eq!(mcu.module_undo[0].label, "step 5");
    mcu.discard_last_module_undo();
    assert_eq!(mcu.module_undo.len(), MODULE_UNDO_CAP - 1);
    assert_eq!(mcu.last_module_undo_label(), Some("step 33"));
}

#[test]
fn every_pad_is_listed_in_side_order() {
    let mcu = chip();
    let numbers: Vec<usize> = mcu.iter_all_pins().iter().map(|p| p.number).collect();
    assert_eq!(numbers, vec![1, 2, 3, 4, 5, 6, 7]);
}

#[test]
fn a_pad_can_be_edited_by_number() {
    let mut mcu = chip();
    if let Some(p) = mcu.find_pin_mut(6) {
        p.custom_label = "led".to_owned();
    }
    assert_eq!(mcu.find_pin(6).unwrap().custom_label, "led");
    assert!(mcu.find_pin_mut(42).is_none());
    let edit = mcu_module::moves::PinEdit::Move { from: 1, to: 2 };
    assert_ne!(edit, mcu_module::moves::PinEdit::Assign(1, PinFunction::GpioOutput));
}

#[test]
fn partnership_is_mutual() {
    let all = [
        PinFunction::UsartTx(2),
        PinFunction::UsartCts(2),
        PinFunction::LpuartRx(1),
        PinFunction::SpiMosi(3),
        PinFunction::I2cSda(1),
        PinFunction::CanRx,
        PinFunction::UsbDp,
        PinFunction::SwdClk,
        PinFunction::SpiNss(1),
        PinFunction::Mco,
    ];
    for f in all {
        for g in partner_functions(&f) {
            assert!(partner_functions(&g).contains(&f), "{f:?} <-> {g:?}");
            assert_ne!(f, g);
        }
    }
    assert!(partner_functions(&PinFunction::SpiNss(1)).is_empty());
}

#[test]
fn undo_reverts_labels_and_functions_across_several_edits() {
    let mut mcu = chip();
    mcu.apply_saved_pins(&[("PA0".to_owned(), PinFunction::GpioOutput)]);
    mcu.apply_saved_pin_labels(&[("PA0".to_owned(), "led".to_owned())]);
    mcu.push_module_undo("Add USART1".to_owned());
    mcu.apply_saved_pins(&[("PA2".to_owned(), PinFunction::UsartTx(1))]);
    mcu.apply_saved_pin_labels(&[("PA2".to_owned(), "tx".to_owned())]);
    mcu.modules.push(uart("usart_1", 4, 5));
    assert_eq!(mcu.undo_modules(), Some("Add USART1".to_owned()));
    assert!(mcu.modules.is_empty());
    assert_eq!(function_of(&mcu, 1), PinFunction::GpioOutput);
    assert_eq!(mcu.find_pin(1).unwrap().custom_label, "led");
    assert_eq!(function_of(&mcu, 4), PinFunction::Unset);
    assert_eq!(mcu.find_pin(4).unwrap().custom_label, "");
}
