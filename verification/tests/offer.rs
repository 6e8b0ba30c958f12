use mcu_module::model::Mcu;
use mcu_module::modules::ModuleKind;
use mcu_module::offer::{clicked_function, TOUCH_HARDWARE_ONLY};
use mcu_module::pins::{Pin, PinFunction};

fn pad(number: usize, name: &str, avail: Vec<PinFunction>) -> Pin {
    Pin {
        number,
        name: name.to_owned(),
        reserved: false,
        selected_function: PinFunction::Unset,
        available_functions: avail,
        custom_label: String::new(),
        irq: None,
    }
}

fn chip(family: &str) -> Mcu {
    let a = pad(1, "PA9", vec![PinFunction::GpioInput, PinFunction::GpioOutput, PinFunction::UsartTx(1)]);
    let b = pad(2, "PA10", vec![PinFunction::GpioOutput, PinFunction::UsartTx(1), PinFunction::UsartRx(1)]);
    let c = pad(3, "PB6", vec![PinFunction::GpioOutput, PinFunction::I2cScl(1)]);
    Mcu::new("chip".into(), family.into(), vec![a, b], vec![c], vec![], vec![])
}

#[test]
fn a_function_taken_elsewhere_is_not_offered_but_gpio_always_is() {
    let mut mcu = chip("stm32f1");
    mcu.top_pins[0].selected_function = PinFunction::UsartTx(1);
    mcu.bottom_pins[0].selected_function = PinFunction::GpioOutput;
    let (name, funcs, cur) = mcu.selectable_functions(2).expect("pad 2");
    assert_eq!(name, "PA10");
    assert_eq!(funcs, vec![PinFunction::GpioOutput, PinFunction::UsartRx(1)]);
    assert_eq!(cur, PinFunction::Unset);
    assert!(mcu.selectable_functions(99).is_none());
}

#[test]
fn the_current_function_heads_the_list() {
    let mut mcu = chip("stm32f1");
    mcu.top_pins[1].selected_function = PinFunction::UsartRx(1);
    let (_, funcs, cur) = mcu.selectable_functions(2).expect("pad 2");
    assert_eq!(cur, PinFunction::UsartRx(1));
    assert_eq!(
        funcs,
        vec![PinFunction::UsartRx(1), PinFunction::GpioOutput, PinFunction::UsartTx(1)]
    );
}

#[test]
fn touch_on_an_s3_says_why_it_is_not_offered() {
    assert_eq!(chip("esp32s3").hardware_only_reason(ModuleKind::GenericInterfaceTouch), Some(TOUCH_HARDWARE_ONLY));
    assert_eq!(chip("esp32s2").hardware_only_reason(ModuleKind::GenericInterfaceTouch), Some(TOUCH_HARDWARE_ONLY));
    assert_eq!(chip("esp32").hardware_only_reason(ModuleKind::GenericInterfaceTouch), None);
    assert_eq!(chip("esp32s3").hardware_only_reason(ModuleKind::GenericInterfaceUsart), None);
    assert!(TOUCH_HARDWARE_ONLY.starts_with("This chip HAS capacitive touch"));
    assert!(!TOUCH_HARDWARE_ONLY.contains("  "));
}

#[test]
fn a_click_on_the_active_function_clears_the_pad() {
    assert_eq!(clicked_function(PinFunction::UsartTx(1), PinFunction::UsartTx(1)), PinFunction::Unset);
    assert_eq!(clicked_function(PinFunction::Unset, PinFunction::GpioOutput), PinFunction::GpioOutput);
    assert_eq!(clicked_function(PinFunction::GpioInput, PinFunction::GpioOutput), PinFunction::GpioOutput);
}

#[test]
fn the_info_button_toggles_its_window() {
    let mut mcu = chip("stm32f1");
    mcu.toggle_info(PinFunction::UsartTx(1));
    assert_eq!(mcu.show_info, Some(PinFunction::UsartTx(1)));
    mcu.toggle_info(PinFunction::GpioOutput);
    assert_eq!(mcu.show_info, Some(PinFunction::GpioOutput));
    mcu.toggle_info(PinFunction::GpioOutput);
    assert_eq!(mcu.show_info, None);
}
