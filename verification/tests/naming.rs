use std::collections::HashMap;
use mcu_module::pins::PinFunction;
use mcu_module::modules::{
    Connection, CustomModuleConfig, GenericModuleConfig, I2cModuleConfig, ApiStyle, AsyncBusMode,
    ModuleConfig, ModuleKind, ModuleSignal, UsartModuleConfig, Parity, StopBits, VirtualModule,
};
use mcu_module::naming::{
    custom_file_prefix, custom_file_stem, custom_pins_sig, custom_struct_name, custom_var_name,
    derived_struct_name, handle_names, handle_preview, module_base_name, module_title,
};
use mcu_module::custom::{apply_custom_edit, custom_addable_pins, custom_update, CustomEdit, CustomUpdate};
use mcu_module::moves::PinEdit;
use mcu_module::text::sanitize_label;

fn custom(name: &str, struct_name: &str, revision: u32, instance: u8) -> VirtualModule {
    VirtualModule {
        id: format!("custom_{instance}"),
        kind: ModuleKind::Custom,
        name: format!("Custom{instance}"),
        instance,
        config: ModuleConfig::Custom(CustomModuleConfig {
            name: name.to_owned(),
            struct_name: struct_name.to_owned(),
            pins: vec![],
            revision,
            applied_pins: Vec::new(),
            applied_sig: String::new(),
        }),
        connections: vec![],
    }
}

fn i2c(label: &str) -> VirtualModule {
    VirtualModule {
        id: "i2c_1".to_owned(),
        kind: ModuleKind::GenericInterfaceI2c,
        name: "_I2C1".to_owned(),
        instance: 1,
        config: ModuleConfig::I2c(I2cModuleConfig {
            label: label.to_owned(),
            api_style: ApiStyle::Portable,
            async_mode: AsyncBusMode::Blocking,
        }),
        connections: vec![],
    }
}

#[test]
fn the_title_is_the_base_name_and_the_raw_label() {
    let m = i2c("128x32 display");
    assert_eq!(module_base_name(&m), "I2C1");
    assert_eq!(module_title(&m), "I2C1 - 128x32 display");
    assert_eq!(module_title(&i2c("   ")), "I2C1");
}

#[test]
fn a_custom_module_is_named_from_its_label() {
    let m = custom("Temp Sensor!", "", 0, 3);
    assert_eq!(custom_var_name(&m), "temp_sensor");
    assert_eq!(custom_struct_name(&m), "TempSensor");
    assert_eq!(custom_file_prefix(&m), "custom_temp_sensor");
    assert_eq!(custom_file_stem(&m), "custom_temp_sensor");
    let later = custom("Temp Sensor!", "", 4, 3);
    assert_eq!(custom_file_stem(&later), "custom_temp_sensor_4");
    assert!(custom_file_stem(&later).starts_with(&custom_file_prefix(&later)));
}

#[test]
fn an_unusable_label_falls_back_to_the_instance() {
    let m = custom("  ", "", 0, 2);
    assert_eq!(custom_var_name(&m), "custom2");
    assert_eq!(custom_struct_name(&m), "Custom2");
    let digits = custom("3d printer", "", 0, 5);
    assert_eq!(custom_var_name(&digits), "custom5", "an identifier cannot start with a digit");
    assert_eq!(derived_struct_name("", 7), "Custom7");
    assert_eq!(derived_struct_name("my--led strip", 1), "MyLedStrip");
}

#[test]
fn an_explicit_struct_name_wins() {
    let m = custom("sensor", "imu unit", 0, 1);
    assert_eq!(custom_struct_name(&m), "ImuUnit");
    assert_eq!(custom_var_name(&m), "sensor");
}

#[test]
fn sanitising_keeps_letters_and_digits_and_joins_runs() {
    let s: String = sanitize_label("  Hello,  World 42 ").into_iter().collect();
    assert_eq!(s, "hello_world_42");
    assert!(sanitize_label("___").is_empty());
}

#[test]
fn the_pin_fingerprint_lists_each_pin() {
    let sigs: HashMap<usize, String> = [(12, "GpioOutput|led".to_owned()), (3, "GpioInput|".to_owned())].into_iter().collect();
    assert_eq!(custom_pins_sig(&[12, 3, 40], &sigs), "12:GpioOutput|led;3:GpioInput|;40:?");
    assert_eq!(custom_pins_sig(&[], &sigs), "");
}

#[test]
fn the_handle_preview_follows_the_kind() {
    let m = i2c("oled");
    assert_eq!(handle_preview(&m, false), "_i2c1_oled");
    assert_eq!(handle_names(&m, false), vec!["_i2c1_oled".to_owned()]);
    let u = VirtualModule {
        id: "usart_1".to_owned(),
        kind: ModuleKind::GenericInterfaceUsart,
        name: "_USART2".to_owned(),
        instance: 2,
        config: ModuleConfig::Usart(UsartModuleConfig {
            label: String::new(),
            api_style: ApiStyle::Portable,
            baud: 9600,
            parity: Parity::Even,
            stop_bits: StopBits::Two,
        }),
        connections: vec![],
    };
    assert_eq!(handle_preview(&u, false), "_serial2");
    assert_eq!(handle_preview(&u, true), "_tx2, _rx2");
    assert_eq!(handle_names(&u, true), vec!["_tx2".to_owned(), "_rx2".to_owned()]);
    let c = custom("temp sensor", "", 0, 1);
    assert_eq!(handle_preview(&c, false), "temp_sensor: TempSensor");
}

#[test]
fn mcpwm_lists_one_handle_per_wired_output() {
    let m = VirtualModule {
        id: "mcpwm_1".to_owned(),
        kind: ModuleKind::GenericInterfaceMcpwm,
        name: "_MCPWM0".to_owned(),
        instance: 0,
        config: ModuleConfig::Other(GenericModuleConfig { label: String::new() }),
        connections: vec![
            Connection { signal: ModuleSignal::McpwmB0, mcu_pin: 4 },
            Connection { signal: ModuleSignal::McpwmA0, mcu_pin: 5 },
        ],
    };
    assert_eq!(handle_preview(&m, false), "_mcpwm0_op0a, _mcpwm0_op0b");
}

#[test]
fn every_kind_has_its_own_short_name() {
    let all = [
        ModuleKind::GenericInterfaceUsart,
        ModuleKind::GenericInterfaceLpuart,
        ModuleKind::GenericInterfaceSpi,
        ModuleKind::GenericInterfaceI2c,
        ModuleKind::GenericInterfaceI2s,
        ModuleKind::GenericInterfaceSai,
        ModuleKind::GenericInterfaceQspi,
        ModuleKind::GenericInterfaceOspi,
        ModuleKind::GenericInterfaceXspi,
        ModuleKind::GenericInterfaceHspi,
        ModuleKind::GenericInterfaceSdmmc,
        ModuleKind::GenericInterfaceParlIo,
        ModuleKind::GenericInterfaceParlIoRx,
        ModuleKind::GenericInterfaceLcdCam,
        ModuleKind::GenericInterfaceCamera,
        ModuleKind::GenericInterfaceTimer,
        ModuleKind::GenericInterfaceMcpwm,
        ModuleKind::GenericInterfaceRmt,
        ModuleKind::GenericInterfaceDac,
        ModuleKind::GenericInterfaceTouch,
        ModuleKind::GenericInterfacePcnt,
        ModuleKind::GenericInterfaceCan,
        ModuleKind::GenericInterfaceUsb,
        ModuleKind::Custom,
    ];
    let mut seen: Vec<&str> = all.iter().map(|k| k.short()).collect();
    let before = seen.len();
    seen.sort_unstable();
    seen.dedup();
    assert_eq!(before, seen.len(), "two kinds share a short name");
}

#[test]
fn two_fingerprints_match_exactly_when_every_pin_looks_up_the_same() {
    let a: HashMap<usize, String> = [(3, "GpioOutput|led".to_owned()), (5, "GpioInput|".to_owned())].into_iter().collect();
    let b: HashMap<usize, String> = [(5, "GpioInput|".to_owned()), (3, "GpioOutput|led".to_owned()), (9, "x".to_owned())].into_iter().collect();
    let c: HashMap<usize, String> = [(3, "GpioOutput|led".to_owned())].into_iter().collect();
    assert_eq!(custom_pins_sig(&[3, 5], &a), custom_pins_sig(&[3, 5], &b));
    assert_ne!(custom_pins_sig(&[3, 5], &a), custom_pins_sig(&[3, 5], &c));
    assert_eq!(custom_pins_sig(&[3, 5], &c), "3:GpioOutput|led;5:?");
}

fn sensor(pins: Vec<usize>) -> CustomModuleConfig {
    CustomModuleConfig {
        name: "sensor".to_owned(),
        struct_name: String::new(),
        pins,
        revision: 0,
        applied_pins: Vec::new(),
        applied_sig: String::new(),
    }
}

#[test]
fn update_generates_once_every_pad_has_a_function_and_bumps_the_revision_after() {
    let names: HashMap<usize, String> = [(3, "PA3".to_owned())].into_iter().collect();
    let mut current: HashMap<usize, PinFunction> = [(3, PinFunction::Unset)].into_iter().collect();
    let mut sigs: HashMap<usize, String> = [(3, "Unset|".to_owned())].into_iter().collect();
    let mut cfg = sensor(vec![3, 7]);
    match custom_update(&mut cfg, &sigs, &names, &current) {
        CustomUpdate::Unconfigured(v) => assert_eq!(v, vec!["PA3".to_owned(), "pin7".to_owned()]),
        _ => panic!("two pads carry nothing yet"),
    }
    assert!(cfg.applied_pins.is_empty());
    current.insert(3, PinFunction::GpioOutput);
    current.insert(7, PinFunction::GpioInput);
    sigs.insert(3, "GpioOutput|led".to_owned());
    sigs.insert(7, "GpioInput|".to_owned());
    assert!(matches!(custom_update(&mut cfg, &sigs, &names, &current), CustomUpdate::Generated));
    assert_eq!(cfg.revision, 0);
    assert_eq!(cfg.applied_pins, vec![3, 7]);
    assert_eq!(cfg.applied_sig, "3:GpioOutput|led;7:GpioInput|");
    assert!(!cfg.has_pending_pins(&cfg.applied_sig.clone()));
    assert!(matches!(custom_update(&mut cfg, &sigs, &names, &current), CustomUpdate::Unchanged));
    sigs.insert(7, "GpioOutput|".to_owned());
    assert!(matches!(custom_update(&mut cfg, &sigs, &names, &current), CustomUpdate::Generated));
    assert_eq!(cfg.revision, 1);
    let mut empty = sensor(vec![]);
    assert!(matches!(custom_update(&mut empty, &sigs, &names, &current), CustomUpdate::Unchanged));
}

#[test]
fn only_free_pads_can_be_added_and_a_pick_comes_back_as_a_pin_edit() {
    let names: HashMap<usize, String> =
        [(1, "PA0".to_owned()), (2, "PA1".to_owned()), (3, "VDD".to_owned()), (4, "PA2".to_owned())]
            .into_iter()
            .collect();
    let blocked: std::collections::HashSet<usize> = [3].into_iter().collect();
    let mut cfg = sensor(vec![2]);
    assert_eq!(custom_addable_pins(&cfg, &names, &blocked), vec![1, 4]);
    assert_eq!(apply_custom_edit(&mut cfg, CustomEdit::AddPin(4), &blocked), None);
    assert_eq!(apply_custom_edit(&mut cfg, CustomEdit::AddPin(3), &blocked), None);
    assert_eq!(apply_custom_edit(&mut cfg, CustomEdit::AddPin(2), &blocked), None);
    assert_eq!(cfg.pins, vec![2, 4]);
    assert_eq!(
        apply_custom_edit(&mut cfg, CustomEdit::PickFunction(4, PinFunction::GpioInput), &blocked),
        Some(PinEdit::Assign(4, PinFunction::GpioInput))
    );
    assert_eq!(apply_custom_edit(&mut cfg, CustomEdit::RemovePin(0), &blocked), None);
    assert_eq!(apply_custom_edit(&mut cfg, CustomEdit::RemovePin(5), &blocked), None);
    assert_eq!(cfg.pins, vec![4]);
}
