use mcu_module::model::Mcu;
use mcu_module::persist::mcu_config_text;
use mcu_module::pins::{IrqEdge, Pin, PinFunction};

fn pad(number: usize, irq: Option<IrqEdge>) -> Pin {
    Pin {
        number,
        name: format!("PA{number}"),
        reserved: false,
        selected_function: PinFunction::Unset,
        available_functions: vec![PinFunction::GpioInput],
        custom_label: String::new(),
        irq,
    }
}

#[test]
fn the_sections_are_joined_one_newline_apart_skipping_the_empty() {
    let s = |t: &str| t.to_owned();
    assert_eq!(
        mcu_config_text(&[s("@modules\nusart_1"), s(""), s("@autobuild Off"), s(""), s("@rotation 1")]),
        "@modules\nusart_1\n@autobuild Off\n@rotation 1"
    );
    assert_eq!(mcu_config_text(&[s(""), s("@strict")]), "@strict");
}

#[test]
fn nothing_to_persist_writes_nothing() {
    assert_eq!(mcu_config_text(&[]), "");
    assert_eq!(mcu_config_text(&[String::new(), String::new()]), "");
}

#[test]
fn the_armed_edges_are_keyed_by_pad_number() {
    let mcu = Mcu::new(
        "F103".into(),
        "stm32f1".into(),
        vec![pad(3, Some(IrqEdge::Falling)), pad(1, None)],
        vec![pad(2, Some(IrqEdge::Both))],
        vec![],
        vec![],
    );
    let got: Vec<(usize, IrqEdge)> = mcu.irq_edges().into_iter().collect();
    assert_eq!(got, vec![(2, IrqEdge::Both), (3, IrqEdge::Falling)]);
}
