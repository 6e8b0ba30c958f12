use mcu_module::modules::{AsyncBusMode, GenericModuleConfig, ModuleConfig, ModuleKind, VirtualModule};
use mcu_module::panel::{
    config_panel_lines, i2c_panel_lines, spi_panel_lines, timer_panel_lines, usart_panel_lines,
    PanelFacts, PanelLine, ESP_DUTY_NOTE,
};
use mcu_module::rp::{RP_DMA_NOTE, RP_I2C_NOTE};
use PanelLine::{Elsewhere, Field, Note, Skip};

fn stm32() -> PanelFacts {
    PanelFacts {
        is_rp: false,
        is_esp: false,
        role_count: 1,
        slave: false,
        can_mode_count: 1,
        blocking_dma: None,
        usb_otg: false,
        usart_dma: false,
        usart_tx_only: false,
        usart_half_duplex: false,
        touch_continuous: false,
        rmt_tx: true,
        wired_units: 0,
        timer_has_complementary: false,
        timer_breaks: 0,
        mcpwm_operators: 0,
        mcpwm_timers: 0,
        xspi_strobe: false,
        lcd_camera: false,
        lcd_dpi: false,
    }
}

fn module(kind: ModuleKind, instance: u8) -> VirtualModule {
    VirtualModule {
        id: "m_1".to_owned(),
        kind,
        name: "M".to_owned(),
        instance,
        config: ModuleConfig::Other(GenericModuleConfig { label: String::new() }),
        connections: Vec::new(),
    }
}

#[test]
fn an_async_rp_i2c_explains_its_transport_instead_of_offering_one() {
    let rp = PanelFacts { is_rp: true, ..stm32() };
    assert_eq!(
        i2c_panel_lines(true, AsyncBusMode::AsyncDma, rp),
        vec![Field("Clock"), Field("Timeout"), Field("Address (7-bit)"), Note(RP_I2C_NOTE)]
    );
    assert_eq!(
        i2c_panel_lines(true, AsyncBusMode::AsyncDma, stm32()),
        vec![
            Field("Clock"),
            Field("Timeout"),
            Field("Address (7-bit)"),
            Field("Async init"),
            Field("DMA TX"),
            Field("DMA RX")
        ]
    );
    assert_eq!(
        i2c_panel_lines(false, AsyncBusMode::Blocking, stm32()),
        vec![Field("Clock"), Field("Address (7-bit)"), Field("Init API")]
    );
}

#[test]
fn an_spi_slave_has_no_clock_or_transport_to_choose() {
    let esp_slave = PanelFacts { is_esp: true, role_count: 2, slave: true, ..stm32() };
    assert_eq!(
        spi_panel_lines(false, false, AsyncBusMode::Blocking, esp_slave),
        vec![Field("Role"), Field("SPI mode"), Skip("Bit order"), Field("Clock"), Field("Transfers")]
    );
    let rp = PanelFacts { is_rp: true, role_count: 1, ..stm32() };
    assert_eq!(
        spi_panel_lines(true, false, AsyncBusMode::Blocking, rp),
        vec![
            Skip("Role"),
            Field("SPI mode"),
            Field("Bit order"),
            Field("Clock"),
            Field("Async init"),
            Note(RP_DMA_NOTE)
        ]
    );
}

#[test]
fn a_blocking_f1_usart_explains_the_line_shape_it_cannot_offer() {
    let f1 = PanelFacts { blocking_dma: Some(false), ..stm32() };
    assert_eq!(
        usart_panel_lines(false, false, f1),
        vec![
            Field("Baud rate"),
            Field("Data bits"),
            Field("Parity"),
            Field("Stop bits"),
            Skip("Data direction"),
            Skip("Line"),
            Skip("Hardware flow control"),
            Field("Transport"),
            Field("Init API")
        ]
    );
    let tx_only_dma = PanelFacts { usart_dma: true, usart_tx_only: true, ..stm32() };
    let lines = usart_panel_lines(true, false, tx_only_dma);
    assert_eq!(lines[1], Skip("RX/TX buffer"));
    assert!(lines.ends_with(&[Field("DMA TX"), Field("DMA RX")]));
}

#[test]
fn an_advanced_timer_offers_dead_time_and_each_break_input() {
    let f = PanelFacts { wired_units: 2, timer_has_complementary: true, timer_breaks: 2, ..stm32() };
    assert_eq!(
        timer_panel_lines(true, 1, f),
        vec![
            Field("Frequency"),
            Field("Counter"),
            Field("Channel duty"),
            Field("Channel output"),
            Field("Channel duty"),
            Field("Channel output"),
            Field("Dead time"),
            Field("Break input"),
            Field("Break input"),
            Field("After a fault")
        ]
    );
    assert_eq!(timer_panel_lines(true, 3, f).len(), 6, "TIM3 is not an advanced-control timer");
    let esp = PanelFacts { is_esp: true, ..stm32() };
    assert_eq!(
        timer_panel_lines(false, 0, esp),
        vec![Field("Frequency"), Field("Duty resolution"), Field("Channels"), Note(ESP_DUTY_NOTE)]
    );
}

#[test]
fn every_panel_starts_with_the_shared_settings() {
    let lines = config_panel_lines(&module(ModuleKind::Custom, 1), false, false, AsyncBusMode::Blocking, stm32());
    assert_eq!(
        lines,
        vec![
            Elsewhere("Instance"),
            Elsewhere("Name"),
            Elsewhere("Data models"),
            Field("Struct"),
            Field("Pins"),
            Field("Add pin"),
            Field("Update"),
            Field("Pin function")
        ]
    );
    let can = config_panel_lines(
        &module(ModuleKind::GenericInterfaceCan, 1),
        false,
        false,
        AsyncBusMode::Blocking,
        PanelFacts { can_mode_count: 3, ..stm32() },
    );
    assert_eq!(&can[3..], &[Field("Bit rate"), Field("Mode"), Field("Transceiver")]);
}
