use mcu_module::model::{Mcu, Runtime};
use mcu_module::modules::{
    module_style, set_module_style, ApiStyle, AsyncBusMode, ModuleConfig, ModuleKind, SpiModuleConfig, UsartModuleConfig,
    Parity, StopBits, VirtualModule,
};

fn bare() -> Mcu {
    Mcu::new("chip".into(), "stm32f1".into(), vec![], vec![], vec![], vec![])
}

fn spi(id: &str) -> VirtualModule {
    VirtualModule {
        id: id.to_owned(),
        kind: ModuleKind::GenericInterfaceSpi,
        name: "_SPI1".to_owned(),
        instance: 1,
        config: ModuleConfig::Spi(SpiModuleConfig {
            label: String::new(),
            api_style: ApiStyle::Portable,
            async_mode: AsyncBusMode::Blocking,
        }),
        connections: vec![],
    }
}

fn usart(id: &str) -> VirtualModule {
    VirtualModule {
        id: id.to_owned(),
        kind: ModuleKind::GenericInterfaceUsart,
        name: "_USART2".to_owned(),
        instance: 2,
        config: ModuleConfig::Usart(UsartModuleConfig {
            label: String::new(),
            api_style: ApiStyle::Portable,
            baud: 115200,
            parity: Parity::NoParity,
            stop_bits: StopBits::One,
        }),
        connections: vec![],
    }
}

#[test]
fn nothing_is_dirty_after_a_sync() {
    let mut mcu = bare();
    mcu.modules.push(spi("spi_1"));
    mcu.modules.push(usart("usart_2"));
    mcu.pending_runtime = Runtime::Async;
    mcu.pending_apply_confirm = true;
    assert!(mcu.style_dirty());
    mcu.sync_pending_style();
    assert!(!mcu.style_dirty());
    assert_eq!(mcu.pending_runtime, Runtime::Blocking);
    assert!(!mcu.pending_apply_confirm);
    assert_eq!(mcu.pending_module_styles.len(), 2);
    assert!(mcu.style_diff_summary().is_empty());
}

#[test]
fn apply_commits_the_staged_choices() {
    let mut mcu = bare();
    mcu.modules.push(spi("spi_1"));
    mcu.modules.push(usart("usart_2"));
    mcu.sync_pending_style();
    mcu.pending_runtime = Runtime::Async;
    mcu.pending_gpio_api = ApiStyle::Native;
    mcu.pending_module_styles.push(("spi_1".to_owned(), (ApiStyle::Native, AsyncBusMode::AsyncDma)));
    mcu.pending_module_styles.push(("usart_2".to_owned(), (ApiStyle::Native, AsyncBusMode::Blocking)));
    assert!(mcu.style_dirty());
    assert_eq!(
        mcu.style_diff_summary(),
        vec![
            "Runtime: Blocking -> Async".to_owned(),
            "GPIO In/Out: Portable -> Native".to_owned(),
            "SPI1 init: Portable -> Native".to_owned(),
            "SPI1 async: Blocking -> Async-DMA".to_owned(),
            "USART2 init: Portable -> Native".to_owned(),
        ]
    );
    mcu.apply_pending_style();
    assert_eq!(mcu.runtime, Runtime::Async);
    assert_eq!(mcu.gpio_api, ApiStyle::Native);
    assert!(mcu.config_regen_forced);
    assert_eq!(module_style(&mcu.modules[0].config), (ApiStyle::Native, AsyncBusMode::AsyncDma));
    assert_eq!(module_style(&mcu.modules[1].config), (ApiStyle::Native, AsyncBusMode::Blocking));
    assert!(!mcu.style_dirty());
}

#[test]
fn a_usart_has_no_async_line() {
    let mut mcu = bare();
    mcu.modules.push(usart("usart_2"));
    mcu.sync_pending_style();
    mcu.pending_module_styles.push(("usart_2".to_owned(), (ApiStyle::Portable, AsyncBusMode::AsyncDma)));
    assert!(mcu.style_dirty());
    assert!(mcu.style_diff_summary().is_empty());
}

#[test]
fn a_style_write_reads_back() {
    let mut c = spi("x").config;
    set_module_style(&mut c, ApiStyle::Native, AsyncBusMode::AsyncDma);
    assert_eq!(module_style(&c), (ApiStyle::Native, AsyncBusMode::AsyncDma));
    let mut u = usart("y").config;
    set_module_style(&mut u, ApiStyle::Native, AsyncBusMode::AsyncDma);
    assert_eq!(module_style(&u), (ApiStyle::Native, AsyncBusMode::Blocking));
}
