//! Virtual modules: the peripherals drawn beside the chip, their settings and
//! the wires that tie them to pads.

use vstd::prelude::*;

verus! {

/// The kinds of module the palette offers.
#[derive(Clone, Copy, PartialEq, Eq, Debug, Structural)]
pub enum ModuleKind {
    GenericInterfaceUsart,
    GenericInterfaceLpuart,
    GenericInterfaceSpi,
    GenericInterfaceI2c,
    GenericInterfaceI2s,
    GenericInterfaceSai,
    GenericInterfaceQspi,
    GenericInterfaceOspi,
    GenericInterfaceXspi,
    GenericInterfaceHspi,
    GenericInterfaceSdmmc,
    GenericInterfaceParlIo,
    GenericInterfaceParlIoRx,
    GenericInterfaceLcdCam,
    GenericInterfaceCamera,
    GenericInterfaceTimer,
    GenericInterfaceMcpwm,
    GenericInterfaceRmt,
    GenericInterfaceDac,
    GenericInterfaceTouch,
    GenericInterfacePcnt,
    GenericInterfaceCan,
    GenericInterfaceUsb,
    Custom,
}

/// Where a kind sorts among the kinds: its place in the palette's list.
pub open spec fn kind_index(k: ModuleKind) -> nat {
    match k {
        ModuleKind::GenericInterfaceUsart => 0,
        ModuleKind::GenericInterfaceLpuart => 1,
        ModuleKind::GenericInterfaceSpi => 2,
        ModuleKind::GenericInterfaceI2c => 3,
        ModuleKind::GenericInterfaceI2s => 4,
        ModuleKind::GenericInterfaceSai => 5,
        ModuleKind::GenericInterfaceQspi => 6,
        ModuleKind::GenericInterfaceOspi => 7,
        ModuleKind::GenericInterfaceXspi => 8,
        ModuleKind::GenericInterfaceHspi => 9,
        ModuleKind::GenericInterfaceSdmmc => 10,
        ModuleKind::GenericInterfaceParlIo => 11,
        ModuleKind::GenericInterfaceParlIoRx => 12,
        ModuleKind::GenericInterfaceLcdCam => 13,
        ModuleKind::GenericInterfaceCamera => 14,
        ModuleKind::GenericInterfaceTimer => 15,
        ModuleKind::GenericInterfaceMcpwm => 16,
        ModuleKind::GenericInterfaceRmt => 17,
        ModuleKind::GenericInterfaceDac => 18,
        ModuleKind::GenericInterfaceTouch => 19,
        ModuleKind::GenericInterfacePcnt => 20,
        ModuleKind::GenericInterfaceCan => 21,
        ModuleKind::GenericInterfaceUsb => 22,
        ModuleKind::Custom => 23,
    }
}

/// The short name a kind's modules are called by (`USART` → `USART1`,
/// id `usart_<n>`).
pub open spec fn short_name(k: ModuleKind) -> Seq<char> {
    match k {
        ModuleKind::GenericInterfaceUsart => "USART"@,
        ModuleKind::GenericInterfaceLpuart => "LPUART"@,
        ModuleKind::GenericInterfaceSpi => "SPI"@,
        ModuleKind::GenericInterfaceI2c => "I2C"@,
        ModuleKind::GenericInterfaceI2s => "I2S"@,
        ModuleKind::GenericInterfaceSai => "SAI"@,
        ModuleKind::GenericInterfaceQspi => "QSPI"@,
        ModuleKind::GenericInterfaceOspi => "OSPI"@,
        ModuleKind::GenericInterfaceXspi => "XSPI"@,
        ModuleKind::GenericInterfaceHspi => "HSPI"@,
        ModuleKind::GenericInterfaceSdmmc => "SDMMC"@,
        ModuleKind::GenericInterfaceParlIo => "PARL_IO"@,
        ModuleKind::GenericInterfaceParlIoRx => "PARL_IO_RX"@,
        ModuleKind::GenericInterfaceLcdCam => "LCD_CAM"@,
        ModuleKind::GenericInterfaceCamera => "CAM"@,
        ModuleKind::GenericInterfaceTimer => "TIM"@,
        ModuleKind::GenericInterfaceMcpwm => "MCPWM"@,
        ModuleKind::GenericInterfaceRmt => "RMT"@,
        ModuleKind::GenericInterfaceDac => "DAC"@,
        ModuleKind::GenericInterfaceTouch => "TOUCH"@,
        ModuleKind::GenericInterfacePcnt => "PCNT"@,
        ModuleKind::GenericInterfaceCan => "CAN"@,
        ModuleKind::GenericInterfaceUsb => "USB"@,
        ModuleKind::Custom => "Custom"@,
    }
}

/// `c` holds the settings a new module of kind `k` starts with.
pub open spec fn is_default_config(c: ModuleConfig, k: ModuleKind) -> bool {
    match k {
        ModuleKind::GenericInterfaceUsart => c matches ModuleConfig::Usart(u) && u.label@.len() == 0
            && u.api_style == ApiStyle::Portable && u.baud == 115200 && u.parity == Parity::NoParity
            && u.stop_bits == StopBits::One,
        ModuleKind::GenericInterfaceSpi => c matches ModuleConfig::Spi(x) && x.label@.len() == 0
            && x.api_style == ApiStyle::Portable && x.async_mode == AsyncBusMode::Blocking,
        ModuleKind::GenericInterfaceI2c => c matches ModuleConfig::I2c(x) && x.label@.len() == 0
            && x.api_style == ApiStyle::Portable && x.async_mode == AsyncBusMode::Blocking,
        ModuleKind::Custom => c matches ModuleConfig::Custom(x) && x.name@.len() == 0
            && x.struct_name@.len() == 0 && x.pins@.len() == 0 && x.revision == 0
            && x.applied_pins@.len() == 0 && x.applied_sig@.len() == 0,
        _ => c matches ModuleConfig::Other(x) && x.label@.len() == 0,
    }
}

impl ModuleKind {
    /// Where this kind sorts among the kinds.
    pub(crate) fn index(self) -> (r: u8)
        ensures
            r == kind_index(self),
    {
        match self {
            ModuleKind::GenericInterfaceUsart => 0,
            ModuleKind::GenericInterfaceLpuart => 1,
            ModuleKind::GenericInterfaceSpi => 2,
            ModuleKind::GenericInterfaceI2c => 3,
            ModuleKind::GenericInterfaceI2s => 4,
            ModuleKind::GenericInterfaceSai => 5,
            ModuleKind::GenericInterfaceQspi => 6,
            ModuleKind::GenericInterfaceOspi => 7,
            ModuleKind::GenericInterfaceXspi => 8,
            ModuleKind::GenericInterfaceHspi => 9,
            ModuleKind::GenericInterfaceSdmmc => 10,
            ModuleKind::GenericInterfaceParlIo => 11,
            ModuleKind::GenericInterfaceParlIoRx => 12,
            ModuleKind::GenericInterfaceLcdCam => 13,
            ModuleKind::GenericInterfaceCamera => 14,
            ModuleKind::GenericInterfaceTimer => 15,
            ModuleKind::GenericInterfaceMcpwm => 16,
            ModuleKind::GenericInterfaceRmt => 17,
            ModuleKind::GenericInterfaceDac => 18,
            ModuleKind::GenericInterfaceTouch => 19,
            ModuleKind::GenericInterfacePcnt => 20,
            ModuleKind::GenericInterfaceCan => 21,
            ModuleKind::GenericInterfaceUsb => 22,
            ModuleKind::Custom => 23,
        }
    }

    /// The short name this kind's modules are called by.
    pub fn short(self) -> (r: &'static str)
        ensures
            r@ == short_name(self),
    {
        match self {
            ModuleKind::GenericInterfaceUsart => "USART",
            ModuleKind::GenericInterfaceLpuart => "LPUART",
            ModuleKind::GenericInterfaceSpi => "SPI",
            ModuleKind::GenericInterfaceI2c => "I2C",
            ModuleKind::GenericInterfaceI2s => "I2S",
            ModuleKind::GenericInterfaceSai => "SAI",
            ModuleKind::GenericInterfaceQspi => "QSPI",
            ModuleKind::GenericInterfaceOspi => "OSPI",
            ModuleKind::GenericInterfaceXspi => "XSPI",
            ModuleKind::GenericInterfaceHspi => "HSPI",
            ModuleKind::GenericInterfaceSdmmc => "SDMMC",
            ModuleKind::GenericInterfaceParlIo => "PARL_IO",
            ModuleKind::GenericInterfaceParlIoRx => "PARL_IO_RX",
            ModuleKind::GenericInterfaceLcdCam => "LCD_CAM",
            ModuleKind::GenericInterfaceCamera => "CAM",
            ModuleKind::GenericInterfaceTimer => "TIM",
            ModuleKind::GenericInterfaceMcpwm => "MCPWM",
            ModuleKind::GenericInterfaceRmt => "RMT",
            ModuleKind::GenericInterfaceDac => "DAC",
            ModuleKind::GenericInterfaceTouch => "TOUCH",
            ModuleKind::GenericInterfacePcnt => "PCNT",
            ModuleKind::GenericInterfaceCan => "CAN",
            ModuleKind::GenericInterfaceUsb => "USB",
            ModuleKind::Custom => "Custom",
        }
    }

    /// The settings a new module of this kind starts with.
    pub fn default_config(self, inst: u8) -> (r: ModuleConfig)
        ensures
            is_default_config(r, self),
    {
        match self {
            ModuleKind::GenericInterfaceUsart => ModuleConfig::Usart(
                UsartModuleConfig {
                    label: String::new(),
                    api_style: ApiStyle::Portable,
                    baud: 115200,
                    parity: Parity::NoParity,
                    stop_bits: StopBits::One,
                },
            ),
            ModuleKind::GenericInterfaceSpi => ModuleConfig::Spi(
                SpiModuleConfig {
                    label: String::new(),
                    api_style: ApiStyle::Portable,
                    async_mode: AsyncBusMode::Blocking,
                },
            ),
            ModuleKind::GenericInterfaceI2c => ModuleConfig::I2c(
                I2cModuleConfig {
                    label: String::new(),
                    api_style: ApiStyle::Portable,
                    async_mode: AsyncBusMode::Blocking,
                },
            ),
            ModuleKind::Custom => ModuleConfig::Custom(
                CustomModuleConfig {
                    name: String::new(),
                    struct_name: String::new(),
                    pins: Vec::new(),
                    revision: 0,
                    applied_pins: Vec::new(),
                    applied_sig: String::new(),
                },
            ),
            _ => ModuleConfig::Other(GenericModuleConfig { label: String::new() }),
        }
    }

    /// A module the user authored rather than one derived from a peripheral.
    pub fn is_custom(self) -> (r: bool)
        ensures
            r == (self == ModuleKind::Custom),
    {
        match self {
            ModuleKind::Custom => true,
            _ => false,
        }
    }
}

/// One signal of a module, as the end of a wire.
#[derive(Clone, Copy, PartialEq, Eq, Debug, Structural)]
pub enum ModuleSignal {
    Tx,
    Rx,
    Cts,
    Rts,
    Sck,
    Miso,
    Mosi,
    Nss,
    Scl,
    Sda,
    CanRx,
    CanTx,
    UsbDm,
    UsbDp,
    PwmChannel(u8),
    McpwmA0,
    McpwmB0,
    McpwmA1,
    McpwmB1,
    McpwmA2,
    McpwmB2,
    CustomPin,
}

/// Where a signal sorts: by variant in the order above, a PWM channel by
/// its number within its variant.
pub open spec fn signal_rank(s: ModuleSignal) -> nat {
    match s {
        ModuleSignal::Tx => 0,
        ModuleSignal::Rx => 256,
        ModuleSignal::Cts => 512,
        ModuleSignal::Rts => 768,
        ModuleSignal::Sck => 1024,
        ModuleSignal::Miso => 1280,
        ModuleSignal::Mosi => 1536,
        ModuleSignal::Nss => 1792,
        ModuleSignal::Scl => 2048,
        ModuleSignal::Sda => 2304,
        ModuleSignal::CanRx => 2560,
        ModuleSignal::CanTx => 2816,
        ModuleSignal::UsbDm => 3072,
        ModuleSignal::UsbDp => 3328,
        ModuleSignal::PwmChannel(c) => (3584 + c) as nat,
        ModuleSignal::McpwmA0 => 3840,
        ModuleSignal::McpwmB0 => 4096,
        ModuleSignal::McpwmA1 => 4352,
        ModuleSignal::McpwmB1 => 4608,
        ModuleSignal::McpwmA2 => 4864,
        ModuleSignal::McpwmB2 => 5120,
        ModuleSignal::CustomPin => 5376,
    }
}

/// The pin function that carries signal `s` on peripheral instance `inst`;
/// `Unset` for a signal no pad function carries (a Custom pad, an MCPWM
/// output).
pub open spec fn signal_function(s: ModuleSignal, inst: u8) -> crate::pins::PinFunction {
    match s {
        ModuleSignal::Tx => crate::pins::PinFunction::UsartTx(inst),
        ModuleSignal::Rx => crate::pins::PinFunction::UsartRx(inst),
        ModuleSignal::Cts => crate::pins::PinFunction::UsartCts(inst),
        ModuleSignal::Rts => crate::pins::PinFunction::UsartRts(inst),
        ModuleSignal::Sck => crate::pins::PinFunction::SpiSck(inst),
        ModuleSignal::Miso => crate::pins::PinFunction::SpiMiso(inst),
        ModuleSignal::Mosi => crate::pins::PinFunction::SpiMosi(inst),
        ModuleSignal::Nss => crate::pins::PinFunction::SpiNss(inst),
        ModuleSignal::Scl => crate::pins::PinFunction::I2cScl(inst),
        ModuleSignal::Sda => crate::pins::PinFunction::I2cSda(inst),
        ModuleSignal::CanRx => crate::pins::PinFunction::CanRx,
        ModuleSignal::CanTx => crate::pins::PinFunction::CanTx,
        ModuleSignal::UsbDm => crate::pins::PinFunction::UsbDm,
        ModuleSignal::UsbDp => crate::pins::PinFunction::UsbDp,
        ModuleSignal::PwmChannel(c) => crate::pins::PinFunction::TimerPwm { timer: inst, channel: c },
        _ => crate::pins::PinFunction::Unset,
    }
}

impl ModuleSignal {
    /// The pin function that carries this signal on instance `inst`.
    pub fn pin_function(self, inst: u8) -> (r: crate::pins::PinFunction)
        ensures
            r == signal_function(self, inst),
    {
        match self {
            ModuleSignal::Tx => crate::pins::PinFunction::UsartTx(inst),
            ModuleSignal::Rx => crate::pins::PinFunction::UsartRx(inst),
            ModuleSignal::Cts => crate::pins::PinFunction::UsartCts(inst),
            ModuleSignal::Rts => crate::pins::PinFunction::UsartRts(inst),
            ModuleSignal::Sck => crate::pins::PinFunction::SpiSck(inst),
            ModuleSignal::Miso => crate::pins::PinFunction::SpiMiso(inst),
            ModuleSignal::Mosi => crate::pins::PinFunction::SpiMosi(inst),
            ModuleSignal::Nss => crate::pins::PinFunction::SpiNss(inst),
            ModuleSignal::Scl => crate::pins::PinFunction::I2cScl(inst),
            ModuleSignal::Sda => crate::pins::PinFunction::I2cSda(inst),
            ModuleSignal::CanRx => crate::pins::PinFunction::CanRx,
            ModuleSignal::CanTx => crate::pins::PinFunction::CanTx,
            ModuleSignal::UsbDm => crate::pins::PinFunction::UsbDm,
            ModuleSignal::UsbDp => crate::pins::PinFunction::UsbDp,
            ModuleSignal::PwmChannel(c) => crate::pins::PinFunction::TimerPwm { timer: inst, channel: c },
            _ => crate::pins::PinFunction::Unset,
        }
    }

    /// Where this signal sorts.
    pub(crate) fn rank(self) -> (r: u32)
        ensures
            r == signal_rank(self),
    {
        match self {
            ModuleSignal::Tx => 0,
            ModuleSignal::Rx => 256,
            ModuleSignal::Cts => 512,
            ModuleSignal::Rts => 768,
            ModuleSignal::Sck => 1024,
            ModuleSignal::Miso => 1280,
            ModuleSignal::Mosi => 1536,
            ModuleSignal::Nss => 1792,
            ModuleSignal::Scl => 2048,
            ModuleSignal::Sda => 2304,
            ModuleSignal::CanRx => 2560,
            ModuleSignal::CanTx => 2816,
            ModuleSignal::UsbDm => 3072,
            ModuleSignal::UsbDp => 3328,
            ModuleSignal::PwmChannel(c) => 3584 + c as u32,
            ModuleSignal::McpwmA0 => 3840,
            ModuleSignal::McpwmB0 => 4096,
            ModuleSignal::McpwmA1 => 4352,
            ModuleSignal::McpwmB1 => 4608,
            ModuleSignal::McpwmA2 => 4864,
            ModuleSignal::McpwmB2 => 5120,
            ModuleSignal::CustomPin => 5376,
        }
    }
}

/// Whether a bus peripheral is driven through the portable embedded-hal
/// bridges or through the HAL's own concrete types.
#[derive(Clone, Copy, PartialEq, Eq, Debug, Structural)]
pub enum ApiStyle {
    Portable,
    Native,
}

/// The transport of an async bus driver.
#[derive(Clone, Copy, PartialEq, Eq, Debug, Structural)]
pub enum AsyncBusMode {
    Blocking,
    AsyncDma,
}

#[derive(Clone, Copy, PartialEq, Eq, Debug, Structural)]
pub enum Parity {
    /// No parity bit; the panel labels it "None".
    NoParity,
    Even,
    Odd,
}

#[derive(Clone, Copy, PartialEq, Eq, Debug, Structural)]
pub enum StopBits {
    One,
    Two,
}

/// A USART module's settings.
pub struct UsartModuleConfig {
    pub label: String,
    pub api_style: ApiStyle,
    pub baud: u32,
    pub parity: Parity,
    pub stop_bits: StopBits,
}

/// An SPI module's settings.
pub struct SpiModuleConfig {
    pub label: String,
    pub api_style: ApiStyle,
    pub async_mode: AsyncBusMode,
}

/// An I2C module's settings.
pub struct I2cModuleConfig {
    pub label: String,
    pub api_style: ApiStyle,
    pub async_mode: AsyncBusMode,
}

/// A module the user authored: a named set of pads that becomes one generated
/// struct.
pub struct CustomModuleConfig {
    /// The module's name, which its variable and file are derived from.
    pub name: String,
    /// An explicit struct name; empty means derived from `name`.
    pub struct_name: String,
    /// The pads the module groups, in the order the user added them.
    pub pins: Vec<usize>,
    /// How many times **Update** regenerated the module's file.
    pub revision: u32,
    /// The pads the generated struct was last built from.
    pub applied_pins: Vec<usize>,
    /// The pin fingerprint the generated struct was last built from.
    pub applied_sig: String,
}

/// The settings of any other kind of module, of which only the label is read
/// here.
pub struct GenericModuleConfig {
    pub label: String,
}

/// A module's settings, by kind.
pub enum ModuleConfig {
    Usart(UsartModuleConfig),
    Spi(SpiModuleConfig),
    I2c(I2cModuleConfig),
    Custom(CustomModuleConfig),
    Other(GenericModuleConfig),
}

/// The user's free-text label of a module.
pub open spec fn config_label(c: ModuleConfig) -> Seq<char> {
    match c {
        ModuleConfig::Usart(u) => u.label@,
        ModuleConfig::Spi(s) => s.label@,
        ModuleConfig::I2c(i) => i.label@,
        ModuleConfig::Custom(k) => k.name@,
        ModuleConfig::Other(o) => o.label@,
    }
}

impl ModuleConfig {
    /// The user's free-text label of this module.
    pub fn custom_label(&self) -> (r: &str)
        ensures
            r@ == config_label(*self),
    {
        match self {
            ModuleConfig::Usart(u) => u.label.as_str(),
            ModuleConfig::Spi(s) => s.label.as_str(),
            ModuleConfig::I2c(i) => i.label.as_str(),
            ModuleConfig::Custom(k) => k.name.as_str(),
            ModuleConfig::Other(o) => o.label.as_str(),
        }
    }
}

/// One wire: a module signal landing on a pad.
#[derive(Clone, Copy, PartialEq, Eq, Debug, Structural)]
pub struct Connection {
    pub signal: ModuleSignal,
    pub mcu_pin: usize,
}

/// A module drawn beside the chip.
pub struct VirtualModule {
    pub id: String,
    pub kind: ModuleKind,
    /// The display name, e.g. `_I2C1`.
    pub name: String,
    /// The peripheral instance the module stands for.
    pub instance: u8,
    pub config: ModuleConfig,
    pub connections: Vec<Connection>,
}

impl VirtualModule {
    /// The peripheral instance this module stands for.
    pub fn instance(&self) -> (r: u8)
        ensures
            r == self.instance,
    {
        self.instance
    }
}

pub(crate) fn copy_usizes(v: &Vec<usize>) -> (r: Vec<usize>)
    ensures
        r@ == v@,
{
    let mut r: Vec<usize> = Vec::new();
    let mut i: usize = 0;
    while i < v.len()
        invariant
            i <= v.len(),
            r@ == v@.subrange(0, i as int),
        decreases v.len() - i,
    {
        r.push(v[i]);
        i = i + 1;
        assert(r@ =~= v@.subrange(0, i as int));
    }
    assert(r@ =~= v@);
    r
}

fn copy_connections(v: &Vec<Connection>) -> (r: Vec<Connection>)
    ensures
        r@ == v@,
{
    let mut r: Vec<Connection> = Vec::new();
    let mut i: usize = 0;
    while i < v.len()
        invariant
            i <= v.len(),
            r@ == v@.subrange(0, i as int),
        decreases v.len() - i,
    {
        r.push(v[i]);
        i = i + 1;
        assert(r@ =~= v@.subrange(0, i as int));
    }
    assert(r@ =~= v@);
    r
}

/// Two module settings hold the same values (lists compared by content).
pub open spec fn config_same(a: ModuleConfig, b: ModuleConfig) -> bool {
    match (a, b) {
        (ModuleConfig::Usart(x), ModuleConfig::Usart(y)) => x == y,
        (ModuleConfig::Spi(x), ModuleConfig::Spi(y)) => x == y,
        (ModuleConfig::I2c(x), ModuleConfig::I2c(y)) => x == y,
        (ModuleConfig::Custom(x), ModuleConfig::Custom(y)) => x.name == y.name && x.struct_name
            == y.struct_name && x.pins@ == y.pins@ && x.revision == y.revision
            && x.applied_pins@ == y.applied_pins@ && x.applied_sig == y.applied_sig,
        (ModuleConfig::Other(x), ModuleConfig::Other(y)) => x == y,
        _ => false,
    }
}

/// Two modules hold the same values (lists compared by content).
pub open spec fn module_same(a: VirtualModule, b: VirtualModule) -> bool {
    &&& a.id == b.id
    &&& a.kind == b.kind
    &&& a.name == b.name
    &&& a.instance == b.instance
    &&& config_same(a.config, b.config)
    &&& a.connections@ == b.connections@
}

/// Two lists of modules hold the same modules, in the same order.
pub open spec fn modules_same(a: Seq<VirtualModule>, b: Seq<VirtualModule>) -> bool {
    a.len() == b.len() && forall|i: int| 0 <= i < a.len() ==> module_same(#[trigger] a[i], b[i])
}

impl ModuleConfig {
    /// An identical copy of these settings.
    pub fn duplicate(&self) -> (r: ModuleConfig)
        ensures
            config_same(r, *self),
    {
        match self {
            ModuleConfig::Usart(c) => ModuleConfig::Usart(
                UsartModuleConfig {
                    label: c.label.clone(),
                    api_style: c.api_style,
                    baud: c.baud,
                    parity: c.parity,
                    stop_bits: c.stop_bits,
                },
            ),
            ModuleConfig::Spi(c) => ModuleConfig::Spi(
                SpiModuleConfig {
                    label: c.label.clone(),
                    api_style: c.api_style,
                    async_mode: c.async_mode,
                },
            ),
            ModuleConfig::I2c(c) => ModuleConfig::I2c(
                I2cModuleConfig {
                    label: c.label.clone(),
                    api_style: c.api_style,
                    async_mode: c.async_mode,
                },
            ),
            ModuleConfig::Custom(c) => ModuleConfig::Custom(
                CustomModuleConfig {
                    name: c.name.clone(),
                    struct_name: c.struct_name.clone(),
                    pins: copy_usizes(&c.pins),
                    revision: c.revision,
                    applied_pins: copy_usizes(&c.applied_pins),
                    applied_sig: c.applied_sig.clone(),
                },
            ),
            ModuleConfig::Other(c) => ModuleConfig::Other(GenericModuleConfig { label: c.label.clone() }),
        }
    }
}

impl VirtualModule {
    /// An identical copy of this module.
    pub fn duplicate(&self) -> (r: VirtualModule)
        ensures
            module_same(r, *self),
    {
        VirtualModule {
            id: self.id.clone(),
            kind: self.kind,
            name: self.name.clone(),
            instance: self.instance,
            config: self.config.duplicate(),
            connections: copy_connections(&self.connections),
        }
    }
}

/// An identical copy of a list of modules.
pub fn copy_modules(v: &Vec<VirtualModule>) -> (r: Vec<VirtualModule>)
    ensures
        modules_same(r@, v@),
{
    let mut r: Vec<VirtualModule> = Vec::new();
    let mut i: usize = 0;
    while i < v.len()
        invariant
            i <= v.len(),
            r@.len() == i,
            forall|k: int| 0 <= k < i ==> module_same(#[trigger] r@[k], v@[k]),
        decreases v.len() - i,
    {
        r.push(v[i].duplicate());
        i = i + 1;
    }
    r
}

/// The `(api_style, async_mode)` a bus module carries. USART has no async
/// mode (its async form is always the embedded-io-async bridge), so it reports
/// `Blocking`; other kinds report the defaults.
pub open spec fn style_of(c: ModuleConfig) -> (ApiStyle, AsyncBusMode) {
    match c {
        ModuleConfig::Usart(u) => (u.api_style, AsyncBusMode::Blocking),
        ModuleConfig::Spi(s) => (s.api_style, s.async_mode),
        ModuleConfig::I2c(i) => (i.api_style, i.async_mode),
        _ => (ApiStyle::Portable, AsyncBusMode::Blocking),
    }
}

/// `c` with a staged style written into it: a USART takes the api style, SPI
/// and I2C take both, every other kind is left as it was.
pub open spec fn with_style(c: ModuleConfig, api: ApiStyle, mode: AsyncBusMode) -> ModuleConfig {
    match c {
        ModuleConfig::Usart(u) => ModuleConfig::Usart(UsartModuleConfig { api_style: api, ..u }),
        ModuleConfig::Spi(s) => ModuleConfig::Spi(
            SpiModuleConfig { api_style: api, async_mode: mode, ..s },
        ),
        ModuleConfig::I2c(i) => ModuleConfig::I2c(
            I2cModuleConfig { api_style: api, async_mode: mode, ..i },
        ),
        _ => c,
    }
}

/// The `(api_style, async_mode)` a bus module currently carries.
pub fn module_style(config: &ModuleConfig) -> (r: (ApiStyle, AsyncBusMode))
    ensures
        r == style_of(*config),
{
    match config {
        ModuleConfig::Usart(c) => (c.api_style, AsyncBusMode::Blocking),
        ModuleConfig::Spi(c) => (c.api_style, c.async_mode),
        ModuleConfig::I2c(c) => (c.api_style, c.async_mode),
        _ => (ApiStyle::Portable, AsyncBusMode::Blocking),
    }
}

/// Write a staged `(api_style, async_mode)` into a bus module's config.
pub fn set_module_style(config: &mut ModuleConfig, api: ApiStyle, async_mode: AsyncBusMode)
    ensures
        *final(config) == with_style(*old(config), api, async_mode),
{
    match config {
        ModuleConfig::Usart(c) => c.api_style = api,
        ModuleConfig::Spi(c) => {
            c.api_style = api;
            c.async_mode = async_mode;
        },
        ModuleConfig::I2c(c) => {
            c.api_style = api;
            c.async_mode = async_mode;
        },
        _ => {},
    }
}

/// Writing a style and reading it back: a USART reports the api style it was
/// given (its async mode stays `Blocking`), SPI and I2C report both halves, and
/// every other kind keeps reporting the defaults.
pub proof fn lemma_style_round_trip(c: ModuleConfig, api: ApiStyle, mode: AsyncBusMode)
    ensures
        style_of(with_style(c, api, mode)) == (match c {
            ModuleConfig::Usart(_) => (api, AsyncBusMode::Blocking),
            ModuleConfig::Spi(_) => (api, mode),
            ModuleConfig::I2c(_) => (api, mode),
            _ => (ApiStyle::Portable, AsyncBusMode::Blocking),
        }),
        config_label(with_style(c, api, mode)) == config_label(c),
{
}

/// Writing back the style a module already reports changes nothing.
pub proof fn lemma_style_rewrite_is_identity(c: ModuleConfig)
    ensures
        with_style(c, style_of(c).0, style_of(c).1) == c,
{
}



/// The length and first three letters of a short name.
spec fn name_head(s: Seq<char>) -> (nat, char, char, char) {
    (s.len(), s[0], s[1], s[2])
}

/// The length and first three letters of each kind's short name.
spec fn head_of(k: ModuleKind) -> (nat, char, char, char) {
    match k {
        ModuleKind::GenericInterfaceUsart => (5, 'U', 'S', 'A'),
        ModuleKind::GenericInterfaceLpuart => (6, 'L', 'P', 'U'),
        ModuleKind::GenericInterfaceSpi => (3, 'S', 'P', 'I'),
        ModuleKind::GenericInterfaceI2c => (3, 'I', '2', 'C'),
        ModuleKind::GenericInterfaceI2s => (3, 'I', '2', 'S'),
        ModuleKind::GenericInterfaceSai => (3, 'S', 'A', 'I'),
        ModuleKind::GenericInterfaceQspi => (4, 'Q', 'S', 'P'),
        ModuleKind::GenericInterfaceOspi => (4, 'O', 'S', 'P'),
        ModuleKind::GenericInterfaceXspi => (4, 'X', 'S', 'P'),
        ModuleKind::GenericInterfaceHspi => (4, 'H', 'S', 'P'),
        ModuleKind::GenericInterfaceSdmmc => (5, 'S', 'D', 'M'),
        ModuleKind::GenericInterfaceParlIo => (7, 'P', 'A', 'R'),
        ModuleKind::GenericInterfaceParlIoRx => (10, 'P', 'A', 'R'),
        ModuleKind::GenericInterfaceLcdCam => (7, 'L', 'C', 'D'),
        ModuleKind::GenericInterfaceCamera => (3, 'C', 'A', 'M'),
        ModuleKind::GenericInterfaceTimer => (3, 'T', 'I', 'M'),
        ModuleKind::GenericInterfaceMcpwm => (5, 'M', 'C', 'P'),
        ModuleKind::GenericInterfaceRmt => (3, 'R', 'M', 'T'),
        ModuleKind::GenericInterfaceDac => (3, 'D', 'A', 'C'),
        ModuleKind::GenericInterfaceTouch => (5, 'T', 'O', 'U'),
        ModuleKind::GenericInterfacePcnt => (4, 'P', 'C', 'N'),
        ModuleKind::GenericInterfaceCan => (3, 'C', 'A', 'N'),
        ModuleKind::GenericInterfaceUsb => (3, 'U', 'S', 'B'),
        ModuleKind::Custom => (6, 'C', 'u', 's'),
    }
}

proof fn lemma_name_head(k: ModuleKind)
    ensures
        name_head(short_name(k)) == head_of(k),
{
    match k {
        ModuleKind::GenericInterfaceUsart => {
            reveal_strlit("USART");
        },
        ModuleKind::GenericInterfaceLpuart => {
            reveal_strlit("LPUART");
        },
        ModuleKind::GenericInterfaceSpi => {
            reveal_strlit("SPI");
        },
        ModuleKind::GenericInterfaceI2c => {
            reveal_strlit("I2C");
        },
        ModuleKind::GenericInterfaceI2s => {
            reveal_strlit("I2S");
        },
        ModuleKind::GenericInterfaceSai => {
            reveal_strlit("SAI");
        },
        ModuleKind::GenericInterfaceQspi => {
            reveal_strlit("QSPI");
        },
        ModuleKind::GenericInterfaceOspi => {
            reveal_strlit("OSPI");
        },
        ModuleKind::GenericInterfaceXspi => {
            reveal_strlit("XSPI");
        },
        ModuleKind::GenericInterfaceHspi => {
            reveal_strlit("HSPI");
        },
        ModuleKind::GenericInterfaceSdmmc => {
            reveal_strlit("SDMMC");
        },
        ModuleKind::GenericInterfaceParlIo => {
            reveal_strlit("PARL_IO");
        },
        ModuleKind::GenericInterfaceParlIoRx => {
            reveal_strlit("PARL_IO_RX");
        },
        ModuleKind::GenericInterfaceLcdCam => {
            reveal_strlit("LCD_CAM");
        },
        ModuleKind::GenericInterfaceCamera => {
            reveal_strlit("CAM");
        },
        ModuleKind::GenericInterfaceTimer => {
            reveal_strlit("TIM");
        },
        ModuleKind::GenericInterfaceMcpwm => {
            reveal_strlit("MCPWM");
        },
        ModuleKind::GenericInterfaceRmt => {
            reveal_strlit("RMT");
        },
        ModuleKind::GenericInterfaceDac => {
            reveal_strlit("DAC");
        },
        ModuleKind::GenericInterfaceTouch => {
            reveal_strlit("TOUCH");
        },
        ModuleKind::GenericInterfacePcnt => {
            reveal_strlit("PCNT");
        },
        ModuleKind::GenericInterfaceCan => {
            reveal_strlit("CAN");
        },
        ModuleKind::GenericInterfaceUsb => {
            reveal_strlit("USB");
        },
        ModuleKind::Custom => {
            reveal_strlit("Custom");
        },
    }
}

/// No two kinds share a short name, so the short name alone says which kind
/// a module is.
pub proof fn lemma_short_names_distinct(a: ModuleKind, b: ModuleKind)
    requires
        a != b,
    ensures
        short_name(a) != short_name(b),
{
    lemma_name_head(a);
    lemma_name_head(b);
}

} // verus!
