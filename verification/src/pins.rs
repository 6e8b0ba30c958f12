//! Pin functions, the pins that carry them, and which functions travel
//! together as one peripheral group.

use vstd::prelude::*;

verus! {

/// What a pad is configured as.
#[derive(Clone, Copy, PartialEq, Eq, Debug, Structural)]
pub enum PinFunction {
    Unset,
    GpioInput,
    GpioOutput,
    AdcIn { adc: u8, channel: u8 },
    UsartTx(u8),
    UsartRx(u8),
    UsartCts(u8),
    UsartRts(u8),
    UsartCk(u8),
    LpuartTx(u8),
    LpuartRx(u8),
    LpuartCts(u8),
    LpuartRts(u8),
    SpiSck(u8),
    SpiMiso(u8),
    SpiMosi(u8),
    SpiNss(u8),
    I2cScl(u8),
    I2cSda(u8),
    I2sCk(u8),
    CanRx,
    CanTx,
    UsbDm,
    UsbDp,
    SwdIo,
    SwdClk,
    Mco,
    RmtChannel(u8),
    TouchPad(u8),
    TimerPwm { timer: u8, channel: u8 },
    TimerPwmN { timer: u8, channel: u8 },
    TimerBreak { timer: u8, input: u8 },
}

/// The edge an input pin's interrupt is armed on.
#[derive(Clone, Copy, PartialEq, Eq, Debug, Structural)]
pub enum IrqEdge {
    Rising,
    Falling,
    Both,
}

/// One pad of the package.
pub struct Pin {
    pub number: usize,
    pub name: String,
    /// Power, ground, reset and the like: never assignable.
    pub reserved: bool,
    pub selected_function: PinFunction,
    pub available_functions: Vec<PinFunction>,
    /// The user's label for the pin's generated binding.
    pub custom_label: String,
    /// The interrupt edge armed on the pad, when it is an input.
    pub irq: Option<IrqEdge>,
}

/// The functions that must be co-selected / co-deselected with `f`.
///
/// Selecting any member of a peripheral group auto-assigns the rest;
/// deselecting one removes the whole group. GPIO, ADC, timers, MCO, SPI NSS and
/// USART CK have no automatic partners.
pub open spec fn partners(f: PinFunction) -> Seq<PinFunction> {
    match f {
        PinFunction::UsartTx(n) => seq![PinFunction::UsartRx(n)],
        PinFunction::UsartRx(n) => seq![PinFunction::UsartTx(n)],
        PinFunction::UsartCts(n) => seq![PinFunction::UsartRts(n)],
        PinFunction::UsartRts(n) => seq![PinFunction::UsartCts(n)],
        PinFunction::LpuartTx(n) => seq![PinFunction::LpuartRx(n)],
        PinFunction::LpuartRx(n) => seq![PinFunction::LpuartTx(n)],
        PinFunction::LpuartCts(n) => seq![PinFunction::LpuartRts(n)],
        PinFunction::LpuartRts(n) => seq![PinFunction::LpuartCts(n)],
        PinFunction::SpiSck(n) => seq![PinFunction::SpiMiso(n), PinFunction::SpiMosi(n)],
        PinFunction::SpiMiso(n) => seq![PinFunction::SpiSck(n), PinFunction::SpiMosi(n)],
        PinFunction::SpiMosi(n) => seq![PinFunction::SpiSck(n), PinFunction::SpiMiso(n)],
        PinFunction::I2cScl(n) => seq![PinFunction::I2cSda(n)],
        PinFunction::I2cSda(n) => seq![PinFunction::I2cScl(n)],
        PinFunction::CanRx => seq![PinFunction::CanTx],
        PinFunction::CanTx => seq![PinFunction::CanRx],
        PinFunction::UsbDm => seq![PinFunction::UsbDp],
        PinFunction::UsbDp => seq![PinFunction::UsbDm],
        PinFunction::SwdIo => seq![PinFunction::SwdClk],
        PinFunction::SwdClk => seq![PinFunction::SwdIo],
        _ => seq![],
    }
}

/// The functions co-selected with `func`, as [`partners`] lists them.
pub fn partner_functions(func: &PinFunction) -> (r: Vec<PinFunction>)
    ensures
        r@ == partners(*func),
{
    let r = match *func {
        PinFunction::UsartTx(n) => vec![PinFunction::UsartRx(n)],
        PinFunction::UsartRx(n) => vec![PinFunction::UsartTx(n)],
        PinFunction::UsartCts(n) => vec![PinFunction::UsartRts(n)],
        PinFunction::UsartRts(n) => vec![PinFunction::UsartCts(n)],
        PinFunction::LpuartTx(n) => vec![PinFunction::LpuartRx(n)],
        PinFunction::LpuartRx(n) => vec![PinFunction::LpuartTx(n)],
        PinFunction::LpuartCts(n) => vec![PinFunction::LpuartRts(n)],
        PinFunction::LpuartRts(n) => vec![PinFunction::LpuartCts(n)],
        PinFunction::SpiSck(n) => vec![PinFunction::SpiMiso(n), PinFunction::SpiMosi(n)],
        PinFunction::SpiMiso(n) => vec![PinFunction::SpiSck(n), PinFunction::SpiMosi(n)],
        PinFunction::SpiMosi(n) => vec![PinFunction::SpiSck(n), PinFunction::SpiMiso(n)],
        PinFunction::I2cScl(n) => vec![PinFunction::I2cSda(n)],
        PinFunction::I2cSda(n) => vec![PinFunction::I2cScl(n)],
        PinFunction::CanRx => vec![PinFunction::CanTx],
        PinFunction::CanTx => vec![PinFunction::CanRx],
        PinFunction::UsbDm => vec![PinFunction::UsbDp],
        PinFunction::UsbDp => vec![PinFunction::UsbDm],
        PinFunction::SwdIo => vec![PinFunction::SwdClk],
        PinFunction::SwdClk => vec![PinFunction::SwdIo],
        _ => vec![],
    };
    assert(r@ =~= partners(*func));
    r
}

/// Partnership is mutual: `g` is co-selected with `f` exactly when `f` is
/// co-selected with `g`; and a function is never its own partner.
pub proof fn lemma_partners_symmetric(f: PinFunction, g: PinFunction)
    ensures
        partners(f).contains(g) <==> partners(g).contains(f),
        !partners(f).contains(f),
{
    assert(partners(f).contains(g) ==> partners(g).contains(f)) by {
        if partners(f).contains(g) {
            let i = choose|i: int| 0 <= i < partners(f).len() && partners(f)[i] == g;
            assert(partners(g)[0] == f || partners(g)[1] == f);
        }
    }
    assert(partners(g).contains(f) ==> partners(f).contains(g)) by {
        if partners(g).contains(f) {
            let i = choose|i: int| 0 <= i < partners(g).len() && partners(g)[i] == f;
            assert(partners(f)[0] == g || partners(f)[1] == g);
        }
    }
}

/// Each two- and three-wire bus travels as one group, on one peripheral
/// instance: TX with RX and CTS with RTS on a USART or LPUART, SCK with MISO
/// and MOSI on an SPI, SCL with SDA on an I2C, RX with TX on the CAN, D- with
/// D+ on the USB and SWDIO with SWCLK, each line naming the others of its bus
/// and nothing else.
pub proof fn lemma_bus_partners(n: u8)
    ensures
        partners(PinFunction::UsartTx(n)) == seq![PinFunction::UsartRx(n)],
        partners(PinFunction::UsartRx(n)) == seq![PinFunction::UsartTx(n)],
        partners(PinFunction::UsartCts(n)) == seq![PinFunction::UsartRts(n)],
        partners(PinFunction::UsartRts(n)) == seq![PinFunction::UsartCts(n)],
        partners(PinFunction::LpuartTx(n)) == seq![PinFunction::LpuartRx(n)],
        partners(PinFunction::LpuartRx(n)) == seq![PinFunction::LpuartTx(n)],
        partners(PinFunction::LpuartCts(n)) == seq![PinFunction::LpuartRts(n)],
        partners(PinFunction::LpuartRts(n)) == seq![PinFunction::LpuartCts(n)],
        partners(PinFunction::SpiSck(n)) == seq![PinFunction::SpiMiso(n), PinFunction::SpiMosi(n)],
        partners(PinFunction::SpiMiso(n)) == seq![PinFunction::SpiSck(n), PinFunction::SpiMosi(n)],
        partners(PinFunction::SpiMosi(n)) == seq![PinFunction::SpiSck(n), PinFunction::SpiMiso(n)],
        partners(PinFunction::I2cScl(n)) == seq![PinFunction::I2cSda(n)],
        partners(PinFunction::I2cSda(n)) == seq![PinFunction::I2cScl(n)],
        partners(PinFunction::CanRx) == seq![PinFunction::CanTx],
        partners(PinFunction::CanTx) == seq![PinFunction::CanRx],
        partners(PinFunction::UsbDm) == seq![PinFunction::UsbDp],
        partners(PinFunction::UsbDp) == seq![PinFunction::UsbDm],
        partners(PinFunction::SwdIo) == seq![PinFunction::SwdClk],
        partners(PinFunction::SwdClk) == seq![PinFunction::SwdIo],
{
}

/// Lines that stand alone are never grouped: GPIO, ADC, timer, MCO, SPI NSS
/// and USART CK pads select and clear on their own.
pub proof fn lemma_lone_lines(n: u8, m: u8)
    ensures
        partners(PinFunction::Unset).len() == 0,
        partners(PinFunction::GpioInput).len() == 0,
        partners(PinFunction::GpioOutput).len() == 0,
        partners(PinFunction::AdcIn { adc: n, channel: m }).len() == 0,
        partners(PinFunction::SpiNss(n)).len() == 0,
        partners(PinFunction::UsartCk(n)).len() == 0,
        partners(PinFunction::Mco).len() == 0,
        partners(PinFunction::TimerPwm { timer: n, channel: m }).len() == 0,
        partners(PinFunction::TimerPwmN { timer: n, channel: m }).len() == 0,
        partners(PinFunction::TimerBreak { timer: n, input: m }).len() == 0,
{
}

/// No partner is `Unset`: a group only ever names real lines.
pub proof fn lemma_partners_are_lines(f: PinFunction)
    ensures
        forall|i: int| 0 <= i < partners(f).len() ==> #[trigger] partners(f)[i] != PinFunction::Unset,
{
}

} // verus!
