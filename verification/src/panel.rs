//! Which rows a module's configuration panel has: the settings it draws, the
//! standing notes, the rows it explains as absent on this chip, and the
//! settings that live elsewhere. The panel draws exactly these lines; what
//! each row's control looks like is the drawing's business.

use vstd::prelude::*;
use crate::modules::{AsyncBusMode, ModuleKind, VirtualModule};
use crate::pwm::{advanced_timer, is_advanced_timer};
use crate::rp::{RP_DMA_NOTE, RP_I2C_NOTE};

verus! {

/// One line of a module's configuration panel.
#[derive(Clone, Copy, PartialEq, Eq, Debug)]
pub enum PanelLine {
    /// A setting the panel draws, by its label.
    Field(&'static str),
    /// A standing note, by its text.
    Note(&'static str),
    /// A setting this chip does not offer, explained rather than drawn.
    Skip(&'static str),
    /// A setting of the module that is edited somewhere else.
    Elsewhere(&'static str),
}

/// What the chip family's driver tables answer, and the module settings the
/// rows read that the module model here does not hold, as plain values.
#[derive(Clone, Copy, PartialEq, Eq, Debug)]
pub struct PanelFacts {
    /// The family is an RP2040 / RP2350.
    pub is_rp: bool,
    /// The family is an Espressif one.
    pub is_esp: bool,
    /// How many roles the family's driver offers the module (SPI master /
    /// slave, USB controllers).
    pub role_count: usize,
    /// The SPI module is a slave.
    pub slave: bool,
    /// How many CAN modes the family's driver offers.
    pub can_mode_count: usize,
    /// For a blocking bus on a family whose driver fixes a DMA channel per
    /// peripheral: `Some(on)`, `on` saying whether the module uses it.
    pub blocking_dma: Option<bool>,
    /// The USB controller in use is the OTG one.
    pub usb_otg: bool,
    /// The USART's async transport is DMA (rather than buffered).
    pub usart_dma: bool,
    /// The USART only transmits.
    pub usart_tx_only: bool,
    /// The USART runs half duplex on one wire.
    pub usart_half_duplex: bool,
    /// The touch scan runs continuously.
    pub touch_continuous: bool,
    /// The RMT channel transmits.
    pub rmt_tx: bool,
    /// How many of the module's units are wired: PCNT channels with an edge
    /// pad, SAI sub-blocks, DAC channels, timer channels with a pad.
    pub wired_units: usize,
    /// A timer has a complementary (`CHnN`) pad wired.
    pub timer_has_complementary: bool,
    /// How many break inputs (`BKIN`, `BKIN2`) a timer has wired.
    pub timer_breaks: usize,
    /// How many MCPWM operators have a pad wired.
    pub mcpwm_operators: usize,
    /// How many MCPWM timers those operators run on.
    pub mcpwm_timers: usize,
    /// An XSPI port has its first data strobe (`DQS0`) wired.
    pub xspi_strobe: bool,
    /// The LCD_CAM module is a camera.
    pub lcd_camera: bool,
    /// The LCD_CAM module drives an RGB (DPI) display.
    pub lcd_dpi: bool,
}

/// The lines every module's panel starts with: the settings it shares with
/// every module, edited in the list entry.
pub open spec fn shared_lines() -> Seq<PanelLine> {
    seq![
        PanelLine::Elsewhere("Instance"),
        PanelLine::Elsewhere("Name"),
        PanelLine::Elsewhere("Data models"),
    ]
}

/// The lines of an async bus's transport: the async init choice, and its
/// two DMA channels when the staged mode is Async-DMA.
pub open spec fn async_lines(pending: AsyncBusMode) -> Seq<PanelLine> {
    seq![PanelLine::Field("Async init")] + if pending == AsyncBusMode::AsyncDma {
        seq![PanelLine::Field("DMA TX"), PanelLine::Field("DMA RX")]
    } else {
        Seq::empty()
    }
}

/// An I2C module's rows: clock, a timeout on an async project, the address,
/// then how the bus is driven (a note on an async RP, the async transport
/// elsewhere when async, else the init API).
pub open spec fn i2c_lines(is_async: bool, pending: AsyncBusMode, f: PanelFacts) -> Seq<PanelLine> {
    seq![PanelLine::Field("Clock")] + (if is_async {
        seq![PanelLine::Field("Timeout")]
    } else {
        Seq::empty()
    }) + seq![PanelLine::Field("Address (7-bit)")] + if is_async && f.is_rp {
        seq![PanelLine::Note(RP_I2C_NOTE)]
    } else if is_async {
        async_lines(pending)
    } else {
        seq![PanelLine::Field("Init API")]
    }
}

/// How an SPI master's bus is driven.
pub open spec fn spi_transport_lines(
    is_async: bool,
    is_native: bool,
    pending: AsyncBusMode,
    f: PanelFacts,
) -> Seq<PanelLine> {
    if f.is_esp {
        seq![PanelLine::Field("Init API"), PanelLine::Field("Transfers")] + if pending
            == AsyncBusMode::AsyncDma {
            seq![PanelLine::Field("DMA channel")]
        } else {
            Seq::empty()
        }
    } else if is_async {
        if f.is_rp {
            seq![PanelLine::Field("Async init"), PanelLine::Note(RP_DMA_NOTE)]
        } else {
            async_lines(pending)
        }
    } else if is_native {
        seq![PanelLine::Field("Init API")]
    } else if f.blocking_dma is Some {
        seq![PanelLine::Field("Transport"), PanelLine::Field("Init API")]
    } else {
        seq![PanelLine::Field("Init API")]
    }
}

/// An SPI module's rows: the role (explained as absent when the family has
/// one), the mode, the bit order (async only), then for a slave the clock
/// and transfers it cannot choose, for a master its clock and transport.
pub open spec fn spi_lines(is_async: bool, is_native: bool, pending: AsyncBusMode, f: PanelFacts) -> Seq<
    PanelLine,
> {
    let role = if f.role_count == 1 {
        seq![PanelLine::Skip("Role")]
    } else if f.role_count > 1 {
        seq![PanelLine::Field("Role")]
    } else {
        Seq::empty()
    };
    let head = role + seq![PanelLine::Field("SPI mode")] + if is_async {
        seq![PanelLine::Field("Bit order")]
    } else {
        seq![PanelLine::Skip("Bit order")]
    };
    if f.slave {
        head + seq![PanelLine::Field("Clock"), PanelLine::Field("Transfers")]
    } else {
        head + seq![PanelLine::Field("Clock")] + spi_transport_lines(is_async, is_native, pending, f)
    }
}

/// A CAN module's rows: the bit rate, then the mode and transceiver where
/// the family offers a choice of mode, or the mode explained as absent where
/// it offers one.
pub open spec fn can_lines(f: PanelFacts) -> Seq<PanelLine> {
    seq![PanelLine::Field("Bit rate")] + if f.can_mode_count == 1 {
        seq![PanelLine::Skip("Mode")]
    } else if f.can_mode_count > 1 {
        seq![PanelLine::Field("Mode"), PanelLine::Field("Transceiver")]
    } else {
        Seq::empty()
    }
}

/// A USB module's rows: the controller where there is a choice; then on an
/// Espressif Serial/JTAG controller its fixed identity and port; otherwise
/// the descriptor fields, and the stack for an OTG controller.
pub open spec fn usb_lines(f: PanelFacts) -> Seq<PanelLine> {
    (if f.role_count > 1 {
        seq![PanelLine::Field("Controller")]
    } else {
        Seq::empty()
    }) + if f.is_esp && !f.usb_otg {
        seq![PanelLine::Field("Identity"), PanelLine::Field("Port")]
    } else {
        seq![
            PanelLine::Field("Product"),
            PanelLine::Field("Vendor ID"),
            PanelLine::Field("Product ID"),
        ] + if f.usb_otg {
            seq![PanelLine::Field("Stack")]
        } else {
            Seq::empty()
        }
    }
}

/// A Custom module's rows: its struct, its pads, the pad to add, Update and
/// the pads' functions.
pub open spec fn custom_lines() -> Seq<PanelLine> {
    seq![
        PanelLine::Field("Struct"),
        PanelLine::Field("Pins"),
        PanelLine::Field("Add pin"),
        PanelLine::Field("Update"),
        PanelLine::Field("Pin function"),
    ]
}

fn push_all(out: &mut Vec<PanelLine>, lines: &[PanelLine])
    ensures
        final(out)@ == old(out)@ + lines@,
{
    let mut i: usize = 0;
    while i < lines.len()
        invariant
            i <= lines@.len(),
            out@ == old(out)@ + lines@.subrange(0, i as int),
        decreases lines@.len() - i,
    {
        out.push(lines[i]);
        i = i + 1;
        assert(out@ =~= old(out)@ + lines@.subrange(0, i as int));
    }
    assert(lines@.subrange(0, lines@.len() as int) =~= lines@);
}

fn push_async(out: &mut Vec<PanelLine>, pending: AsyncBusMode)
    ensures
        final(out)@ == old(out)@ + async_lines(pending),
{
    out.push(PanelLine::Field("Async init"));
    if pending == AsyncBusMode::AsyncDma {
        out.push(PanelLine::Field("DMA TX"));
        out.push(PanelLine::Field("DMA RX"));
    }
    assert(out@ =~= old(out)@ + async_lines(pending));
}

/// The lines every module's panel starts with.
pub fn shared_panel_lines() -> (r: Vec<PanelLine>)
    ensures
        r@ == shared_lines(),
{
    let mut r: Vec<PanelLine> = Vec::new();
    push_all(
        &mut r,
        &[
            PanelLine::Elsewhere("Instance"),
            PanelLine::Elsewhere("Name"),
            PanelLine::Elsewhere("Data models"),
        ],
    );
    assert(r@ =~= shared_lines());
    r
}

/// An I2C module's rows, given whether the project is async and the staged
/// async mode.
pub fn i2c_panel_lines(is_async: bool, pending: AsyncBusMode, f: PanelFacts) -> (r: Vec<PanelLine>)
    ensures
        r@ == i2c_lines(is_async, pending, f),
{
    let mut r: Vec<PanelLine> = Vec::new();
    r.push(PanelLine::Field("Clock"));
    if is_async {
        r.push(PanelLine::Field("Timeout"));
    }
    r.push(PanelLine::Field("Address (7-bit)"));
    let ghost head = r@;
    if is_async && f.is_rp {
        r.push(PanelLine::Note(RP_I2C_NOTE));
    } else if is_async {
        push_async(&mut r, pending);
    } else {
        r.push(PanelLine::Field("Init API"));
    }
    assert(r@ =~= i2c_lines(is_async, pending, f));
    r
}

/// An SPI module's rows, given the runtime, the staged async mode and the
/// family's facts.
pub fn spi_panel_lines(is_async: bool, is_native: bool, pending: AsyncBusMode, f: PanelFacts) -> (r: Vec<
    PanelLine,
>)
    ensures
        r@ == spi_lines(is_async, is_native, pending, f),
{
    let mut r: Vec<PanelLine> = Vec::new();
    if f.role_count == 1 {
        r.push(PanelLine::Skip("Role"));
    } else if f.role_count > 1 {
        r.push(PanelLine::Field("Role"));
    }
    r.push(PanelLine::Field("SPI mode"));
    if is_async {
        r.push(PanelLine::Field("Bit order"));
    } else {
        r.push(PanelLine::Skip("Bit order"));
    }
    if f.slave {
        r.push(PanelLine::Field("Clock"));
        r.push(PanelLine::Field("Transfers"));
        assert(r@ =~= spi_lines(is_async, is_native, pending, f));
        return r;
    }
    r.push(PanelLine::Field("Clock"));
    let ghost head = r@;
    if f.is_esp {
        r.push(PanelLine::Field("Init API"));
        r.push(PanelLine::Field("Transfers"));
        if pending == AsyncBusMode::AsyncDma {
            r.push(PanelLine::Field("DMA channel"));
        }
    } else if is_async {
        if f.is_rp {
            r.push(PanelLine::Field("Async init"));
            r.push(PanelLine::Note(RP_DMA_NOTE));
        } else {
            push_async(&mut r, pending);
        }
    } else if is_native {
        r.push(PanelLine::Field("Init API"));
    } else if f.blocking_dma.is_some() {
        r.push(PanelLine::Field("Transport"));
        r.push(PanelLine::Field("Init API"));
    } else {
        r.push(PanelLine::Field("Init API"));
    }
    assert(r@ =~= head + spi_transport_lines(is_async, is_native, pending, f));
    assert(r@ =~= spi_lines(is_async, is_native, pending, f));
    r
}

/// A CAN module's rows, given the family's facts.
pub fn can_panel_lines(f: PanelFacts) -> (r: Vec<PanelLine>)
    ensures
        r@ == can_lines(f),
{
    let mut r: Vec<PanelLine> = Vec::new();
    r.push(PanelLine::Field("Bit rate"));
    if f.can_mode_count == 1 {
        r.push(PanelLine::Skip("Mode"));
    } else if f.can_mode_count > 1 {
        r.push(PanelLine::Field("Mode"));
        r.push(PanelLine::Field("Transceiver"));
    }
    assert(r@ =~= can_lines(f));
    r
}

/// A USB module's rows, given the family's facts.
pub fn usb_panel_lines(f: PanelFacts) -> (r: Vec<PanelLine>)
    ensures
        r@ == usb_lines(f),
{
    let mut r: Vec<PanelLine> = Vec::new();
    if f.role_count > 1 {
        r.push(PanelLine::Field("Controller"));
    }
    if f.is_esp && !f.usb_otg {
        r.push(PanelLine::Field("Identity"));
        r.push(PanelLine::Field("Port"));
    } else {
        r.push(PanelLine::Field("Product"));
        r.push(PanelLine::Field("Vendor ID"));
        r.push(PanelLine::Field("Product ID"));
        if f.usb_otg {
            r.push(PanelLine::Field("Stack"));
        }
    }
    assert(r@ =~= usb_lines(f));
    r
}

/// A Custom module's rows.
pub fn custom_panel_lines() -> (r: Vec<PanelLine>)
    ensures
        r@ == custom_lines(),
{
    let mut r: Vec<PanelLine> = Vec::new();
    push_all(
        &mut r,
        &[
            PanelLine::Field("Struct"),
            PanelLine::Field("Pins"),
            PanelLine::Field("Add pin"),
            PanelLine::Field("Update"),
            PanelLine::Field("Pin function"),
        ],
    );
    assert(r@ =~= custom_lines());
    r
}


/// A USART's line shape: its data direction, the line options, the
/// read-back switch on a half-duplex line, and flow control.
pub open spec fn direction_flow_lines(f: PanelFacts) -> Seq<PanelLine> {
    seq![PanelLine::Field("Data direction"), PanelLine::Field("Line")] + (if f.usart_half_duplex {
        seq![PanelLine::Field("Read back own TX")]
    } else {
        Seq::empty()
    }) + seq![PanelLine::Field("Hardware flow control")]
}

/// A USART (or LPUART) module's rows: baud rate; its receive buffer on an
/// async project (a DMA buffer in DMA mode; explained as absent on a
/// transmit-only DMA link); the frame; then, by family and runtime, the init
/// API, line shape and transfers (Espressif), the locked init API (native),
/// the async transport, line shape and DMA (async), or the blocking
/// transport where the family's driver fixes a DMA channel (with the line
/// shape explained as absent there), else the init API.
pub open spec fn usart_lines(is_async: bool, is_native: bool, f: PanelFacts) -> Seq<PanelLine> {
    let tx_only_dma = f.usart_dma && f.usart_tx_only;
    let head = seq![PanelLine::Field("Baud rate")] + (if tx_only_dma {
        seq![PanelLine::Skip("RX/TX buffer")]
    } else {
        Seq::empty()
    }) + (if is_async && !tx_only_dma {
        seq![
            PanelLine::Field(
                if f.usart_dma {
                    "RX DMA buffer"
                } else {
                    "RX/TX buffer"
                },
            ),
        ]
    } else {
        Seq::empty()
    }) + seq![
        PanelLine::Field("Data bits"),
        PanelLine::Field("Parity"),
        PanelLine::Field("Stop bits"),
    ];
    head + if f.is_esp {
        seq![PanelLine::Field("Init API")] + direction_flow_lines(f) + seq![PanelLine::Field("Transfers")]
    } else if is_native {
        seq![PanelLine::Field("Init API")]
    } else if is_async {
        seq![PanelLine::Field("Async transport")] + direction_flow_lines(f) + if f.is_rp {
            if f.usart_dma {
                seq![PanelLine::Note(RP_DMA_NOTE)]
            } else {
                Seq::empty()
            }
        } else if f.usart_dma {
            seq![PanelLine::Field("DMA TX"), PanelLine::Field("DMA RX")]
        } else {
            Seq::empty()
        }
    } else if f.blocking_dma is Some {
        seq![
            PanelLine::Skip("Data direction"),
            PanelLine::Skip("Line"),
            PanelLine::Skip("Hardware flow control"),
            PanelLine::Field("Transport"),
            PanelLine::Field("Init API"),
        ]
    } else {
        seq![PanelLine::Field("Init API")]
    }
}

fn push_direction_flow(out: &mut Vec<PanelLine>, f: PanelFacts)
    ensures
        final(out)@ == old(out)@ + direction_flow_lines(f),
{
    out.push(PanelLine::Field("Data direction"));
    out.push(PanelLine::Field("Line"));
    if f.usart_half_duplex {
        out.push(PanelLine::Field("Read back own TX"));
    }
    out.push(PanelLine::Field("Hardware flow control"));
    assert(out@ =~= old(out)@ + direction_flow_lines(f));
}

/// A USART (or LPUART) module's rows, given the runtime and the facts.
pub fn usart_panel_lines(is_async: bool, is_native: bool, f: PanelFacts) -> (r: Vec<PanelLine>)
    ensures
        r@ == usart_lines(is_async, is_native, f),
{
    let tx_only_dma = f.usart_dma && f.usart_tx_only;
    let mut r: Vec<PanelLine> = Vec::new();
    r.push(PanelLine::Field("Baud rate"));
    if tx_only_dma {
        r.push(PanelLine::Skip("RX/TX buffer"));
    }
    if is_async && !tx_only_dma {
        r.push(
            PanelLine::Field(
                if f.usart_dma {
                    "RX DMA buffer"
                } else {
                    "RX/TX buffer"
                },
            ),
        );
    }
    r.push(PanelLine::Field("Data bits"));
    r.push(PanelLine::Field("Parity"));
    r.push(PanelLine::Field("Stop bits"));
    let ghost head = r@;
    if f.is_esp {
        r.push(PanelLine::Field("Init API"));
        push_direction_flow(&mut r, f);
        r.push(PanelLine::Field("Transfers"));
    } else if is_native {
        r.push(PanelLine::Field("Init API"));
    } else if is_async {
        r.push(PanelLine::Field("Async transport"));
        push_direction_flow(&mut r, f);
        if f.is_rp {
            if f.usart_dma {
                r.push(PanelLine::Note(RP_DMA_NOTE));
            }
        } else if f.usart_dma {
            r.push(PanelLine::Field("DMA TX"));
            r.push(PanelLine::Field("DMA RX"));
        }
    } else if f.blocking_dma.is_some() {
        r.push(PanelLine::Skip("Data direction"));
        r.push(PanelLine::Skip("Line"));
        r.push(PanelLine::Skip("Hardware flow control"));
        r.push(PanelLine::Field("Transport"));
        r.push(PanelLine::Field("Init API"));
    } else {
        r.push(PanelLine::Field("Init API"));
    }
    assert(r@ =~= usart_lines(is_async, is_native, f));
    r
}


/// `lines` repeated `n` times.
pub open spec fn repeated(lines: Seq<PanelLine>, n: nat) -> Seq<PanelLine>
    decreases n,
{
    if n == 0 {
        Seq::empty()
    } else {
        repeated(lines, (n - 1) as nat) + lines
    }
}

/// A touch module's rows; the sleep between scans only for a continuous
/// scan.
pub open spec fn touch_lines(f: PanelFacts) -> Seq<PanelLine> {
    seq![
        PanelLine::Field("Scan"),
        PanelLine::Field("Touched when"),
        PanelLine::Field("Threshold"),
        PanelLine::Field("Measurement"),
        if f.touch_continuous {
            PanelLine::Field("Sleep cycles")
        } else {
            PanelLine::Skip("Sleep cycles")
        },
    ]
}

/// A parallel-IO module's rows.
pub open spec fn parl_io_lines() -> Seq<PanelLine> {
    seq![
        PanelLine::Field("Direction"),
        PanelLine::Field("Bus width"),
        PanelLine::Field("Clock"),
        PanelLine::Field("Bit order"),
        PanelLine::Field("DMA buffer"),
    ]
}

/// A quad-SPI flash module's rows.
pub open spec fn qspi_lines() -> Seq<PanelLine> {
    seq![PanelLine::Field("Wiring"), PanelLine::Field("Flash size"), PanelLine::Field("Address")]
}

/// An HSPI or OSPI memory port's rows.
pub open spec fn memory_port_lines() -> Seq<PanelLine> {
    seq![PanelLine::Field("Mode"), PanelLine::Field("Device")]
}

/// An SD/MMC module's rows.
pub open spec fn sdmmc_lines() -> Seq<PanelLine> {
    seq![PanelLine::Field("Bus width"), PanelLine::Field("Data timeout")]
}

/// An RMT channel's rows: the idle level when it transmits, the idle
/// threshold when it receives.
pub open spec fn rmt_lines(f: PanelFacts) -> Seq<PanelLine> {
    seq![
        PanelLine::Field("Direction"),
        PanelLine::Field("Clock divider"),
        if f.rmt_tx {
            PanelLine::Field("Idle level")
        } else {
            PanelLine::Field("Idle threshold")
        },
        PanelLine::Field("Carrier"),
    ]
}

/// A pulse counter's rows: what each wired channel counts and its control
/// input, the second channel to wire while at most one is, the limits and
/// the glitch filter.
pub open spec fn pcnt_lines(f: PanelFacts) -> Seq<PanelLine> {
    repeated(seq![PanelLine::Field("Counts"), PanelLine::Field("Control input")], f.wired_units as nat)
        + (if f.wired_units <= 1 {
        seq![PanelLine::Field("Second channel")]
    } else {
        Seq::empty()
    }) + seq![PanelLine::Field("Limits"), PanelLine::Field("Glitch filter")]
}

/// An SAI module's rows: the sub-blocks while none is wired, then for each
/// wired sub-block its stream, its frame and, async, its DMA.
pub open spec fn sai_lines(is_async: bool, f: PanelFacts) -> Seq<PanelLine> {
    (if f.wired_units == 0 {
        seq![PanelLine::Field("Sub-blocks")]
    } else {
        Seq::empty()
    }) + repeated(
        seq![PanelLine::Field("Stream"), PanelLine::Field("Frame")] + if is_async {
            seq![PanelLine::Field("DMA")]
        } else {
            Seq::empty()
        },
        f.wired_units as nat,
    )
}

/// A DAC module's rows: the channels while none is wired, then each wired
/// channel's start level.
pub open spec fn dac_lines(f: PanelFacts) -> Seq<PanelLine> {
    (if f.wired_units == 0 {
        seq![PanelLine::Field("Channels")]
    } else {
        Seq::empty()
    }) + repeated(seq![PanelLine::Field("Start level")], f.wired_units as nat)
}

/// An I2S module's rows; its DMA only on an async project.
pub open spec fn i2s_lines(is_async: bool) -> Seq<PanelLine> {
    seq![
        PanelLine::Field("Sample rate"),
        PanelLine::Field("Direction"),
        PanelLine::Field("Role"),
        PanelLine::Field("Standard"),
        PanelLine::Field("Format"),
        PanelLine::Field("Ring buffer"),
    ] + if is_async {
        seq![PanelLine::Field("DMA")]
    } else {
        Seq::empty()
    }
}

fn push_repeated(out: &mut Vec<PanelLine>, lines: &[PanelLine], n: usize)
    ensures
        final(out)@ == old(out)@ + repeated(lines@, n as nat),
{
    let mut k: usize = 0;
    while k < n
        invariant
            k <= n,
            out@ == old(out)@ + repeated(lines@, k as nat),
        decreases n - k,
    {
        push_all(out, lines);
        k = k + 1;
        assert(out@ =~= old(out)@ + repeated(lines@, k as nat));
    }
}

/// A touch module's rows.
pub fn touch_panel_lines(f: PanelFacts) -> (r: Vec<PanelLine>)
    ensures
        r@ == touch_lines(f),
{
    let mut r: Vec<PanelLine> = Vec::new();
    r.push(PanelLine::Field("Scan"));
    r.push(PanelLine::Field("Touched when"));
    r.push(PanelLine::Field("Threshold"));
    r.push(PanelLine::Field("Measurement"));
    if f.touch_continuous {
        r.push(PanelLine::Field("Sleep cycles"));
    } else {
        r.push(PanelLine::Skip("Sleep cycles"));
    }
    assert(r@ =~= touch_lines(f));
    r
}

/// A parallel-IO module's rows.
pub fn parl_io_panel_lines() -> (r: Vec<PanelLine>)
    ensures
        r@ == parl_io_lines(),
{
    let mut r: Vec<PanelLine> = Vec::new();
    push_all(
        &mut r,
        &[
            PanelLine::Field("Direction"),
            PanelLine::Field("Bus width"),
            PanelLine::Field("Clock"),
            PanelLine::Field("Bit order"),
            PanelLine::Field("DMA buffer"),
        ],
    );
    assert(r@ =~= parl_io_lines());
    r
}

/// A quad-SPI flash module's rows.
pub fn qspi_panel_lines() -> (r: Vec<PanelLine>)
    ensures
        r@ == qspi_lines(),
{
    let mut r: Vec<PanelLine> = Vec::new();
    push_all(&mut r, &[PanelLine::Field("Wiring"), PanelLine::Field("Flash size"), PanelLine::Field("Address")]);
    assert(r@ =~= qspi_lines());
    r
}

/// An HSPI or OSPI memory port's rows.
pub fn memory_port_panel_lines() -> (r: Vec<PanelLine>)
    ensures
        r@ == memory_port_lines(),
{
    let mut r: Vec<PanelLine> = Vec::new();
    push_all(&mut r, &[PanelLine::Field("Mode"), PanelLine::Field("Device")]);
    assert(r@ =~= memory_port_lines());
    r
}

/// An SD/MMC module's rows.
pub fn sdmmc_panel_lines() -> (r: Vec<PanelLine>)
    ensures
        r@ == sdmmc_lines(),
{
    let mut r: Vec<PanelLine> = Vec::new();
    push_all(&mut r, &[PanelLine::Field("Bus width"), PanelLine::Field("Data timeout")]);
    assert(r@ =~= sdmmc_lines());
    r
}

/// An RMT channel's rows.
pub fn rmt_panel_lines(f: PanelFacts) -> (r: Vec<PanelLine>)
    ensures
        r@ == rmt_lines(f),
{
    let mut r: Vec<PanelLine> = Vec::new();
    r.push(PanelLine::Field("Direction"));
    r.push(PanelLine::Field("Clock divider"));
    if f.rmt_tx {
        r.push(PanelLine::Field("Idle level"));
    } else {
        r.push(PanelLine::Field("Idle threshold"));
    }
    r.push(PanelLine::Field("Carrier"));
    assert(r@ =~= rmt_lines(f));
    r
}

/// A pulse counter's rows.
pub fn pcnt_panel_lines(f: PanelFacts) -> (r: Vec<PanelLine>)
    ensures
        r@ == pcnt_lines(f),
{
    let mut r: Vec<PanelLine> = Vec::new();
    push_repeated(&mut r, &[PanelLine::Field("Counts"), PanelLine::Field("Control input")], f.wired_units);
    assert(seq![PanelLine::Field("Counts"), PanelLine::Field("Control input")] =~= [PanelLine::Field("Counts"), PanelLine::Field("Control input")]@);
    if f.wired_units <= 1 {
        r.push(PanelLine::Field("Second channel"));
    }
    r.push(PanelLine::Field("Limits"));
    r.push(PanelLine::Field("Glitch filter"));
    assert(r@ =~= pcnt_lines(f));
    r
}

/// An SAI module's rows.
pub fn sai_panel_lines(is_async: bool, f: PanelFacts) -> (r: Vec<PanelLine>)
    ensures
        r@ == sai_lines(is_async, f),
{
    let mut r: Vec<PanelLine> = Vec::new();
    if f.wired_units == 0 {
        r.push(PanelLine::Field("Sub-blocks"));
    }
    let mut block: Vec<PanelLine> = Vec::new();
    block.push(PanelLine::Field("Stream"));
    block.push(PanelLine::Field("Frame"));
    if is_async {
        block.push(PanelLine::Field("DMA"));
    }
    assert(block@ =~= seq![PanelLine::Field("Stream"), PanelLine::Field("Frame")] + if is_async {
        seq![PanelLine::Field("DMA")]
    } else {
        Seq::empty()
    });
    push_repeated(&mut r, block.as_slice(), f.wired_units);
    assert(r@ =~= sai_lines(is_async, f));
    r
}

/// A DAC module's rows.
pub fn dac_panel_lines(f: PanelFacts) -> (r: Vec<PanelLine>)
    ensures
        r@ == dac_lines(f),
{
    let mut r: Vec<PanelLine> = Vec::new();
    if f.wired_units == 0 {
        r.push(PanelLine::Field("Channels"));
    }
    push_repeated(&mut r, &[PanelLine::Field("Start level")], f.wired_units);
    assert(seq![PanelLine::Field("Start level")] =~= [PanelLine::Field("Start level")]@);
    assert(r@ =~= dac_lines(f));
    r
}

/// An I2S module's rows.
pub fn i2s_panel_lines(is_async: bool) -> (r: Vec<PanelLine>)
    ensures
        r@ == i2s_lines(is_async),
{
    let mut r: Vec<PanelLine> = Vec::new();
    push_all(
        &mut r,
        &[
            PanelLine::Field("Sample rate"),
            PanelLine::Field("Direction"),
            PanelLine::Field("Role"),
            PanelLine::Field("Standard"),
            PanelLine::Field("Format"),
            PanelLine::Field("Ring buffer"),
        ],
    );
    if is_async {
        r.push(PanelLine::Field("DMA"));
    }
    assert(r@ =~= i2s_lines(is_async));
    r
}


/// The standing note on an Espressif timer.
pub const ESP_DUTY_NOTE: &'static str = "esp-hal's LEDC takes duty in WHOLE percent - a fraction is rounded up in the generated file.";

/// A timer module's rows: the frequency; the duty resolution on an
/// Espressif chip; the counter mode on an async project; the channels while
/// none is wired, else each wired channel's duty and (async) output shape;
/// on an async project with an advanced-control timer, the dead time when a
/// complementary pad is wired and each wired break input with what happens
/// after a fault; and the Espressif duty note. (Which pads can drive which
/// channel is said by [`crate::rp::rp_pwm_notes`] on an RP chip and by
/// [`crate::pwm::free_pwm_channels`] elsewhere.)
pub open spec fn timer_lines(is_async: bool, instance: u8, f: PanelFacts) -> Seq<PanelLine> {
    seq![PanelLine::Field("Frequency")] + (if f.is_esp {
        seq![PanelLine::Field("Duty resolution")]
    } else {
        Seq::empty()
    }) + (if is_async {
        seq![PanelLine::Field("Counter")]
    } else {
        Seq::empty()
    }) + (if f.wired_units == 0 {
        seq![PanelLine::Field("Channels")]
    } else {
        Seq::empty()
    }) + repeated(
        seq![PanelLine::Field("Channel duty")] + if is_async {
            seq![PanelLine::Field("Channel output")]
        } else {
            Seq::empty()
        },
        f.wired_units as nat,
    ) + (if f.timer_has_complementary && is_async && advanced_timer(instance) {
        seq![PanelLine::Field("Dead time")]
    } else {
        Seq::empty()
    }) + (if f.timer_breaks > 0 && is_async && advanced_timer(instance) {
        repeated(seq![PanelLine::Field("Break input")], f.timer_breaks as nat) + seq![
            PanelLine::Field("After a fault"),
        ]
    } else {
        Seq::empty()
    }) + if f.is_esp {
        seq![PanelLine::Note(ESP_DUTY_NOTE)]
    } else {
        Seq::empty()
    }
}

/// A timer module's rows.
pub fn timer_panel_lines(is_async: bool, instance: u8, f: PanelFacts) -> (r: Vec<PanelLine>)
    ensures
        r@ == timer_lines(is_async, instance, f),
{
    let mut r: Vec<PanelLine> = Vec::new();
    r.push(PanelLine::Field("Frequency"));
    if f.is_esp {
        r.push(PanelLine::Field("Duty resolution"));
    }
    if is_async {
        r.push(PanelLine::Field("Counter"));
    }
    if f.wired_units == 0 {
        r.push(PanelLine::Field("Channels"));
    }
    let ghost a = r@;
    let mut chan: Vec<PanelLine> = Vec::new();
    chan.push(PanelLine::Field("Channel duty"));
    if is_async {
        chan.push(PanelLine::Field("Channel output"));
    }
    assert(chan@ =~= seq![PanelLine::Field("Channel duty")] + if is_async {
        seq![PanelLine::Field("Channel output")]
    } else {
        Seq::empty()
    });
    push_repeated(&mut r, chan.as_slice(), f.wired_units);
    let ghost b = r@;
    let adv = is_advanced_timer(instance);
    if f.timer_has_complementary && is_async && adv {
        r.push(PanelLine::Field("Dead time"));
    }
    let ghost c = r@;
    if f.timer_breaks > 0 && is_async && adv {
        push_repeated(&mut r, &[PanelLine::Field("Break input")], f.timer_breaks);
        assert(seq![PanelLine::Field("Break input")] =~= [PanelLine::Field("Break input")]@);
        r.push(PanelLine::Field("After a fault"));
    }
    let ghost d = r@;
    if f.is_esp {
        r.push(PanelLine::Note(ESP_DUTY_NOTE));
    }
    assert(r@ =~= timer_lines(is_async, instance, f));
    r
}


/// An MCPWM module's rows: each wired operator's timer when more than one
/// operator is wired, each timer's frequency and resolution, and each wired
/// pad's duty.
pub open spec fn mcpwm_lines(f: PanelFacts) -> Seq<PanelLine> {
    (if f.mcpwm_operators > 1 {
        repeated(seq![PanelLine::Field("Operator timer")], f.mcpwm_operators as nat)
    } else {
        Seq::empty()
    }) + repeated(seq![PanelLine::Field("Frequency"), PanelLine::Field("Resolution")], f.mcpwm_timers as nat)
        + repeated(seq![PanelLine::Field("Duty")], f.wired_units as nat)
}

/// An XSPI port's rows: the mode, the device, and the strobe when its DQS0
/// pad is wired.
pub open spec fn xspi_lines(f: PanelFacts) -> Seq<PanelLine> {
    seq![PanelLine::Field("Mode"), PanelLine::Field("Device")] + if f.xspi_strobe {
        seq![PanelLine::Field("Strobe")]
    } else {
        Seq::empty()
    }
}

/// An LCD_CAM module's rows: the display mode (not for a camera), bus width
/// and pixel clock; a camera's master clock; an RGB display's timings; and
/// the transfers.
pub open spec fn lcd_cam_lines(f: PanelFacts) -> Seq<PanelLine> {
    (if !f.lcd_camera {
        seq![PanelLine::Field("Mode")]
    } else {
        Seq::empty()
    }) + seq![PanelLine::Field("Bus width"), PanelLine::Field("Pixel clock")] + (if f.lcd_camera {
        seq![PanelLine::Field("Master clock")]
    } else {
        Seq::empty()
    }) + (if !f.lcd_camera && f.lcd_dpi {
        seq![
            PanelLine::Field("Active area"),
            PanelLine::Field("Total"),
            PanelLine::Field("Front porch"),
            PanelLine::Field("Sync width"),
        ]
    } else {
        Seq::empty()
    }) + seq![PanelLine::Field("Transfers")]
}

/// An MCPWM module's rows.
pub fn mcpwm_panel_lines(f: PanelFacts) -> (r: Vec<PanelLine>)
    ensures
        r@ == mcpwm_lines(f),
{
    let mut r: Vec<PanelLine> = Vec::new();
    if f.mcpwm_operators > 1 {
        push_repeated(&mut r, &[PanelLine::Field("Operator timer")], f.mcpwm_operators);
        assert(seq![PanelLine::Field("Operator timer")] =~= [PanelLine::Field("Operator timer")]@);
    }
    let ghost a = r@;
    push_repeated(&mut r, &[PanelLine::Field("Frequency"), PanelLine::Field("Resolution")], f.mcpwm_timers);
    assert(seq![PanelLine::Field("Frequency"), PanelLine::Field("Resolution")] =~= [PanelLine::Field("Frequency"), PanelLine::Field("Resolution")]@);
    let ghost b = r@;
    push_repeated(&mut r, &[PanelLine::Field("Duty")], f.wired_units);
    assert(seq![PanelLine::Field("Duty")] =~= [PanelLine::Field("Duty")]@);
    assert(r@ =~= mcpwm_lines(f));
    r
}

/// An XSPI port's rows.
pub fn xspi_panel_lines(f: PanelFacts) -> (r: Vec<PanelLine>)
    ensures
        r@ == xspi_lines(f),
{
    let mut r: Vec<PanelLine> = Vec::new();
    r.push(PanelLine::Field("Mode"));
    r.push(PanelLine::Field("Device"));
    if f.xspi_strobe {
        r.push(PanelLine::Field("Strobe"));
    }
    assert(r@ =~= xspi_lines(f));
    r
}

/// An LCD_CAM module's rows.
pub fn lcd_cam_panel_lines(f: PanelFacts) -> (r: Vec<PanelLine>)
    ensures
        r@ == lcd_cam_lines(f),
{
    let mut r: Vec<PanelLine> = Vec::new();
    if !f.lcd_camera {
        r.push(PanelLine::Field("Mode"));
    }
    r.push(PanelLine::Field("Bus width"));
    r.push(PanelLine::Field("Pixel clock"));
    if f.lcd_camera {
        r.push(PanelLine::Field("Master clock"));
    }
    if !f.lcd_camera && f.lcd_dpi {
        r.push(PanelLine::Field("Active area"));
        r.push(PanelLine::Field("Total"));
        r.push(PanelLine::Field("Front porch"));
        r.push(PanelLine::Field("Sync width"));
    }
    r.push(PanelLine::Field("Transfers"));
    assert(r@ =~= lcd_cam_lines(f));
    r
}


/// A module's rows by kind.
pub open spec fn kind_lines(
    kind: ModuleKind,
    instance: u8,
    is_async: bool,
    is_native: bool,
    pending: AsyncBusMode,
    f: PanelFacts,
) -> Seq<PanelLine> {
    match kind {
        ModuleKind::GenericInterfaceUsart | ModuleKind::GenericInterfaceLpuart => usart_lines(is_async, is_native, f),
        ModuleKind::GenericInterfaceSpi => spi_lines(is_async, is_native, pending, f),
        ModuleKind::GenericInterfaceI2c => i2c_lines(is_async, pending, f),
        ModuleKind::GenericInterfaceI2s => i2s_lines(is_async),
        ModuleKind::GenericInterfaceSai => sai_lines(is_async, f),
        ModuleKind::GenericInterfaceQspi => qspi_lines(),
        ModuleKind::GenericInterfaceOspi | ModuleKind::GenericInterfaceHspi => memory_port_lines(),
        ModuleKind::GenericInterfaceXspi => xspi_lines(f),
        ModuleKind::GenericInterfaceSdmmc => sdmmc_lines(),
        ModuleKind::GenericInterfaceParlIo | ModuleKind::GenericInterfaceParlIoRx => parl_io_lines(),
        ModuleKind::GenericInterfaceLcdCam | ModuleKind::GenericInterfaceCamera => lcd_cam_lines(f),
        ModuleKind::GenericInterfaceTimer => timer_lines(is_async, instance, f),
        ModuleKind::GenericInterfaceMcpwm => mcpwm_lines(f),
        ModuleKind::GenericInterfaceRmt => rmt_lines(f),
        ModuleKind::GenericInterfaceDac => dac_lines(f),
        ModuleKind::GenericInterfaceTouch => touch_lines(f),
        ModuleKind::GenericInterfacePcnt => pcnt_lines(f),
        ModuleKind::GenericInterfaceCan => can_lines(f),
        ModuleKind::GenericInterfaceUsb => usb_lines(f),
        ModuleKind::Custom => custom_lines(),
    }
}

/// Everything a module's configuration panel lists: the shared settings
/// edited elsewhere, then the rows of its kind.
pub open spec fn panel_lines(
    m: VirtualModule,
    is_async: bool,
    is_native: bool,
    pending: AsyncBusMode,
    f: PanelFacts,
) -> Seq<PanelLine> {
    shared_lines() + kind_lines(m.kind, m.instance, is_async, is_native, pending, f)
}

/// The lines of module `m`'s configuration panel, given whether the project
/// runs async or native, the module's staged async mode, and the facts the
/// rows read.
pub fn config_panel_lines(
    m: &VirtualModule,
    is_async: bool,
    is_native: bool,
    pending: AsyncBusMode,
    f: PanelFacts,
) -> (r: Vec<PanelLine>)
    ensures
        r@ == panel_lines(*m, is_async, is_native, pending, f),
{
    let mut r = shared_panel_lines();
    let rest = match m.kind {
        ModuleKind::GenericInterfaceUsart | ModuleKind::GenericInterfaceLpuart => usart_panel_lines(is_async, is_native, f),
        ModuleKind::GenericInterfaceSpi => spi_panel_lines(is_async, is_native, pending, f),
        ModuleKind::GenericInterfaceI2c => i2c_panel_lines(is_async, pending, f),
        ModuleKind::GenericInterfaceI2s => i2s_panel_lines(is_async),
        ModuleKind::GenericInterfaceSai => sai_panel_lines(is_async, f),
        ModuleKind::GenericInterfaceQspi => qspi_panel_lines(),
        ModuleKind::GenericInterfaceOspi | ModuleKind::GenericInterfaceHspi => memory_port_panel_lines(),
        ModuleKind::GenericInterfaceXspi => xspi_panel_lines(f),
        ModuleKind::GenericInterfaceSdmmc => sdmmc_panel_lines(),
        ModuleKind::GenericInterfaceParlIo | ModuleKind::GenericInterfaceParlIoRx => parl_io_panel_lines(),
        ModuleKind::GenericInterfaceLcdCam | ModuleKind::GenericInterfaceCamera => lcd_cam_panel_lines(f),
        ModuleKind::GenericInterfaceTimer => timer_panel_lines(is_async, m.instance, f),
        ModuleKind::GenericInterfaceMcpwm => mcpwm_panel_lines(f),
        ModuleKind::GenericInterfaceRmt => rmt_panel_lines(f),
        ModuleKind::GenericInterfaceDac => dac_panel_lines(f),
        ModuleKind::GenericInterfaceTouch => touch_panel_lines(f),
        ModuleKind::GenericInterfacePcnt => pcnt_panel_lines(f),
        ModuleKind::GenericInterfaceCan => can_panel_lines(f),
        ModuleKind::GenericInterfaceUsb => usb_panel_lines(f),
        ModuleKind::Custom => custom_panel_lines(),
    };
    push_all(&mut r, rest.as_slice());
    r
}

} // verus!
