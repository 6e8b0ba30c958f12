//! The names the canvas shows and the generator binds: module titles, the
//! identifiers of a Custom module, and the handle variables each kind yields.

use vstd::prelude::*;
use std::collections::HashMap;
use crate::modules::{
    config_label, ApiStyle, Connection, ModuleConfig, ModuleKind, ModuleSignal, UsartModuleConfig,
    VirtualModule,
};
use crate::text::{
    blank, camel, camel_case, dec, digit, is_blank, push_char, push_chars, push_dec, push_str, sanitize,
    sanitize_label, string_of, trim, trim_chars,
};

verus! {

broadcast use vstd::std_specs::hash::group_hash_axioms;

/// A module name without its leading `_` (e.g. `_I2C1` → `I2C1`).
pub open spec fn base_name(name: Seq<char>) -> Seq<char> {
    if name.len() > 0 && name[0] == '_' {
        name.drop_first()
    } else {
        name
    }
}

/// The module name without the `_` prefix (e.g. `_I2C1` → `I2C1`).
pub fn module_base_name(m: &VirtualModule) -> (r: &str)
    ensures
        r@ == base_name(m.name@),
{
    let s = m.name.as_str();
    let n = s.unicode_len();
    if n > 0 && s.get_char(0) == '_' {
        let r = s.substring_char(1, n);
        assert(r@ =~= m.name@.drop_first());
        r
    } else {
        s
    }
}

/// Display title: the base name, plus ` - ` and the user's raw label when the
/// label is not blank.
pub open spec fn title(m: VirtualModule) -> Seq<char> {
    let label = config_label(m.config);
    if is_blank(label) {
        base_name(m.name@)
    } else {
        base_name(m.name@) + " - "@ + label
    }
}

/// Display title for the module list/box: the base name plus the user's raw
/// label, verbatim — e.g. `_I2C1` + "128x32 display" → `I2C1 - 128x32 display`.
pub fn module_title(m: &VirtualModule) -> (r: String)
    ensures
        r@ == title(*m),
{
    let base = module_base_name(m);
    let label = m.config.custom_label();
    let mut out = String::new();
    push_str(&mut out, base);
    if !blank(label) {
        push_str(&mut out, " - ");
        push_str(&mut out, label);
    }
    assert(out@ =~= title(*m));
    out
}

/// `custom` followed by the instance number: the identifier a module with no
/// usable label falls back to.
pub open spec fn fallback_ident(instance: u8) -> Seq<char> {
    "custom"@ + dec(instance as nat)
}

/// A Custom module's variable: its sanitised label, or `custom{instance}` when
/// that is empty.
pub open spec fn var_name(m: VirtualModule) -> Seq<char> {
    let l = sanitize(config_label(m.config));
    if l.len() == 0 {
        fallback_ident(m.instance)
    } else {
        l
    }
}

fn push_fallback(out: &mut String, instance: u8)
    ensures
        final(out)@ == old(out)@ + fallback_ident(instance),
{
    push_str(out, "custom");
    push_dec(out, instance as u64);
    assert(out@ =~= old(out)@ + fallback_ident(instance));
}

/// Sanitised snake_case identifier for a custom module's variable, derived from
/// its name (empty / invalid → `custom{instance}`).
pub fn custom_var_name(m: &VirtualModule) -> (r: String)
    ensures
        r@ == var_name(*m),
{
    let lbl = sanitize_label(m.config.custom_label());
    if lbl.len() == 0 {
        let mut out = String::new();
        push_fallback(&mut out, m.instance);
        assert(out@ =~= var_name(*m));
        out
    } else {
        string_of(&lbl)
    }
}

/// The struct name a label implies: `CamelCase` of its sanitised form, or of
/// `custom{instance}` when that is empty.
pub open spec fn derived_struct(label: Seq<char>, instance: u8) -> Seq<char> {
    let l = sanitize(label);
    if l.len() == 0 {
        camel(fallback_ident(instance))
    } else {
        camel(l)
    }
}

/// `CamelCase` struct name implied by a module label — the hint shown in the
/// Struct field while the user hasn't typed one.
pub fn derived_struct_name(label: &str, instance: u8) -> (r: String)
    ensures
        r@ == derived_struct(label@, instance),
{
    let lbl = sanitize_label(label);
    if lbl.len() == 0 {
        let mut base = String::new();
        push_fallback(&mut base, instance);
        assert(base@ =~= fallback_ident(instance));
        let chars = crate::text::str_chars(base.as_str());
        camel_case(&chars)
    } else {
        camel_case(&lbl)
    }
}

/// A Custom module's struct: the user's explicit choice when it sanitises to
/// something, otherwise `CamelCase` of the module's variable.
pub open spec fn struct_name(m: VirtualModule) -> Seq<char> {
    match m.config {
        ModuleConfig::Custom(c) => if sanitize(c.struct_name@).len() > 0 {
            camel(sanitize(c.struct_name@))
        } else {
            camel(var_name(m))
        },
        _ => camel(var_name(m)),
    }
}

/// Struct name for a custom module: the user's explicit choice when set,
/// otherwise `CamelCase` of the module name (`temp sensor` → `TempSensor`).
pub fn custom_struct_name(m: &VirtualModule) -> (r: String)
    ensures
        r@ == struct_name(*m),
{
    if let ModuleConfig::Custom(c) = &m.config {
        let explicit = sanitize_label(c.struct_name.as_str());
        if explicit.len() > 0 {
            return camel_case(&explicit);
        }
    }
    let var = custom_var_name(m);
    let chars = crate::text::str_chars(var.as_str());
    camel_case(&chars)
}

/// The file stem shared by every revision of a Custom module's file.
pub open spec fn file_prefix(m: VirtualModule) -> Seq<char> {
    "custom_"@ + var_name(m)
}

/// The file stem of the current revision: `custom_<var>` at revision 0,
/// `custom_<var>_<n>` after the n-th Update.
pub open spec fn file_stem(m: VirtualModule) -> Seq<char> {
    match m.config {
        ModuleConfig::Custom(c) => if c.revision > 0 {
            file_prefix(m) + "_"@ + dec(c.revision as nat)
        } else {
            file_prefix(m)
        },
        _ => file_prefix(m),
    }
}

/// Module path stem of a Custom module's generated file — `custom_<name>` at
/// revision 0, `custom_<name>_<n>` after the n-th **Update**.
pub fn custom_file_stem(m: &VirtualModule) -> (r: String)
    ensures
        r@ == file_stem(*m),
{
    let var = custom_var_name(m);
    let mut out = String::new();
    push_str(&mut out, "custom_");
    push_str(&mut out, var.as_str());
    if let ModuleConfig::Custom(c) = &m.config {
        if c.revision > 0 {
            push_str(&mut out, "_");
            push_dec(&mut out, c.revision as u64);
        }
    }
    assert(out@ =~= file_stem(*m));
    out
}

/// The prefix every revision of a Custom module's file shares — used to keep the
/// older ones when the project tree prunes config files.
pub fn custom_file_prefix(m: &VirtualModule) -> (r: String)
    ensures
        r@ == file_prefix(*m),
{
    let var = custom_var_name(m);
    let mut out = String::new();
    push_str(&mut out, "custom_");
    push_str(&mut out, var.as_str());
    assert(out@ =~= file_prefix(*m));
    out
}

/// Every revision's file stem begins with the shared prefix, so pruning by the
/// prefix keeps all of a module's history.
pub proof fn lemma_stem_starts_with_prefix(m: VirtualModule)
    ensures
        file_prefix(m).len() <= file_stem(m).len(),
        file_stem(m).subrange(0, file_prefix(m).len() as int) == file_prefix(m),
{
    assert(file_stem(m).subrange(0, file_prefix(m).len() as int) =~= file_prefix(m));
}

// ── Pin-list fingerprint ────────────────────────────────────────────────────

/// The signature recorded for pin `n`, or `?` when there is none.
pub open spec fn sig_of(sigs: Map<usize, String>, n: usize) -> Seq<char> {
    if sigs.contains_key(n) {
        sigs[n]@
    } else {
        "?"@
    }
}

/// One pin's part of the fingerprint: `number:function|label`.
pub open spec fn sig_entry(sigs: Map<usize, String>, n: usize) -> Seq<char> {
    dec(n as nat) + ":"@ + sig_of(sigs, n)
}

/// Every pin's entry, in list order, joined by `;`.
pub open spec fn pins_sig(pins: Seq<usize>, sigs: Map<usize, String>) -> Seq<char>
    decreases pins.len(),
{
    if pins.len() == 0 {
        Seq::empty()
    } else if pins.len() == 1 {
        sig_entry(sigs, pins[0])
    } else {
        pins_sig(pins.drop_last(), sigs) + ";"@ + sig_entry(sigs, pins.last())
    }
}

/// Fingerprint of a Custom module's pin list — each pin's number plus its
/// `function|label` from `pin_sigs` (`?` for a pin with none), joined by `;`.
/// Compared against the applied one to decide whether **Update** has anything
/// to do.
pub fn custom_pins_sig(pins: &[usize], pin_sigs: &HashMap<usize, String>) -> (r: String)
    ensures
        r@ == pins_sig(pins@, pin_sigs@),
{
    let mut out = String::new();
    let mut i: usize = 0;
    while i < pins.len()
        invariant
            i <= pins.len(),
            out@ == pins_sig(pins@.subrange(0, i as int), pin_sigs@),
        decreases pins.len() - i,
    {
        if i > 0 {
            push_str(&mut out, ";");
        }
        push_dec(&mut out, pins[i] as u64);
        push_str(&mut out, ":");
        match pin_sigs.get(&pins[i]) {
            Some(v) => push_str(&mut out, v.as_str()),
            None => push_str(&mut out, "?"),
        }
        let ghost p = pins@.subrange(0, i + 1);
        assert(p.drop_last() =~= pins@.subrange(0, i as int));
        assert(p.last() == pins@[i as int]);
        assert(out@ =~= pins_sig(p, pin_sigs@));
        i = i + 1;
    }
    assert(pins@.subrange(0, pins@.len() as int) =~= pins@);
    out
}

/// `s` holds no `;`.
pub open spec fn no_semicolon(s: Seq<char>) -> bool {
    forall|i: int| 0 <= i < s.len() ==> s[i] != ';'
}

proof fn lemma_dec_no_semicolon(n: nat)
    ensures
        no_semicolon(dec(n)),
    decreases n,
{
    if n >= 10 {
        lemma_dec_no_semicolon(n / 10);
        assert(digit(n % 10) != ';') by {
            assert((n % 10 + 48) as u32 <= 57);
        }
    } else {
        assert(digit(n) != ';') by {
            assert((n + 48) as u32 <= 57);
        }
    }
}

/// `x1 ; e1` and `x2 ; e2` with `;`-free tails are equal only part by part.
proof fn lemma_split_last(x1: Seq<char>, e1: Seq<char>, x2: Seq<char>, e2: Seq<char>)
    requires
        no_semicolon(e1),
        no_semicolon(e2),
        x1 + ";"@ + e1 == x2 + ";"@ + e2,
    ensures
        x1 == x2,
        e1 == e2,
{
    reveal_strlit(";");
    let l = x1 + ";"@ + e1;
    let r = x2 + ";"@ + e2;
    let n = l.len();
    if e1.len() < e2.len() {
        let p = n - e1.len() - 1;
        assert(l[p] == ';');
        assert(r[p] == e2[p - (n - e2.len())]);
    } else if e2.len() < e1.len() {
        let p = n - e2.len() - 1;
        assert(r[p] == ';');
        assert(l[p] == e1[p - (n - e1.len())]);
    }
    assert(x1 =~= l.subrange(0, x1.len() as int));
    assert(x2 =~= r.subrange(0, x2.len() as int));
    assert(e1 =~= l.subrange(n - e1.len(), n as int));
    assert(e2 =~= r.subrange(n - e2.len(), n as int));
}

/// Two entries for one pin agree exactly when the signatures looked up agree.
proof fn lemma_entry_equal(a: Map<usize, String>, b: Map<usize, String>, n: usize)
    ensures
        sig_entry(a, n) == sig_entry(b, n) <==> sig_of(a, n) == sig_of(b, n),
{
    reveal_strlit(":");
    let h = dec(n as nat) + ":"@;
    if sig_entry(a, n) == sig_entry(b, n) {
        assert(sig_of(a, n) =~= sig_entry(a, n).subrange(h.len() as int, sig_entry(a, n).len() as int));
        assert(sig_of(b, n) =~= sig_entry(b, n).subrange(h.len() as int, sig_entry(b, n).len() as int));
    }
}

/// Two fingerprints of one pin list are the same text exactly when every pin
/// looks up the same signature in both (`?` for none) — provided no recorded
/// signature holds the `;` the entries are joined by.
pub proof fn lemma_pins_sig_equal_exactly_when_signatures_agree(
    pins: Seq<usize>,
    a: Map<usize, String>,
    b: Map<usize, String>,
)
    requires
        forall|k: usize| a.contains_key(k) ==> no_semicolon(#[trigger] a[k]@),
        forall|k: usize| b.contains_key(k) ==> no_semicolon(#[trigger] b[k]@),
    ensures
        pins_sig(pins, a) == pins_sig(pins, b) <==> forall|k: int|
            0 <= k < pins.len() ==> sig_of(a, #[trigger] pins[k]) == sig_of(b, pins[k]),
    decreases pins.len(),
{
    if pins.len() > 0 {
        let d = pins.drop_last();
        let n = pins.last();
        lemma_pins_sig_equal_exactly_when_signatures_agree(d, a, b);
        lemma_entry_equal(a, b, n);
        if pins.len() > 1 {
            lemma_dec_no_semicolon(n as nat);
            reveal_strlit(":");
            reveal_strlit("?");
            assert(no_semicolon(sig_of(a, n)));
            assert(no_semicolon(sig_of(b, n)));
            assert(no_semicolon(sig_entry(a, n)));
            assert(no_semicolon(sig_entry(b, n)));
            if pins_sig(pins, a) == pins_sig(pins, b) {
                lemma_split_last(pins_sig(d, a), sig_entry(a, n), pins_sig(d, b), sig_entry(b, n));
            }
        }
        if forall|k: int| 0 <= k < pins.len() ==> sig_of(a, #[trigger] pins[k]) == sig_of(b, pins[k]) {
            assert forall|k: int| 0 <= k < d.len() implies sig_of(a, #[trigger] d[k]) == sig_of(b, d[k]) by {
                assert(d[k] == pins[k]);
            }
            assert(sig_of(a, pins[pins.len() - 1]) == sig_of(b, pins[pins.len() - 1]));
        }
        if pins_sig(pins, a) == pins_sig(pins, b) {
            assert forall|k: int| 0 <= k < pins.len() implies sig_of(a, #[trigger] pins[k]) == sig_of(b, pins[k]) by {
                if k < d.len() {
                    assert(d[k] == pins[k]);
                }
            }
        }
    }
}

// ── Handle previews ────────────────────────────────────────────────────────

/// `_` and the sanitised label, or nothing when the label sanitises to
/// nothing.
pub open spec fn label_suffix(m: VirtualModule) -> Seq<char> {
    let l = sanitize(config_label(m.config));
    if l.len() == 0 {
        Seq::empty()
    } else {
        "_"@ + l
    }
}

fn push_suffix(out: &mut String, m: &VirtualModule)
    ensures
        final(out)@ == old(out)@ + label_suffix(*m),
{
    let lbl = sanitize_label(m.config.custom_label());
    if lbl.len() > 0 {
        push_str(out, "_");
        push_chars(out, &lbl);
    }
    assert(out@ =~= old(out)@ + label_suffix(*m));
}

/// `prefix`, the instance number, and the label suffix.
pub open spec fn numbered(prefix: Seq<char>, m: VirtualModule) -> Seq<char> {
    prefix + dec(m.instance as nat) + label_suffix(m)
}

fn push_numbered(out: &mut String, prefix: &str, m: &VirtualModule)
    ensures
        final(out)@ == old(out)@ + numbered(prefix@, *m),
{
    push_str(out, prefix);
    push_dec(out, m.instance as u64);
    push_suffix(out, m);
    assert(out@ =~= old(out)@ + numbered(prefix@, *m));
}

/// `prefix` and the label suffix, for a peripheral with no instance number.
pub open spec fn unnumbered(prefix: Seq<char>, m: VirtualModule) -> Seq<char> {
    prefix + label_suffix(m)
}

fn push_unnumbered(out: &mut String, prefix: &str, m: &VirtualModule)
    ensures
        final(out)@ == old(out)@ + unnumbered(prefix@, *m),
{
    push_str(out, prefix);
    push_suffix(out, m);
    assert(out@ =~= old(out)@ + unnumbered(prefix@, *m));
}

/// How many of `conns` carry signal `s`.
pub open spec fn signal_count(conns: Seq<Connection>, s: ModuleSignal) -> nat
    decreases conns.len(),
{
    if conns.len() == 0 {
        0
    } else {
        signal_count(conns.drop_last(), s) + if conns.last().signal == s {
            1nat
        } else {
            0nat
        }
    }
}

/// The MCPWM outputs in the order their handle names sort: operator 0 A, 0 B,
/// 1 A, 1 B, 2 A, 2 B.
pub open spec fn mcpwm_output(k: int) -> (ModuleSignal, Seq<char>) {
    if k == 0 {
        (ModuleSignal::McpwmA0, "_op0a"@)
    } else if k == 1 {
        (ModuleSignal::McpwmB0, "_op0b"@)
    } else if k == 2 {
        (ModuleSignal::McpwmA1, "_op1a"@)
    } else if k == 3 {
        (ModuleSignal::McpwmB1, "_op1b"@)
    } else if k == 4 {
        (ModuleSignal::McpwmA2, "_op2a"@)
    } else {
        (ModuleSignal::McpwmB2, "_op2b"@)
    }
}

/// `x` repeated `n` times.
pub open spec fn repeat(x: Seq<char>, n: nat) -> Seq<Seq<char>>
    decreases n,
{
    if n == 0 {
        Seq::empty()
    } else {
        repeat(x, (n - 1) as nat).push(x)
    }
}

/// The handle name of MCPWM output `k` of module `m`.
pub open spec fn mcpwm_name(m: VirtualModule, k: int) -> Seq<char> {
    "_mcpwm"@ + dec(m.instance as nat) + mcpwm_output(k).1 + label_suffix(m)
}

/// One handle per wired MCPWM output, in sorted order: outputs `0..k`, each
/// output's name as many times as a wire carries it.
pub open spec fn mcpwm_names(m: VirtualModule, k: nat) -> Seq<Seq<char>>
    decreases k,
{
    if k == 0 {
        Seq::empty()
    } else {
        mcpwm_names(m, (k - 1) as nat) + repeat(
            mcpwm_name(m, k - 1),
            signal_count(m.connections@, mcpwm_output(k - 1).0),
        )
    }
}

/// `list` joined by `sep`.
pub open spec fn join(list: Seq<Seq<char>>, sep: Seq<char>) -> Seq<char>
    decreases list.len(),
{
    if list.len() == 0 {
        Seq::empty()
    } else if list.len() == 1 {
        list[0]
    } else {
        join(list.drop_last(), sep) + sep + list.last()
    }
}

/// Whether a USART module is driven natively: the project-wide Native runtime,
/// or the module's own api style.
pub open spec fn usart_native(m: VirtualModule, native_forced: bool) -> bool {
    native_forced || match m.config {
        ModuleConfig::Usart(c) => c.api_style == ApiStyle::Native,
        _ => false,
    }
}

/// The generated handle variable name(s) of a module, comma-separated, with
/// the user's label appended.
pub open spec fn preview(m: VirtualModule, native_forced: bool) -> Seq<char> {
    match m.kind {
        ModuleKind::GenericInterfaceUsart => if usart_native(m, native_forced) {
            numbered("_tx"@, m) + ", "@ + numbered("_rx"@, m)
        } else {
            numbered("_serial"@, m)
        },
        ModuleKind::GenericInterfaceLpuart => numbered("_lpserial"@, m),
        ModuleKind::GenericInterfaceSpi => numbered("_spi"@, m),
        ModuleKind::GenericInterfaceI2c => numbered("_i2c"@, m),
        ModuleKind::GenericInterfaceI2s => numbered("_i2s"@, m),
        ModuleKind::GenericInterfaceRmt => numbered("_rmt"@, m),
        ModuleKind::GenericInterfacePcnt => numbered("_pcnt"@, m),
        ModuleKind::GenericInterfaceParlIo => unnumbered("_parl"@, m),
        ModuleKind::GenericInterfaceParlIoRx => unnumbered("_parl_rx"@, m),
        ModuleKind::GenericInterfaceLcdCam => unnumbered("_lcd"@, m),
        ModuleKind::GenericInterfaceCamera => unnumbered("_cam"@, m),
        ModuleKind::GenericInterfaceTouch => unnumbered("_touch"@, m),
        ModuleKind::GenericInterfaceMcpwm => join(mcpwm_names(m, 6), ", "@),
        ModuleKind::GenericInterfaceDac => numbered("_dac"@, m),
        ModuleKind::GenericInterfaceSai => "_sai"@ + dec(
            m.instance as nat,
        ) + "a"@ + label_suffix(m) + ", "@ + "_sai"@ + dec(m.instance as nat) + "b"@
            + label_suffix(m),
        ModuleKind::GenericInterfaceSdmmc => numbered("_sd"@, m),
        ModuleKind::GenericInterfaceQspi => unnumbered("_qspi"@, m),
        ModuleKind::GenericInterfaceOspi => numbered("_ospi"@, m),
        ModuleKind::GenericInterfaceXspi => numbered("_xspi"@, m),
        ModuleKind::GenericInterfaceHspi => numbered("_hspi"@, m),
        ModuleKind::GenericInterfaceTimer => numbered("_pwm"@, m),
        ModuleKind::GenericInterfaceCan => numbered("_can"@, m),
        ModuleKind::GenericInterfaceUsb => unnumbered("usb_dev"@, m) + ", "@ + unnumbered(
            "serial"@,
            m,
        ),
        ModuleKind::Custom => var_name(m) + ": "@ + struct_name(m),
    }
}

/// Appends `piece` to a `sep`-joined list that so far holds `names`.
fn push_joined(
    out: &mut String,
    Ghost(names): Ghost<Seq<Seq<char>>>,
    first: bool,
    piece: &String,
)
    requires
        old(out)@ == join(names, ", "@),
        first == (names.len() == 0),
    ensures
        final(out)@ == join(names.push(piece@), ", "@),
{
    if !first {
        push_str(out, ", ");
    }
    push_str(out, piece.as_str());
    assert(names.push(piece@).drop_last() =~= names);
    assert(out@ =~= join(names.push(piece@), ", "@));
}

fn mcpwm_handles(m: &VirtualModule) -> (r: String)
    requires
        m.kind == ModuleKind::GenericInterfaceMcpwm,
    ensures
        r@ == join(mcpwm_names(*m, 6), ", "@),
{
    let mut out = String::new();
    let ghost mut names: Seq<Seq<char>> = Seq::empty();
    let mut first = true;
    let mut k: usize = 0;
    while k < 6
        invariant
            k <= 6,
            first == (names.len() == 0),
            names == mcpwm_names(*m, k as nat),
            out@ == join(names, ", "@),
        decreases 6 - k,
    {
        let (sig, code) = if k == 0 {
            (ModuleSignal::McpwmA0, "_op0a")
        } else if k == 1 {
            (ModuleSignal::McpwmB0, "_op0b")
        } else if k == 2 {
            (ModuleSignal::McpwmA1, "_op1a")
        } else if k == 3 {
            (ModuleSignal::McpwmB1, "_op1b")
        } else if k == 4 {
            (ModuleSignal::McpwmA2, "_op2a")
        } else {
            (ModuleSignal::McpwmB2, "_op2b")
        };
        let mut name = String::new();
        push_str(&mut name, "_mcpwm");
        push_dec(&mut name, m.instance as u64);
        push_str(&mut name, code);
        push_suffix(&mut name, m);
        assert(name@ =~= mcpwm_name(*m, k as int));
        let ghost base = names;
        let mut j: usize = 0;
        while j < m.connections.len()
            invariant
                k < 6,
                j <= m.connections.len(),
                (sig, code@) == mcpwm_output(k as int),
                name@ == mcpwm_name(*m, k as int),
                names == base + repeat(
                    name@,
                    signal_count(m.connections@.subrange(0, j as int), sig),
                ),
                out@ == join(names, ", "@),
                first == (names.len() == 0),
            decreases m.connections.len() - j,
        {
            let ghost pre = m.connections@.subrange(0, j as int);
            assert(m.connections@.subrange(0, j + 1).drop_last() =~= pre);
            if m.connections[j].signal == sig {
                push_joined(&mut out, Ghost(names), first, &name);
                first = false;
                proof {
                    names = names.push(name@);
                    assert(base + repeat(name@, signal_count(pre, sig) + 1) =~= names);
                }
            }
            j = j + 1;
        }
        assert(m.connections@.subrange(0, m.connections@.len() as int) =~= m.connections@);
        k = k + 1;
    }
    out
}

/// Live preview of the generated handle variable name(s), with the user's
/// label appended. SPI/I2C have one handle; a Native USART has two.
pub fn handle_preview(m: &VirtualModule, native_forced: bool) -> (r: String)
    ensures
        r@ == preview(*m, native_forced),
{
    let mut out = String::new();
    match m.kind {
        ModuleKind::GenericInterfaceUsart => {
            let native = native_forced || match &m.config {
                ModuleConfig::Usart(c) => c.api_style == ApiStyle::Native,
                _ => false,
            };
            if native {
                push_numbered(&mut out, "_tx", m);
                push_str(&mut out, ", ");
                push_numbered(&mut out, "_rx", m);
            } else {
                push_numbered(&mut out, "_serial", m);
            }
        },
        ModuleKind::GenericInterfaceLpuart => push_numbered(&mut out, "_lpserial", m),
        ModuleKind::GenericInterfaceSpi => push_numbered(&mut out, "_spi", m),
        ModuleKind::GenericInterfaceI2c => push_numbered(&mut out, "_i2c", m),
        ModuleKind::GenericInterfaceI2s => push_numbered(&mut out, "_i2s", m),
        ModuleKind::GenericInterfaceRmt => push_numbered(&mut out, "_rmt", m),
        ModuleKind::GenericInterfacePcnt => push_numbered(&mut out, "_pcnt", m),
        ModuleKind::GenericInterfaceParlIo => push_unnumbered(&mut out, "_parl", m),
        ModuleKind::GenericInterfaceParlIoRx => push_unnumbered(&mut out, "_parl_rx", m),
        ModuleKind::GenericInterfaceLcdCam => push_unnumbered(&mut out, "_lcd", m),
        ModuleKind::GenericInterfaceCamera => push_unnumbered(&mut out, "_cam", m),
        ModuleKind::GenericInterfaceTouch => push_unnumbered(&mut out, "_touch", m),
        ModuleKind::GenericInterfaceMcpwm => {
            out = mcpwm_handles(m);
        },
        ModuleKind::GenericInterfaceDac => push_numbered(&mut out, "_dac", m),
        ModuleKind::GenericInterfaceSai => {
            push_str(&mut out, "_sai");
            push_dec(&mut out, m.instance as u64);
            push_str(&mut out, "a");
            push_suffix(&mut out, m);
            push_str(&mut out, ", ");
            push_str(&mut out, "_sai");
            push_dec(&mut out, m.instance as u64);
            push_str(&mut out, "b");
            push_suffix(&mut out, m);
        },
        ModuleKind::GenericInterfaceSdmmc => push_numbered(&mut out, "_sd", m),
        ModuleKind::GenericInterfaceQspi => push_unnumbered(&mut out, "_qspi", m),
        ModuleKind::GenericInterfaceOspi => push_numbered(&mut out, "_ospi", m),
        ModuleKind::GenericInterfaceXspi => push_numbered(&mut out, "_xspi", m),
        ModuleKind::GenericInterfaceHspi => push_numbered(&mut out, "_hspi", m),
        ModuleKind::GenericInterfaceTimer => push_numbered(&mut out, "_pwm", m),
        ModuleKind::GenericInterfaceCan => push_numbered(&mut out, "_can", m),
        ModuleKind::GenericInterfaceUsb => {
            push_unnumbered(&mut out, "usb_dev", m);
            push_str(&mut out, ", ");
            push_unnumbered(&mut out, "serial", m);
        },
        ModuleKind::Custom => {
            let var = custom_var_name(m);
            let name = custom_struct_name(m);
            push_str(&mut out, var.as_str());
            push_str(&mut out, ": ");
            push_str(&mut out, name.as_str());
        },
    }
    assert(out@ =~= preview(*m, native_forced));
    out
}

/// Adds `x` to `list` unless it is empty.
pub open spec fn keep_nonempty(list: Seq<Seq<char>>, x: Seq<char>) -> Seq<Seq<char>> {
    if x.len() > 0 {
        list.push(x)
    } else {
        list
    }
}

/// One step of splitting on `,`: the finished pieces (trimmed, empty ones
/// dropped) and the piece being read.
pub open spec fn split_step(st: (Seq<Seq<char>>, Seq<char>), c: char) -> (
    Seq<Seq<char>>,
    Seq<char>,
) {
    if c == ',' {
        (keep_nonempty(st.0, trim(st.1)), Seq::empty())
    } else {
        (st.0, st.1.push(c))
    }
}

/// The pieces of `s` before its last `,`, and the text after it.
pub open spec fn split_state(s: Seq<char>) -> (Seq<Seq<char>>, Seq<char>)
    decreases s.len(),
{
    if s.len() == 0 {
        (Seq::empty(), Seq::empty())
    } else {
        split_step(split_state(s.drop_last()), s.last())
    }
}

/// The `,`-separated pieces of `s`, each trimmed, the empty ones dropped.
pub open spec fn comma_pieces(s: Seq<char>) -> Seq<Seq<char>> {
    keep_nonempty(split_state(s).0, trim(split_state(s).1))
}

/// The views of a list of strings.
pub open spec fn views(v: Seq<String>) -> Seq<Seq<char>> {
    v.map_values(|x: String| x@)
}

fn push_piece(out: &mut Vec<String>, Ghost(done): Ghost<Seq<Seq<char>>>, cur: &Vec<char>)
    requires
        views(old(out)@) == done,
    ensures
        views(final(out)@) == keep_nonempty(done, trim(cur@)),
{
    let t = trim_chars(cur);
    if t.len() > 0 {
        let piece = string_of(&t);
        out.push(piece);
        assert(views(out@) =~= done.push(t@));
    }
}

/// The binding names a module generates, as a list: its handle preview split
/// at the commas, each name trimmed, empty ones dropped. A Native USART is two
/// handles (`_tx0, _rx0`), and searching for the joined string would match
/// neither line.
pub fn handle_names(m: &VirtualModule, native_forced: bool) -> (r: Vec<String>)
    ensures
        views(r@) == comma_pieces(preview(*m, native_forced)),
{
    let p = handle_preview(m, native_forced);
    let v = crate::text::str_chars(p.as_str());
    let mut out: Vec<String> = Vec::new();
    let mut cur: Vec<char> = Vec::new();
    let ghost mut done: Seq<Seq<char>> = Seq::empty();
    let mut i: usize = 0;
    assert(views(out@) =~= done);
    while i < v.len()
        invariant
            i <= v.len(),
            (done, cur@) == split_state(v@.subrange(0, i as int)),
            views(out@) == done,
        decreases v.len() - i,
    {
        assert(v@.subrange(0, i + 1).drop_last() =~= v@.subrange(0, i as int));
        let c = v[i];
        if c == ',' {
            push_piece(&mut out, Ghost(done), &cur);
            proof {
                done = keep_nonempty(done, trim(cur@));
            }
            cur = Vec::new();
            assert(cur@ =~= Seq::<char>::empty());
        } else {
            cur.push(c);
        }
        i = i + 1;
    }
    assert(v@.subrange(0, v@.len() as int) =~= v@);
    push_piece(&mut out, Ghost(done), &cur);
    out
}

/// A USART whose own api style is Native is driven natively whatever the
/// project-wide runtime: it previews as two handles, TX then RX, each
/// numbered by the instance and carrying the label.
pub proof fn lemma_native_usart_has_two_handles(
    m: VirtualModule,
    c: UsartModuleConfig,
    native_forced: bool,
)
    requires
        m.kind == ModuleKind::GenericInterfaceUsart,
        m.config == ModuleConfig::Usart(c),
        c.api_style == ApiStyle::Native,
    ensures
        preview(m, native_forced) == "_tx"@ + dec(m.instance as nat) + label_suffix(m) + ", "@
            + "_rx"@ + dec(m.instance as nat) + label_suffix(m),
{
}

/// Under the project-wide Native runtime every USART is two handles, TX then
/// RX, whatever its own api style.
pub proof fn lemma_forced_native_usart_has_two_handles(m: VirtualModule)
    requires
        m.kind == ModuleKind::GenericInterfaceUsart,
    ensures
        preview(m, true) == "_tx"@ + dec(m.instance as nat) + label_suffix(m) + ", "@ + "_rx"@
            + dec(m.instance as nat) + label_suffix(m),
{
}

/// A Portable USART outside the Native runtime is one serial handle.
pub proof fn lemma_portable_usart_has_one_handle(m: VirtualModule, c: UsartModuleConfig)
    requires
        m.kind == ModuleKind::GenericInterfaceUsart,
        m.config == ModuleConfig::Usart(c),
        c.api_style == ApiStyle::Portable,
    ensures
        preview(m, false) == "_serial"@ + dec(m.instance as nat) + label_suffix(m),
{
}

} // verus!
