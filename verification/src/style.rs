//! The System tab's staged code-generation style: the runtime, the GPIO api and
//! each module's `(api_style, async_mode)` are edited as pending choices and
//! committed together by **Apply**.

use vstd::prelude::*;
use crate::model::{runtime_token, Mcu};
use crate::modules::{
    module_style, set_module_style, style_of, with_style, ApiStyle, AsyncBusMode, ModuleConfig,
    VirtualModule,
};
use crate::naming::{base_name, module_base_name, views};
use crate::text::{owned, push_str};

verus! {

/// One staged entry as plain values: the module id and its staged style.
pub open spec fn staged_views(p: Seq<(String, (ApiStyle, AsyncBusMode))>) -> Seq<
    (Seq<char>, (ApiStyle, AsyncBusMode)),
> {
    p.map_values(|e: (String, (ApiStyle, AsyncBusMode))| (e.0@, e.1))
}

/// The style staged for module `id`: the latest entry under that id, as a
/// map keeps the last value written to a key.
pub open spec fn staged(p: Seq<(Seq<char>, (ApiStyle, AsyncBusMode))>, id: Seq<char>) -> Option<
    (ApiStyle, AsyncBusMode),
>
    decreases p.len(),
{
    if p.len() == 0 {
        None
    } else if p.last().0 == id {
        Some(p.last().1)
    } else {
        staged(p.drop_last(), id)
    }
}

/// The staged style of module `id`, if one is staged.
fn staged_for(p: &Vec<(String, (ApiStyle, AsyncBusMode))>, id: &String) -> (r: Option<
    (ApiStyle, AsyncBusMode),
>)
    ensures
        r == staged(staged_views(p@), id@),
{
    let mut i: usize = p.len();
    assert(staged_views(p@).subrange(0, i as int) =~= staged_views(p@));
    while i > 0
        invariant
            i <= p.len(),
            staged(staged_views(p@), id@) == staged(
                staged_views(p@).subrange(0, i as int),
                id@,
            ),
        decreases i,
    {
        let ghost sub = staged_views(p@).subrange(0, i as int);
        assert(sub.last() == staged_views(p@)[i - 1]);
        if p[i - 1].0 == *id {
            return Some(p[i - 1].1);
        }
        assert(sub.drop_last() =~= staged_views(p@).subrange(0, i - 1));
        i = i - 1;
    }
    None
}

/// The staged entries a sync leaves: every module's id with the style it
/// currently carries, in module order.
pub open spec fn current_styles(ms: Seq<VirtualModule>) -> Seq<(Seq<char>, (ApiStyle, AsyncBusMode))> {
    ms.map_values(|m: VirtualModule| (m.id@, style_of(m.config)))
}

/// Module `m` once Apply has committed the style staged for it, if any.
pub open spec fn applied_module(m: VirtualModule, s: Option<(ApiStyle, AsyncBusMode)>) -> VirtualModule {
    match s {
        Some(st) => VirtualModule { config: with_style(m.config, st.0, st.1), ..m },
        None => m,
    }
}

/// Module `m` differs from what is staged for it.
pub open spec fn module_dirty(m: VirtualModule, p: Seq<(Seq<char>, (ApiStyle, AsyncBusMode))>) -> bool {
    match staged(p, m.id@) {
        Some(st) => st != style_of(m.config),
        None => false,
    }
}

/// No two modules share an id.
pub open spec fn ids_distinct(ms: Seq<VirtualModule>) -> bool {
    forall|a: int, b: int|
        0 <= a < ms.len() && 0 <= b < ms.len() && a != b ==> #[trigger] ms[a].id@ != #[trigger] ms[b].id@
}

/// The staged style fits the module: writing it and reading it back gives
/// the same style (a USART has no async mode; a kind without a bus style
/// keeps the defaults).
pub open spec fn style_fits(m: VirtualModule, s: Option<(ApiStyle, AsyncBusMode)>) -> bool {
    match s {
        Some(st) => style_of(with_style(m.config, st.0, st.1)) == st,
        None => true,
    }
}

/// How an api style is spelled in the Apply prompt.
pub open spec fn api_text(a: ApiStyle) -> Seq<char> {
    match a {
        ApiStyle::Portable => "Portable"@,
        ApiStyle::Native => "Native"@,
    }
}

fn api_str(a: ApiStyle) -> (r: &'static str)
    ensures
        r@ == api_text(a),
{
    match a {
        ApiStyle::Portable => "Portable",
        ApiStyle::Native => "Native",
    }
}

/// How a bus transport is spelled in the Apply prompt.
pub open spec fn mode_text(m: AsyncBusMode) -> Seq<char> {
    match m {
        AsyncBusMode::Blocking => "Blocking"@,
        AsyncBusMode::AsyncDma => "Async-DMA"@,
    }
}

fn mode_str(m: AsyncBusMode) -> (r: &'static str)
    ensures
        r@ == mode_text(m),
{
    match m {
        AsyncBusMode::Blocking => "Blocking",
        AsyncBusMode::AsyncDma => "Async-DMA",
    }
}

/// `{what}: {from} -> {to}`.
pub open spec fn change_line(what: Seq<char>, from: Seq<char>, to: Seq<char>) -> Seq<char> {
    what + ": "@ + from + " -> "@ + to
}

fn change_text(what: &str, from: &str, to: &str) -> (r: String)
    ensures
        r@ == change_line(what@, from@, to@),
{
    let mut out = owned(what);
    push_str(&mut out, ": ");
    push_str(&mut out, from);
    push_str(&mut out, " -> ");
    push_str(&mut out, to);
    out
}

/// The prompt lines for one module: its init api when that changes, and its
/// transport when that changes on a kind that has one (not a USART).
pub open spec fn module_diff(m: VirtualModule, s: Option<(ApiStyle, AsyncBusMode)>) -> Seq<Seq<char>> {
    match s {
        None => Seq::empty(),
        Some(st) => {
            let cur = style_of(m.config);
            let name = base_name(m.name@);
            (if st.0 != cur.0 {
                seq![change_line(name + " init"@, api_text(cur.0), api_text(st.0))]
            } else {
                Seq::empty()
            }) + (if st.1 != cur.1 && !(m.config is Usart) {
                seq![change_line(name + " async"@, mode_text(cur.1), mode_text(st.1))]
            } else {
                Seq::empty()
            })
        },
    }
}

/// The prompt lines for a list of modules, in order.
pub open spec fn modules_diff(
    ms: Seq<VirtualModule>,
    p: Seq<(Seq<char>, (ApiStyle, AsyncBusMode))>,
) -> Seq<Seq<char>>
    decreases ms.len(),
{
    if ms.len() == 0 {
        Seq::empty()
    } else {
        modules_diff(ms.drop_last(), p) + module_diff(ms.last(), staged(p, ms.last().id@))
    }
}

impl Mcu {
    /// The lines the Apply prompt lists: the runtime change, the GPIO api
    /// change, then each module's changes.
    pub open spec fn diff_summary(self) -> Seq<Seq<char>> {
        (if self.pending_runtime != self.runtime {
            seq![change_line("Runtime"@, runtime_token(self.runtime), runtime_token(self.pending_runtime))]
        } else {
            Seq::empty()
        }) + (if self.pending_gpio_api != self.gpio_api {
            seq![change_line("GPIO In/Out"@, api_text(self.gpio_api), api_text(self.pending_gpio_api))]
        } else {
            Seq::empty()
        }) + modules_diff(self.modules@, staged_views(self.pending_module_styles@))
    }

    /// What [`Mcu::sync_pending_style`] does: the staged choices become the
    /// applied ones and the Apply prompt closes; nothing else changes.
    pub open spec fn style_synced(self, next: Mcu) -> bool {
        &&& staged_views(next.pending_module_styles@) == current_styles(self.modules@)
        &&& next == (Mcu {
            pending_runtime: self.runtime,
            pending_gpio_api: self.gpio_api,
            pending_module_styles: next.pending_module_styles,
            pending_apply_confirm: false,
            ..self
        })
    }

    /// What [`Mcu::apply_pending_style`] does: the staged runtime, GPIO api and
    /// module styles are committed, the prompt closes and the next regeneration
    /// is forced; nothing else changes.
    pub open spec fn style_applied(self, next: Mcu) -> bool {
        &&& next.modules@.len() == self.modules@.len()
        &&& forall|i: int|
            0 <= i < self.modules@.len() ==> #[trigger] next.modules@[i] == applied_module(
                self.modules@[i],
                staged(staged_views(self.pending_module_styles@), self.modules@[i].id@),
            )
        &&& next == (Mcu {
            runtime: self.pending_runtime,
            gpio_api: self.pending_gpio_api,
            modules: next.modules,
            pending_apply_confirm: false,
            config_regen_forced: true,
            ..self
        })
    }

    /// Some staged choice differs from the applied one.
    pub open spec fn dirty(self) -> bool {
        ||| self.pending_runtime != self.runtime
        ||| self.pending_gpio_api != self.gpio_api
        ||| exists|i: int|
            0 <= i < self.modules@.len() && #[trigger] module_dirty(
                self.modules@[i],
                staged_views(self.pending_module_styles@),
            )
    }

    /// Reset the staged (`pending_*`) choices to the currently APPLIED ones —
    /// so nothing shows as dirty. Called on project load and right after an
    /// Apply.
    pub fn sync_pending_style(&mut self)
        ensures
            old(self).style_synced(*final(self)),
    {
        self.pending_runtime = self.runtime;
        self.pending_gpio_api = self.gpio_api;
        let mut styles: Vec<(String, (ApiStyle, AsyncBusMode))> = Vec::new();
        let mut i: usize = 0;
        while i < self.modules.len()
            invariant
                i <= self.modules@.len(),
                staged_views(styles@) == current_styles(self.modules@).subrange(0, i as int),
            decreases self.modules@.len() - i,
        {
            let m = &self.modules[i];
            let ghost prev = styles@;
            let id = m.id.clone();
            let st = module_style(&m.config);
            styles.push((id, st));
            assert(staged_views(styles@) =~= staged_views(prev).push((m.id@, st)));
            assert(staged_views(styles@) =~= current_styles(self.modules@).subrange(0, i + 1));
            i = i + 1;
        }
        assert(staged_views(styles@) =~= current_styles(self.modules@));
        self.pending_module_styles = styles;
        self.pending_apply_confirm = false;
    }

    /// Commit the staged choices into the applied fields — the runtime, GPIO
    /// api and each module's `api_style`/`async_mode` — and force the next
    /// config regeneration to rewrite the templates in full.
    pub fn apply_pending_style(&mut self)
        ensures
            old(self).style_applied(*final(self)),
    {
        self.runtime = self.pending_runtime;
        self.gpio_api = self.pending_gpio_api;
        let ghost start = self.modules@;
        let mut i: usize = 0;
        while i < self.modules.len()
            invariant
                i <= self.modules@.len(),
                self.modules@.len() == start.len(),
                start == old(self).modules@,
                *self == (Mcu {
                    runtime: old(self).pending_runtime,
                    gpio_api: old(self).pending_gpio_api,
                    modules: self.modules,
                    ..*old(self)
                }),
                forall|j: int|
                    0 <= j < i ==> #[trigger] self.modules@[j] == applied_module(
                        start[j],
                        staged(staged_views(self.pending_module_styles@), start[j].id@),
                    ),
                forall|j: int| i <= j < start.len() ==> #[trigger] self.modules@[j] == start[j],
            decreases self.modules@.len() - i,
        {
            let s = staged_for(&self.pending_module_styles, &self.modules[i].id);
            match s {
                Some(st) => {
                    let mut m = self.modules.remove(i);
                    set_module_style(&mut m.config, st.0, st.1);
                    self.modules.insert(i, m);
                },
                None => {},
            }
            i = i + 1;
        }
        self.pending_apply_confirm = false;
        self.config_regen_forced = true;
    }

    /// Human-readable lines of what an Apply would change (for the confirm
    /// prompt). Empty when nothing is staged.
    pub fn style_diff_summary(&self) -> (r: Vec<String>)
        ensures
            views(r@) == self.diff_summary(),
    {
        let mut out: Vec<String> = Vec::new();
        if self.pending_runtime != self.runtime {
            out.push(change_text("Runtime", self.runtime.as_token(), self.pending_runtime.as_token()));
        }
        if self.pending_gpio_api != self.gpio_api {
            out.push(change_text("GPIO In/Out", api_str(self.gpio_api), api_str(self.pending_gpio_api)));
        }
        let ghost head = views(out@);
        let mut i: usize = 0;
        while i < self.modules.len()
            invariant
                i <= self.modules@.len(),
                views(out@) == head + modules_diff(
                    self.modules@.subrange(0, i as int),
                    staged_views(self.pending_module_styles@),
                ),
            decreases self.modules@.len() - i,
        {
            let m = &self.modules[i];
            let ghost before = views(out@);
            assert(self.modules@.subrange(0, i + 1).drop_last() =~= self.modules@.subrange(0, i as int));
            match staged_for(&self.pending_module_styles, &m.id) {
                Some(st) => {
                    let cur = module_style(&m.config);
                    let name = module_base_name(m);
                    if st.0 != cur.0 {
                        let mut what = owned(name);
                        push_str(&mut what, " init");
                        out.push(change_text(what.as_str(), api_str(cur.0), api_str(st.0)));
                    }
                    let is_usart = match &m.config {
                        ModuleConfig::Usart(_) => true,
                        _ => false,
                    };
                    if st.1 != cur.1 && !is_usart {
                        let mut what = owned(name);
                        push_str(&mut what, " async");
                        out.push(change_text(what.as_str(), mode_str(cur.1), mode_str(st.1)));
                    }
                    assert(views(out@) =~= before + module_diff(*m, Some(st)));
                },
                None => {
                    assert(views(out@) =~= before + module_diff(*m, None));
                },
            }
            i = i + 1;
        }
        assert(self.modules@.subrange(0, self.modules@.len() as int) =~= self.modules@);
        assert(views(out@) =~= self.diff_summary());
        out
    }

    /// Whether any staged choice differs from the applied one (drives the
    /// Apply button's enabled state).
    pub fn style_dirty(&self) -> (r: bool)
        ensures
            r == self.dirty(),
    {
        if self.pending_runtime != self.runtime || self.pending_gpio_api != self.gpio_api {
            return true;
        }
        let mut i: usize = 0;
        while i < self.modules.len()
            invariant
                i <= self.modules@.len(),
                forall|j: int|
                    0 <= j < i ==> !#[trigger] module_dirty(
                        self.modules@[j],
                        staged_views(self.pending_module_styles@),
                    ),
            decreases self.modules@.len() - i,
        {
            let m = &self.modules[i];
            match staged_for(&self.pending_module_styles, &m.id) {
                Some(st) => {
                    let cur = module_style(&m.config);
                    if st.0 != cur.0 || st.1 != cur.1 {
                        assert(module_dirty(
                            self.modules@[i as int],
                            staged_views(self.pending_module_styles@),
                        ));
                        return true;
                    }
                },
                None => {},
            }
            i = i + 1;
        }
        false
    }
}

/// With distinct ids, the style staged for each module by a sync is the one
/// it carries.
proof fn lemma_current_style_of(ms: Seq<VirtualModule>, i: int)
    requires
        ids_distinct(ms),
        0 <= i < ms.len(),
    ensures
        staged(current_styles(ms), ms[i].id@) == Some(style_of(ms[i].config)),
    decreases ms.len(),
{
    assert(current_styles(ms).drop_last() =~= current_styles(ms.drop_last()));
    if i < ms.len() - 1 {
        assert(ms[ms.len() - 1].id@ != ms[i].id@);
        assert(ids_distinct(ms.drop_last()));
        lemma_current_style_of(ms.drop_last(), i);
    }
}

/// Right after a sync nothing is dirty (module ids being distinct, as the
/// model keeps them).
pub proof fn lemma_sync_clears_dirty(m: Mcu, next: Mcu)
    requires
        m.style_synced(next),
        ids_distinct(m.modules@),
    ensures
        !next.dirty(),
{
    assert forall|i: int| 0 <= i < next.modules@.len() implies !#[trigger] module_dirty(
        next.modules@[i],
        staged_views(next.pending_module_styles@),
    ) by {
        lemma_current_style_of(m.modules@, i);
    }
}

/// After Apply the applied runtime and GPIO api are the staged ones, and
/// nothing is dirty any more — provided each staged module style is one its
/// module can hold.
pub proof fn lemma_apply_clears_dirty(m: Mcu, next: Mcu)
    requires
        m.style_applied(next),
        forall|i: int|
            0 <= i < m.modules@.len() ==> #[trigger] style_fits(
                m.modules@[i],
                staged(staged_views(m.pending_module_styles@), m.modules@[i].id@),
            ),
    ensures
        next.runtime == m.pending_runtime,
        next.gpio_api == m.pending_gpio_api,
        !next.dirty(),
{
    assert forall|i: int| 0 <= i < next.modules@.len() implies !#[trigger] module_dirty(
        next.modules@[i],
        staged_views(next.pending_module_styles@),
    ) by {
        assert(next.modules@[i] == applied_module(
            m.modules@[i],
            staged(staged_views(m.pending_module_styles@), m.modules@[i].id@),
        ));
        assert(style_fits(
            m.modules@[i],
            staged(staged_views(m.pending_module_styles@), m.modules@[i].id@),
        ));
    }
}

/// Applying right after a sync changes no module's settings and keeps the
/// runtime and GPIO api (module ids being distinct).
pub proof fn lemma_sync_then_apply_keeps_modules(m: Mcu, synced: Mcu, applied: Mcu)
    requires
        m.style_synced(synced),
        synced.style_applied(applied),
        ids_distinct(m.modules@),
    ensures
        applied.modules@ == m.modules@,
        applied.runtime == m.runtime,
        applied.gpio_api == m.gpio_api,
{
    assert forall|i: int| 0 <= i < m.modules@.len() implies applied.modules@[i] == m.modules@[i] by {
        lemma_current_style_of(m.modules@, i);
        crate::modules::lemma_style_rewrite_is_identity(m.modules@[i].config);
    }
    assert(applied.modules@ =~= m.modules@);
}

} // verus!
