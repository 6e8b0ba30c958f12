//! How the chip's saved `mcu.config` text is put together: each setting is
//! written as a section of its own, and the text is those sections in order,
//! the empty ones left out.

use vstd::prelude::*;
use std::collections::BTreeMap;
use crate::model::Mcu;
use crate::pins::{IrqEdge, Pin};
use crate::text::{push_char, push_str};

verus! {

broadcast use vstd::std_specs::btree::group_btree_axioms;

/// The sections in order, the empty ones left out, a newline between each
/// two that remain.
pub open spec fn joined(sections: Seq<Seq<char>>) -> Seq<char>
    decreases sections.len(),
{
    if sections.len() == 0 {
        Seq::empty()
    } else {
        let p = joined(sections.drop_last());
        let l = sections.last();
        if l.len() == 0 {
            p
        } else if p.len() == 0 {
            l
        } else {
            p + seq!['\n'] + l
        }
    }
}

/// The characters of each section.
pub open spec fn section_texts(sections: Seq<String>) -> Seq<Seq<char>> {
    sections.map_values(|s: String| s@)
}

/// The `mcu.config` text of a chip from its sections, in the order they are
/// written (modules and clock first, then the runtime and view preferences,
/// devices, interrupt edges and drive modes): every non-empty section, a
/// newline between each two. Empty when there is nothing to persist.
pub fn mcu_config_text(sections: &[String]) -> (r: String)
    ensures
        r@ == joined(section_texts(sections@)),
{
    let mut s = String::new();
    let mut i: usize = 0;
    while i < sections.len()
        invariant
            i <= sections@.len(),
            s@ == joined(section_texts(sections@.take(i as int))),
        decreases sections.len() - i,
    {
        assert(section_texts(sections@.take(i + 1)).drop_last() =~= section_texts(
            sections@.take(i as int),
        ));
        assert(section_texts(sections@.take(i + 1)).last() == sections@[i as int]@);
        let next = &sections[i];
        if !next.as_str().is_empty() {
            if !s.as_str().is_empty() {
                push_char(&mut s, '\n');
            }
            push_str(&mut s, next.as_str());
        }
        i = i + 1;
    }
    assert(sections@.take(sections@.len() as int) =~= sections@);
    s
}

/// The text is empty exactly when there is nothing to persist: when every
/// section is empty.
pub proof fn lemma_empty_exactly_when_nothing_to_persist(sections: Seq<Seq<char>>)
    ensures
        joined(sections).len() == 0 <==> forall|i: int|
            0 <= i < sections.len() ==> (#[trigger] sections[i]).len() == 0,
    decreases sections.len(),
{
    if sections.len() > 0 {
        let d = sections.drop_last();
        lemma_empty_exactly_when_nothing_to_persist(d);
        if joined(sections).len() == 0 {
            assert forall|i: int| 0 <= i < sections.len() implies (#[trigger] sections[i]).len()
                == 0 by {
                if i < d.len() {
                    assert(d[i] == sections[i]);
                }
            }
        } else {
            if forall|i: int| 0 <= i < sections.len() ==> (#[trigger] sections[i]).len() == 0 {
                assert forall|i: int| 0 <= i < d.len() implies (#[trigger] d[i]).len() == 0 by {
                    assert(d[i] == sections[i]);
                }
                assert(sections[sections.len() - 1].len() == 0);
            }
        }
    }
}

/// The interrupt edge armed on each pad number, pad by pad in order (a later
/// pad with the same number wins).
pub open spec fn irq_map(pins: Seq<Pin>) -> Map<usize, IrqEdge>
    decreases pins.len(),
{
    if pins.len() == 0 {
        Map::empty()
    } else {
        let m = irq_map(pins.drop_last());
        match pins.last().irq {
            Some(e) => m.insert(pins.last().number, e),
            None => m,
        }
    }
}

impl Mcu {
    /// The interrupt edges the `@irq` section saves, keyed by pad number.
    pub fn irq_edges(&self) -> (r: BTreeMap<usize, IrqEdge>)
        requires
            self.pins_fit(),
        ensures
            r@ == irq_map(self.all_pins()),
    {
        let mut r: BTreeMap<usize, IrqEdge> = BTreeMap::new();
        let n = self.pin_count();
        let mut k: usize = 0;
        while k < n
            invariant
                n == self.all_pins().len(),
                k <= n,
                r@ == irq_map(self.all_pins().take(k as int)),
            decreases n - k,
        {
            assert(self.all_pins().take(k + 1).drop_last() =~= self.all_pins().take(k as int));
            let p = self.pin_ref(k);
            match p.irq {
                Some(e) => {
                    r.insert(p.number, e);
                },
                None => {},
            }
            k = k + 1;
        }
        assert(self.all_pins().take(n as int) =~= self.all_pins());
        r
    }
}

} // verus!
