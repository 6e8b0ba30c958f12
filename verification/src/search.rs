//! The toolbar's pin search: which pads a query lights up.

use vstd::prelude::*;
use std::collections::HashSet;
use crate::model::{GridCell, Mcu};
use crate::pins::Pin;
use crate::text::{
    chars_eq, dec, is_ascii_lower, is_ws, lower, push_dec, str_chars, to_lower, trim, trim_end,
    trim_start, trimmed, upper,
};

verus! {

broadcast use vstd::std_specs::hash::group_hash_axioms;

/// `s` with ASCII capitals made small, as `str::to_ascii_lowercase` does.
pub open spec fn lower_all(s: Seq<char>) -> Seq<char> {
    s.map_values(|c: char| lower(c))
}

/// `needle` occurs in `hay` as a contiguous run.
pub open spec fn has_sub(hay: Seq<char>, needle: Seq<char>) -> bool {
    exists|i: int|
        0 <= i && i + needle.len() <= hay.len() && #[trigger] hay.subrange(i, i + needle.len())
            == needle
}

/// The query a search box holds: trimmed and lowercased.
pub open spec fn search_query(s: Seq<char>) -> Seq<char> {
    lower_all(trim(s))
}

/// A pad answers query `q` through its name (any part, case-insensitively)
/// or its number (exactly).
pub open spec fn pad_hit(p: Pin, q: Seq<char>) -> bool {
    has_sub(lower_all(p.name@), q) || dec(p.number as nat) == q
}

/// A ball answers query `q` through its designator (any part,
/// case-insensitively).
pub open spec fn cell_hit(c: GridCell, q: Seq<char>) -> bool {
    has_sub(lower_all(c.designator@), q)
}

/// The numbers of the first `k` of `pins` that answer `q`.
pub open spec fn pad_hits(pins: Seq<Pin>, q: Seq<char>, k: int) -> Set<usize> {
    Set::new(|n: usize| exists|j: int| 0 <= j < k && #[trigger] pins[j].number == n && pad_hit(pins[j], q))
}

/// The pad numbers of the first `k` of `cells` whose designator answers `q`.
pub open spec fn cell_hits(cells: Seq<GridCell>, q: Seq<char>, k: int) -> Set<usize> {
    Set::new(
        |n: usize| exists|j: int| 0 <= j < k && #[trigger] cells[j].pin.number == n && cell_hit(cells[j], q),
    )
}

/// The cells of the ball grid, if the package has one.
pub open spec fn grid_cells(mcu: Mcu) -> Seq<GridCell> {
    match mcu.grid {
        Some(g) => g.cells@,
        None => Seq::empty(),
    }
}

/// `s` lowercased.
pub(crate) fn lower_chars(v: &Vec<char>) -> (r: Vec<char>)
    ensures
        r@ == lower_all(v@),
{
    let mut r: Vec<char> = Vec::new();
    let mut i: usize = 0;
    while i < v.len()
        invariant
            i <= v.len(),
            r@ == lower_all(v@.subrange(0, i as int)),
        decreases v.len() - i,
    {
        r.push(to_lower(v[i]));
        i = i + 1;
        assert(r@ =~= lower_all(v@.subrange(0, i as int)));
    }
    assert(v@.subrange(0, v@.len() as int) =~= v@);
    r
}

/// Whether `needle` occurs in `hay`.
fn contains_chars(hay: &Vec<char>, needle: &Vec<char>) -> (r: bool)
    ensures
        r == has_sub(hay@, needle@),
{
    if needle.len() > hay.len() {
        return false;
    }
    let last = hay.len() - needle.len();
    let mut i: usize = 0;
    loop
        invariant
            needle@.len() <= hay@.len(),
            last == hay@.len() - needle@.len(),
            i <= last,
            forall|j: int| 0 <= j < i ==> #[trigger] hay@.subrange(j, j + needle@.len()) != needle@,
        decreases last - i,
    {
        let mut k: usize = 0;
        let mut same = true;
        while k < needle.len()
            invariant
                i <= last,
                last + needle.len() == hay.len(),
                needle@.len() <= hay@.len(),
                last == hay@.len() - needle@.len(),
                k <= needle@.len(),
                same == forall|t: int| 0 <= t < k ==> hay@[i + t] == needle@[t],
            decreases needle@.len() - k,
        {
            if hay[i + k] != needle[k] {
                same = false;
            }
            k = k + 1;
        }
        if same {
            assert(hay@.subrange(i as int, i + needle@.len()) =~= needle@);
            return true;
        }
        assert(hay@[i + (choose|t: int| 0 <= t < needle@.len() && hay@[i + t] != needle@[t])]
            != needle@[choose|t: int| 0 <= t < needle@.len() && hay@[i + t] != needle@[t]]);
        let ghost t = choose|t: int| 0 <= t < needle@.len() && hay@[i + t] != needle@[t];
        assert(hay@.subrange(i as int, i + needle@.len())[t] != needle@[t]);
        if i == last {
            return false;
        }
        i = i + 1;
    }
}

/// The decimal spelling of `n`.
fn dec_chars(n: usize) -> (r: Vec<char>)
    ensures
        r@ == dec(n as nat),
{
    let mut s = String::new();
    push_dec(&mut s, n as u64);
    str_chars(s.as_str())
}

impl Mcu {
    /// The pads a search lights up; empty for a blank query.
    pub open spec fn search_hits(self) -> Set<usize> {
        let q = search_query(self.pin_search@);
        if q.len() == 0 {
            Set::empty()
        } else {
            pad_hits(self.all_pins(), q, self.all_pins().len() as int).union(
                cell_hits(grid_cells(self), q, grid_cells(self).len() as int),
            )
        }
    }

    /// Pin numbers matching the toolbar search: the pin NAME (any part,
    /// case-insensitive), the ball DESIGNATOR on a ball-grid part (same), or
    /// the pin NUMBER (exact: `13` finds pin 13, not 1 or 31). Empty for a
    /// blank query.
    pub fn pin_search_hits(&self) -> (r: HashSet<usize>)
        requires
            self.pins_fit(),
        ensures
            r@ == self.search_hits(),
    {
        let t = trimmed(self.pin_search.as_str());
        let q = lower_chars(&t);
        let mut hits: HashSet<usize> = HashSet::new();
        if q.len() == 0 {
            assert(hits@ =~= self.search_hits());
            return hits;
        }
        let n = self.pin_count();
        let mut k: usize = 0;
        while k < n
            invariant
                n == self.all_pins().len(),
                k <= n,
                q@ == search_query(self.pin_search@),
                hits@ == pad_hits(self.all_pins(), q@, k as int),
            decreases n - k,
        {
            let p = self.pin_ref(k);
            let name = lower_chars(&str_chars(p.name.as_str()));
            let num = dec_chars(p.number);
            let hit = contains_chars(&name, &q) || chars_eq(&num, &q);
            if hit {
                hits.insert(p.number);
            }
            assert(hits@ =~= pad_hits(self.all_pins(), q@, k + 1));
            k = k + 1;
        }
        let ghost pads = hits@;
        match &self.grid {
            Some(g) => {
                let mut c: usize = 0;
                while c < g.cells.len()
                    invariant
                        c <= g.cells@.len(),
                        g.cells@ == grid_cells(*self),
                        q@ == search_query(self.pin_search@),
                        hits@ == pads.union(cell_hits(g.cells@, q@, c as int)),
                    decreases g.cells@.len() - c,
                {
                    let cell = &g.cells[c];
                    let d = lower_chars(&str_chars(cell.designator.as_str()));
                    if contains_chars(&d, &q) {
                        hits.insert(cell.pin.number);
                    }
                    assert(hits@ =~= pads.union(cell_hits(g.cells@, q@, c + 1)));
                    c = c + 1;
                }
            },
            None => {
                assert(hits@ =~= pads.union(cell_hits(grid_cells(*self), q@, 0)));
            },
        }
        assert(hits@ =~= self.search_hits());
        hits
    }

    /// The set the diagram highlights, or `None` when nothing should be
    /// dimmed: both "no search" and "search matches nothing".
    pub fn pin_search_highlight(&self) -> (r: Option<HashSet<usize>>)
        requires
            self.pins_fit(),
        ensures
            r matches Some(h) ==> h@ == self.search_hits() && !self.search_hits().is_empty(),
            r is None ==> self.search_hits().is_empty(),
    {
        let hits = self.pin_search_hits();
        if hits.is_empty() {
            None
        } else {
            Some(hits)
        }
    }
}

/// `s` with ASCII small letters made capital, as `str::to_ascii_uppercase`
/// does.
pub open spec fn upper_all(s: Seq<char>) -> Seq<char> {
    s.map_values(|c: char| upper(c))
}

proof fn lemma_case_char(c: char)
    ensures
        is_ws(upper(c)) == is_ws(c),
        lower(upper(c)) == lower(c),
{
    if is_ascii_lower(c) {
        let x = c as u32;
        let y: u32 = (x - 32) as u32;
        assert(y < 0xD800);
        assert((y as char) as u32 == y);
        let z: u32 = (y + 32) as u32;
        assert((z as char) as u32 == z);
        assert(z == x);
    }
}

proof fn lemma_trim_start_upper(s: Seq<char>)
    ensures
        trim_start(upper_all(s)) == upper_all(trim_start(s)),
    decreases s.len(),
{
    if s.len() > 0 {
        lemma_case_char(s[0]);
        assert(upper_all(s)[0] == upper(s[0]));
        assert(upper_all(s).drop_first() =~= upper_all(s.drop_first()));
        lemma_trim_start_upper(s.drop_first());
    } else {
        assert(upper_all(s) =~= s);
    }
}

proof fn lemma_trim_end_upper(s: Seq<char>)
    ensures
        trim_end(upper_all(s)) == upper_all(trim_end(s)),
    decreases s.len(),
{
    if s.len() > 0 {
        lemma_case_char(s.last());
        assert(upper_all(s).last() == upper(s.last()));
        assert(upper_all(s).drop_last() =~= upper_all(s.drop_last()));
        lemma_trim_end_upper(s.drop_last());
    } else {
        assert(upper_all(s) =~= s);
    }
}

/// A query reads the same whatever the case of its ASCII letters.
pub proof fn lemma_query_ignores_case(s: Seq<char>)
    ensures
        search_query(upper_all(s)) == search_query(s),
{
    lemma_trim_start_upper(s);
    lemma_trim_end_upper(trim_start(s));
    let t = trim(s);
    assert forall|i: int| 0 <= i < t.len() implies lower_all(upper_all(t))[i] == lower_all(t)[i] by {
        lemma_case_char(t[i]);
    }
    assert(lower_all(upper_all(t)) =~= lower_all(t));
}

/// Case doesn't matter: the same search typed in capitals lights the same
/// pads.
pub proof fn lemma_search_ignores_case(m: Mcu, n: Mcu)
    requires
        n == (Mcu { pin_search: n.pin_search, ..m }),
        n.pin_search@ == upper_all(m.pin_search@),
    ensures
        n.search_hits() == m.search_hits(),
{
    lemma_query_ignores_case(m.pin_search@);
}

/// A run of characters is found wherever it sits in a longer text: at its
/// start, at its end or in its middle.
pub proof fn lemma_found_anywhere(a: Seq<char>, q: Seq<char>, b: Seq<char>)
    ensures
        has_sub(a + q + b, q),
{
    let h = a + q + b;
    assert(h.subrange(a.len() as int, (a.len() + q.len()) as int) =~= q);
}

/// A text that holds a run splits around it: what comes before, the run, and
/// what comes after.
pub proof fn lemma_found_splits(hay: Seq<char>, q: Seq<char>)
    requires
        has_sub(hay, q),
    ensures
        exists|i: int|
            0 <= i && i + q.len() <= hay.len() && hay == #[trigger] hay.subrange(0, i) + q + hay.subrange(
                i + q.len(),
                hay.len() as int,
            ),
{
    let i = choose|i: int| 0 <= i && i + q.len() <= hay.len() && #[trigger] hay.subrange(i, i + q.len()) == q;
    assert(hay =~= hay.subrange(0, i) + hay.subrange(i, i + q.len()) + hay.subrange(i + q.len(), hay.len() as int));
}

/// A pad whose name holds the query anywhere, in any case, lights up: when
/// the trimmed, lowercased search box reads `q` (not blank) and pad `j`'s
/// lowercased name is `a + q + b`, the pad's number is among the hits.
pub proof fn lemma_name_anywhere_is_a_hit(m: Mcu, j: int, a: Seq<char>, b: Seq<char>)
    requires
        0 <= j < m.all_pins().len(),
        search_query(m.pin_search@).len() > 0,
        lower_all(m.all_pins()[j].name@) == a + search_query(m.pin_search@) + b,
    ensures
        m.search_hits().contains(m.all_pins()[j].number),
{
    let q = search_query(m.pin_search@);
    let pins = m.all_pins();
    lemma_found_anywhere(a, q, b);
    assert(pad_hit(pins[j], q));
    assert(pad_hits(pins, q, pins.len() as int).contains(pins[j].number));
}

} // verus!
