use vstd::prelude::*;

use super::AnalyzeErr;
use super::LineAnalyzer;
use crate::column_tools::appended;
use crate::column_tools::chars_of;
use crate::column_tools::same_text;
use crate::column_tools::ParseErr;
use crate::decimal::is_digit;
use crate::decimal::parse_unsigned;
use crate::decimal::unsigned_value;
use crate::column_tools::dominates;
use crate::column_tools::lemma_appended_empty;
use crate::column_tools::lemma_appended_push;
use crate::column_tools::lemma_measure_appended;
use crate::column_tools::lemma_measure_dominates;
use crate::column_tools::lemma_measure_same;
use crate::column_tools::measure;
use crate::column_tools::Column;
use crate::column_tools::Formatter;
use crate::column_tools::LineDescr;
use crate::column_tools::ignored_from;
use crate::analyzers::lemma_find_first_facts;
use crate::analyzers::LineParser;
use crate::analyzers::Probe;

verus! {

/// A region of a line, such as the inside of quotes or of braces, tracked
/// one character at a time. `lim` counts down as the region is entered and
/// up as it is left; the line is in the region while `lim <= 0`.
#[derive(Debug, Clone, Copy, PartialEq, Eq, Structural)]
pub struct Boundary {
    /// The character that opens the region; with no `close`, it also closes it.
    pub open: char,
    /// The character that closes the region, for nesting regions.
    pub close: Option<char>,
    /// The current count.
    pub lim: i16,
    /// The count at the start of every line.
    pub lim_orig: i16,
}

pub open spec fn inc16(x: i16) -> i16 {
    if x < i16::MAX {
        (x + 1) as i16
    } else {
        x
    }
}

pub open spec fn dec16(x: i16) -> i16 {
    if x > i16::MIN {
        (x - 1) as i16
    } else {
        x
    }
}

pub open spec fn with_lim(b: Boundary, lim: i16) -> Boundary {
    Boundary { open: b.open, close: b.close, lim, lim_orig: b.lim_orig }
}

/// The boundary after it saw `c`; whether `c` opened or closed it; and
/// whether the line is inside it at `c`.
pub open spec fn check_spec(b: Boundary, c: char) -> (Boundary, bool, bool) {
    if c == b.open {
        if b.close is None && b.lim != b.lim_orig {
            (with_lim(b, inc16(b.lim)), true, b.lim <= 0)
        } else {
            (with_lim(b, dec16(b.lim)), true, dec16(b.lim) <= 0)
        }
    } else if b.close == Some(c) {
        (with_lim(b, inc16(b.lim)), true, b.lim <= 0)
    } else {
        (b, false, b.lim <= 0)
    }
}

impl Boundary {
    /// A region opened and closed by the same character `c`.
    pub fn new_sym(c: char, lim: i16) -> (r: Boundary)
        ensures
            r == (Boundary { open: c, close: None, lim, lim_orig: lim }),
    {
        Boundary { open: c, close: None, lim, lim_orig: lim }
    }

    /// A region opened by `o` and closed by `c`, which may nest.
    pub fn new_asym(o: char, c: char, lim: i16) -> (r: Boundary)
        ensures
            r == (Boundary { open: o, close: Some(c), lim, lim_orig: lim }),
    {
        Boundary { open: o, close: Some(c), lim, lim_orig: lim }
    }

    /// Puts the count back to its value at the start of a line.
    pub fn reset(&mut self)
        ensures
            *final(self) == with_lim(*old(self), old(self).lim_orig),
    {
        self.lim = self.lim_orig;
    }

    /// Follows the region over the character `c`: says whether `c` opened
    /// or closed it, and whether the line is inside it at `c`.
    pub fn check(&mut self, c: char) -> (r: (bool, bool))
        ensures
            (*final(self), r.0, r.1) == check_spec(*old(self), c),
    {
        let mut begin_or_end = false;
        let mut in_bound = self.lim <= 0;
        if c == self.open {
            begin_or_end = true;
            if self.close.is_none() && self.lim != self.lim_orig {
                if self.lim < i16::MAX {
                    self.lim = self.lim + 1;
                }
            } else {
                if self.lim > i16::MIN {
                    self.lim = self.lim - 1;
                }
                in_bound = self.lim <= 0;
            }
        } else if let Some(cl) = self.close {
            if cl == c {
                if self.lim < i16::MAX {
                    self.lim = self.lim + 1;
                }
                begin_or_end = true;
            }
        }
        (begin_or_end, in_bound)
    }
}

/// Whether a boundary allows cutting while the line is inside it, or forbids it.
#[derive(Debug, Clone, Copy, PartialEq, Eq, Structural)]
pub enum BoundType {
    Include,
    Exclude,
}

/// Every boundary with its count back at the start-of-line value.
pub open spec fn reset_all(bs: Seq<Boundary>) -> Seq<Boundary> {
    bs.map_values(|b: Boundary| with_lim(b, b.lim_orig))
}

/// Every boundary after it saw `c`.
pub open spec fn advance(bs: Seq<Boundary>, c: char) -> Seq<Boundary> {
    bs.map_values(|b: Boundary| check_spec(b, c).0)
}

/// The line is inside each of the including boundaries at `c`.
pub open spec fn includes_allow(bs: Seq<Boundary>, c: char) -> bool {
    forall|i: int| 0 <= i < bs.len() ==> (#[trigger] check_spec(bs[i], c)).2
}

/// No excluding boundary holds the line inside it at `c`, but at the
/// character that opens or closes it.
pub open spec fn excludes_allow(bs: Seq<Boundary>, c: char) -> bool {
    forall|i: int|
        0 <= i < bs.len() ==> !(!(#[trigger] check_spec(bs[i], c)).1 && check_spec(bs[i], c).2)
}

/// The state of a scan of a line, after some of its characters.
pub struct ScanState {
    /// Inside a column, which started at `begin`.
    pub inside: bool,
    pub begin: int,
    /// One past the separator that ended the last column.
    pub past_end: int,
    pub inc: Seq<Boundary>,
    pub exc: Seq<Boundary>,
    /// The columns found so far.
    pub cols: Seq<Column>,
}

/// The characters that cannot start a column.
pub open spec fn begin_seps(seps: Seq<char>, ncs: Seq<char>) -> Seq<char> {
    if ncs.len() == 0 {
        seps
    } else {
        ncs
    }
}

pub open spec fn scan_init(base: int, inc: Seq<Boundary>, exc: Seq<Boundary>) -> ScanState {
    ScanState {
        inside: false,
        begin: base,
        past_end: base,
        inc,
        exc,
        cols: Seq::empty(),
    }
}

/// One step of the scan, over the character at `off`.
pub open spec fn scan_step(
    seps: Seq<char>,
    ncs: Seq<char>,
    s: Seq<char>,
    st: ScanState,
    off: int,
) -> ScanState {
    let c = s[off];
    let ok = includes_allow(st.inc, c) && excludes_allow(st.exc, c);
    let inc = advance(st.inc, c);
    let exc = advance(st.exc, c);
    if !st.inside {
        if ok && !begin_seps(seps, ncs).contains(c) {
            ScanState { inside: true, begin: off, inc, exc, ..st }
        } else {
            ScanState { inc, exc, ..st }
        }
    } else if seps.contains(c) && ok {
        ScanState {
            inside: false,
            cols: st.cols.push(Column { begin: st.begin as usize, end: off as usize, sep: Some(c) }),
            past_end: off + 1,
            inc,
            exc,
            ..st
        }
    } else {
        ScanState { inc, exc, ..st }
    }
}

/// The scan of `s` from `base` on, after the characters before `k`.
pub open spec fn scan_upto(
    seps: Seq<char>,
    ncs: Seq<char>,
    s: Seq<char>,
    base: int,
    inc: Seq<Boundary>,
    exc: Seq<Boundary>,
    k: int,
) -> ScanState
    decreases k - base,
{
    if k <= base {
        scan_init(base, inc, exc)
    } else {
        scan_step(seps, ncs, s, scan_upto(seps, ncs, s, base, inc, exc, k - 1), k - 1)
    }
}

/// The columns of a finished scan of a line of `n` characters: an open
/// column, or text left after the last separator, runs to the end of the line.
pub open spec fn scan_result(st: ScanState, n: int) -> Seq<Column> {
    if st.inside {
        st.cols.push(Column { begin: st.begin as usize, end: n as usize, sep: None })
    } else if st.past_end < n {
        st.cols.push(Column { begin: st.past_end as usize, end: n as usize, sep: None })
    } else {
        st.cols
    }
}

/// Strictly ascending: sorted, each character once.
pub open spec fn ascending(v: Seq<char>) -> bool {
    forall|i: int, j: int| 0 <= i < j < v.len() ==> v[i] < v[j]
}

/// `v` holds the characters of `w`, and no others.
pub open spec fn holds_chars(v: Seq<char>, w: Seq<char>) -> bool {
    forall|c: char| v.contains(c) <==> w.contains(c)
}

/// The characters of `v` as a sorted set.
pub fn sorted_set(v: &Vec<char>) -> (r: Vec<char>)
    ensures
        ascending(r@),
        holds_chars(r@, v@),
        r@.len() <= v@.len(),
{
    let mut r: Vec<char> = Vec::new();
    let mut i: usize = 0;
    while i < v.len()
        invariant
            i <= v@.len(),
            ascending(r@),
            holds_chars(r@, v@.subrange(0, i as int)),
            r@.len() <= i,
        decreases v@.len() - i,
    {
        let c = v[i];
        let mut pos: usize = 0;
        while pos < r.len() && r[pos] < c
            invariant
                pos <= r@.len(),
                forall|j: int| 0 <= j < pos ==> r@[j] < c,
            decreases r@.len() - pos,
        {
            pos = pos + 1;
        }
        let ghost before = r@;
        let ghost seen = v@.subrange(0, i as int);
        assert(v@.subrange(0, i + 1) =~= seen.push(c));
        if pos < r.len() && r[pos] == c {
            assert forall|x: char| r@.contains(x) <==> seen.push(c).contains(x) by {
                if x == c {
                    assert(r@[pos as int] == c);
                }
                if seen.push(c).contains(x) && x != c {
                    let k = choose|k: int| 0 <= k < seen.push(c).len() && seen.push(c)[k] == x;
                    assert(seen[k] == x);
                }
            }
        } else {
            r.insert(pos, c);
            assert forall|a: int, b: int| 0 <= a < b < r@.len() implies r@[a] < r@[b] by {
                if b < pos {
                    assert(r@[a] == before[a] && r@[b] == before[b]);
                } else if b == pos {
                    assert(r@[a] == before[a]);
                } else if a < pos {
                    assert(r@[a] == before[a] && r@[b] == before[b - 1]);
                    assert(before[pos as int] >= c);
                    if b - 1 > pos {
                        assert(before[pos as int] < before[b - 1]);
                    }
                } else if a == pos {
                    assert(r@[b] == before[b - 1]);
                    assert(before[pos as int] >= c && before[pos as int] != c);
                    if b - 1 > pos {
                        assert(before[pos as int] < before[b - 1]);
                    }
                } else {
                    assert(r@[a] == before[a - 1] && r@[b] == before[b - 1]);
                }
            }
            assert forall|x: char| r@.contains(x) <==> seen.push(c).contains(x) by {
                if x == c {
                    assert(r@[pos as int] == c);
                    assert(seen.push(c)[seen.len() as int] == c);
                }
                if r@.contains(x) && x != c {
                    let k = choose|k: int| 0 <= k < r@.len() && r@[k] == x;
                    if k < pos {
                        assert(before[k] == x);
                    } else {
                        assert(before[k - 1] == x);
                    }
                    assert(before.contains(x));
                    let k2 = choose|k2: int| 0 <= k2 < seen.len() && seen[k2] == x;
                    assert(seen.push(c)[k2] == x);
                }
                if seen.push(c).contains(x) && x != c {
                    let k = choose|k: int| 0 <= k < seen.push(c).len() && seen.push(c)[k] == x;
                    assert(seen[k] == x);
                    assert(seen.contains(x));
                    let k2 = choose|k2: int| 0 <= k2 < before.len() && before[k2] == x;
                    if k2 < pos {
                        assert(r@[k2] == x);
                    } else {
                        assert(r@[k2 + 1] == x);
                    }
                }
            }
        }
        i = i + 1;
    }
    assert(v@.subrange(0, v@.len() as int) =~= v@);
    r
}

/// Cuts a line into columns at separator characters, where its boundaries allow it.
pub struct Analyzer {
    /// The characters that end a column, in ascending order.
    pub seps: Vec<char>,
    /// The characters that cannot start a column, in ascending order; the
    /// separators when empty.
    pub seps_new_column: Vec<char>,
    /// A column may end only inside all of these.
    pub includes: Vec<Boundary>,
    /// A column may not end inside any of these.
    pub excludes: Vec<Boundary>,
}

impl Analyzer {
    /// The columns a scan of `s` from `base` on finds.
    pub open spec fn columns_from(&self, s: Seq<char>, base: int) -> Seq<Column> {
        scan_result(
            scan_upto(
                self.seps@,
                self.seps_new_column@,
                s,
                base,
                reset_all(self.includes@),
                reset_all(self.excludes@),
                s.len() as int,
            ),
            s.len() as int,
        )
    }

    /// Two analyzers with the same settings, whatever their counts.
    pub open spec fn same_settings(&self, other: &Analyzer) -> bool {
        &&& self.seps@ == other.seps@
        &&& self.seps_new_column@ == other.seps_new_column@
        &&& reset_all(self.includes@) == reset_all(other.includes@)
        &&& reset_all(self.excludes@) == reset_all(other.excludes@)
    }

    /// An analyzer with no separators and no boundaries.
    pub fn new() -> (r: Analyzer)
        ensures
            r.seps@.len() == 0,
            r.seps_new_column@.len() == 0,
            r.includes@.len() == 0,
            r.excludes@.len() == 0,
    {
        Analyzer {
            seps: Vec::new(),
            seps_new_column: Vec::new(),
            includes: Vec::new(),
            excludes: Vec::new(),
        }
    }

    /// Puts every boundary's count back to its start-of-line value.
    pub fn reset(&mut self)
        ensures
            final(self).seps == old(self).seps,
            final(self).seps_new_column == old(self).seps_new_column,
            final(self).includes@ == reset_all(old(self).includes@),
            final(self).excludes@ == reset_all(old(self).excludes@),
    {
        reset_vec(&mut self.includes);
        reset_vec(&mut self.excludes);
    }

    /// Sets the separators, as a sorted set.
    pub fn set_separators(&mut self, seps: Vec<char>)
        ensures
            ascending(final(self).seps@),
            holds_chars(final(self).seps@, seps@),
            final(self).seps@.len() <= seps@.len(),
            final(self).seps_new_column == old(self).seps_new_column,
            final(self).includes == old(self).includes,
            final(self).excludes == old(self).excludes,
    {
        self.seps = sorted_set(&seps);
    }

    /// Sets the characters that cannot start a column, as a sorted set.
    pub fn set_new_column_separators(&mut self, seps: Vec<char>)
        ensures
            ascending(final(self).seps_new_column@),
            holds_chars(final(self).seps_new_column@, seps@),
            final(self).seps_new_column@.len() <= seps@.len(),
            final(self).seps == old(self).seps,
            final(self).includes == old(self).includes,
            final(self).excludes == old(self).excludes,
    {
        self.seps_new_column = sorted_set(&seps);
    }

    pub fn clear_boundaries(&mut self, bt: BoundType)
        ensures
            final(self).seps == old(self).seps,
            final(self).seps_new_column == old(self).seps_new_column,
            bt is Include ==> final(self).includes@.len() == 0 && final(self).excludes == old(self).excludes,
            bt is Exclude ==> final(self).excludes@.len() == 0 && final(self).includes == old(self).includes,
    {
        match bt {
            BoundType::Include => self.includes.clear(),
            BoundType::Exclude => self.excludes.clear(),
        }
    }

    pub fn add_boundary(&mut self, bnd: Boundary, bt: BoundType)
        ensures
            final(self).seps == old(self).seps,
            final(self).seps_new_column == old(self).seps_new_column,
            bt is Include ==> final(self).includes@ == old(self).includes@.push(bnd) && final(self).excludes
                == old(self).excludes,
            bt is Exclude ==> final(self).excludes@ == old(self).excludes@.push(bnd) && final(self).includes
                == old(self).includes,
    {
        match bt {
            BoundType::Include => self.includes.push(bnd),
            BoundType::Exclude => self.excludes.push(bnd),
        }
    }

    /// Moves every boundary over `c`; says whether a column may end at `c`.
    fn check_bounds(&mut self, c: char) -> (r: bool)
        ensures
            r == (includes_allow(old(self).includes@, c) && excludes_allow(old(self).excludes@, c)),
            final(self).includes@ == advance(old(self).includes@, c),
            final(self).excludes@ == advance(old(self).excludes@, c),
            final(self).seps == old(self).seps,
            final(self).seps_new_column == old(self).seps_new_column,
    {
        let a = check_all(&mut self.includes, c);
        let b = check_all(&mut self.excludes, c);
        a.0 && b.1
    }

    /// Whether a column that is open ends at `c`.
    fn is_column_end(&mut self, c: char) -> (r: bool)
        ensures
            r == (old(self).seps@.contains(c) && includes_allow(old(self).includes@, c)
                && excludes_allow(old(self).excludes@, c)),
            final(self).includes@ == advance(old(self).includes@, c),
            final(self).excludes@ == advance(old(self).excludes@, c),
            final(self).seps == old(self).seps,
            final(self).seps_new_column == old(self).seps_new_column,
    {
        let res = contains_char(&self.seps, c);
        if self.check_bounds(c) {
            res
        } else {
            false
        }
    }

    /// Whether a column starts at `c`, when none is open.
    fn is_column_begin(&mut self, c: char) -> (r: bool)
        ensures
            r == (includes_allow(old(self).includes@, c) && excludes_allow(old(self).excludes@, c)
                && !begin_seps(old(self).seps@, old(self).seps_new_column@).contains(c)),
            final(self).includes@ == advance(old(self).includes@, c),
            final(self).excludes@ == advance(old(self).excludes@, c),
            final(self).seps == old(self).seps,
            final(self).seps_new_column == old(self).seps_new_column,
    {
        if !self.check_bounds(c) {
            return false;
        }
        if self.seps_new_column.len() == 0 {
            !contains_char(&self.seps, c)
        } else {
            !contains_char(&self.seps_new_column, c)
        }
    }
}

fn reset_vec(v: &mut Vec<Boundary>)
    ensures
        final(v)@ == reset_all(old(v)@),
{
    let ghost v0 = v@;
    let mut i: usize = 0;
    while i < v.len()
        invariant
            i <= v@.len() == v0.len(),
            forall|j: int| 0 <= j < i ==> #[trigger] v@[j] == with_lim(v0[j], v0[j].lim_orig),
            forall|j: int| i <= j < v@.len() ==> #[trigger] v@[j] == v0[j],
        decreases v@.len() - i,
    {
        let mut b = v[i];
        b.reset();
        v.set(i, b);
        i = i + 1;
    }
    assert(v@ =~= reset_all(v0));
}

/// Moves every boundary of `v` over `c`; says whether `c` is allowed as an
/// including list, and as an excluding list.
fn check_all(v: &mut Vec<Boundary>, c: char) -> (r: (bool, bool))
    ensures
        final(v)@ == advance(old(v)@, c),
        r.0 == includes_allow(old(v)@, c),
        r.1 == excludes_allow(old(v)@, c),
{
    let ghost v0 = v@;
    let mut inc_ok = true;
    let mut exc_ok = true;
    let mut i: usize = 0;
    while i < v.len()
        invariant
            i <= v@.len() == v0.len(),
            forall|j: int| 0 <= j < i ==> #[trigger] v@[j] == check_spec(v0[j], c).0,
            forall|j: int| i <= j < v@.len() ==> #[trigger] v@[j] == v0[j],
            inc_ok == forall|j: int| 0 <= j < i ==> (#[trigger] check_spec(v0[j], c)).2,
            exc_ok == forall|j: int|
                0 <= j < i ==> !(!(#[trigger] check_spec(v0[j], c)).1 && check_spec(v0[j], c).2),
        decreases v@.len() - i,
    {
        let mut b = v[i];
        let (at_begin_end, in_bound) = b.check(c);
        if !in_bound {
            inc_ok = false;
        }
        if !at_begin_end && in_bound {
            exc_ok = false;
        }
        v.set(i, b);
        i = i + 1;
    }
    assert(v@ =~= advance(v0, c));
    (inc_ok, exc_ok)
}

/// Whether `c` is one of `v`.
pub fn contains_char(v: &Vec<char>, c: char) -> (r: bool)
    ensures
        r == v@.contains(c),
{
    let mut i: usize = 0;
    while i < v.len()
        invariant
            i <= v@.len(),
            forall|j: int| 0 <= j < i ==> v@[j] != c,
        decreases v@.len() - i,
    {
        if v[i] == c {
            return true;
        }
        i = i + 1;
    }
    false
}

/// Columns in order: each within `[lo, n]`, each ending before the next begins.
pub open spec fn spans_ordered(cols: Seq<Column>, lo: int, n: int) -> bool {
    &&& forall|i: int| 0 <= i < cols.len() ==> lo <= #[trigger] cols[i].begin <= cols[i].end <= n
    &&& forall|i: int|
        0 <= i < cols.len() - 1 ==> #[trigger] cols[i].end <= cols[i + 1].begin && cols[i].begin
            < cols[i + 1].begin
}

/// Every column that has a separator is followed in `s` by that separator,
/// before the next column begins.
pub open spec fn seps_follow(cols: Seq<Column>, s: Seq<char>) -> bool {
    forall|i: int|
        0 <= i < cols.len() && (#[trigger] cols[i]).sep is Some ==> {
            &&& cols[i].end < s.len()
            &&& cols[i].sep == Some(s[cols[i].end as int])
            &&& (i + 1 < cols.len() ==> cols[i].end < cols[i + 1].begin)
        }
}

/// What holds of a scan at every step: the columns found lie in order before
/// the current position, each followed by its separator.
pub proof fn lemma_scan_facts(
    seps: Seq<char>,
    ncs: Seq<char>,
    s: Seq<char>,
    base: int,
    inc: Seq<Boundary>,
    exc: Seq<Boundary>,
    k: int,
)
    requires
        0 <= base <= k <= s.len(),
        s.len() < usize::MAX,
    ensures
        ({
            let st = scan_upto(seps, ncs, s, base, inc, exc, k);
            &&& st.cols.len() <= k - base
            &&& base <= st.past_end <= k
            &&& st.inside ==> st.past_end <= st.begin < k
            &&& spans_ordered(st.cols, base, k)
            &&& seps_follow(st.cols, s)
            &&& st.cols.len() > 0 ==> st.cols.last().end + 1 == st.past_end
            &&& st.cols.len() == 0 ==> st.past_end == base
            &&& inc.len() == st.inc.len() && exc.len() == st.exc.len()
            &&& forall|i: int| 0 <= i < st.cols.len() ==> #[trigger] st.cols[i].begin < st.cols[i].end
        }),
    decreases k - base,
{
    if k > base {
        lemma_scan_facts(seps, ncs, s, base, inc, exc, k - 1);
        let p = scan_upto(seps, ncs, s, base, inc, exc, k - 1);
        let st = scan_upto(seps, ncs, s, base, inc, exc, k);
        assert(st == scan_step(seps, ncs, s, p, k - 1));
        if st.cols.len() > p.cols.len() {
            assert(st.cols == p.cols.push(Column { begin: p.begin as usize, end: (k - 1) as usize, sep: Some(s[k - 1]) }));
            assert forall|i: int| 0 <= i < st.cols.len() - 1 implies #[trigger] st.cols[i].end
                <= st.cols[i + 1].begin && st.cols[i].begin < st.cols[i + 1].begin by {
                if i + 1 < p.cols.len() {
                    assert(st.cols[i] == p.cols[i] && st.cols[i + 1] == p.cols[i + 1]);
                }
            }
            assert forall|i: int| 0 <= i < st.cols.len() implies #[trigger] st.cols[i].begin < st.cols[i].end by {
                if i < p.cols.len() {
                    assert(st.cols[i] == p.cols[i]);
                }
            }
            assert forall|i: int| 0 <= i < st.cols.len() && (#[trigger] st.cols[i]).sep is Some implies {
                &&& st.cols[i].end < s.len()
                &&& st.cols[i].sep == Some(s[st.cols[i].end as int])
                &&& (i + 1 < st.cols.len() ==> st.cols[i].end < st.cols[i + 1].begin)
            } by {
                if i < p.cols.len() {
                    assert(st.cols[i] == p.cols[i]);
                    if i + 1 < p.cols.len() {
                        assert(st.cols[i + 1] == p.cols[i + 1]);
                    }
                }
            }
        }
    }
}

pub proof fn lemma_advance_keeps_settings(bs: Seq<Boundary>, c: char)
    ensures
        reset_all(advance(bs, c)) == reset_all(bs),
{
    assert(reset_all(advance(bs, c)) =~= reset_all(bs));
}

pub proof fn lemma_reset_twice(bs: Seq<Boundary>)
    ensures
        reset_all(reset_all(bs)) == reset_all(bs),
{
    assert(reset_all(reset_all(bs)) =~= reset_all(bs));
}

/// Where a scan of a line stands, as the executable code holds it.
struct Cursor {
    inside: bool,
    column_begin: usize,
    past_column_end: usize,
}

/// The analyzer, formatter, line and cursor hold the scan of the line from
/// `base` after the characters before `k`, the line's columns being `c0`
/// and the width table `w0` before the scan.
spec fn tracks(
    a: &Analyzer,
    fmt: &Formatter,
    l: &LineDescr,
    cur: Cursor,
    base: int,
    k: int,
    c0: Seq<Column>,
    w0: Seq<usize>,
    inc0: Seq<Boundary>,
    exc0: Seq<Boundary>,
) -> bool {
    let st = scan_upto(a.seps@, a.seps_new_column@, l.s@, base, inc0, exc0, k);
    &&& 0 <= base <= k <= l.s@.len()
    &&& c0.len() + l.s@.len() + 4 < usize::MAX
    &&& l.wf()
    &&& cur.inside == st.inside
    &&& cur.column_begin == st.begin
    &&& cur.past_column_end == st.past_end
    &&& a.includes@ == st.inc
    &&& a.excludes@ == st.exc
    &&& reset_all(a.includes@) == inc0
    &&& reset_all(a.excludes@) == exc0
    &&& l.columns@ == appended(fmt.add_pre_start, c0, st.cols)
    &&& fmt.columns@ == measure(w0, l.columns@)
}

impl Analyzer {
    /// One step of the scan, over the character at `off`.
    fn scan_char(
        &mut self,
        fmt: &mut Formatter,
        l: &mut LineDescr,
        cur: &mut Cursor,
        off: usize,
        Ghost(base): Ghost<int>,
        Ghost(c0): Ghost<Seq<Column>>,
        Ghost(w0): Ghost<Seq<usize>>,
        Ghost(inc0): Ghost<Seq<Boundary>>,
        Ghost(exc0): Ghost<Seq<Boundary>>,
    )
        requires
            tracks(&*old(self), &*old(fmt), &*old(l), *old(cur), base, off as int, c0, w0, inc0, exc0),
            off < old(l).s@.len(),
        ensures
            tracks(&*final(self), &*final(fmt), &*final(l), *final(cur), base, off + 1, c0, w0, inc0, exc0),
            final(self).seps == old(self).seps,
            final(self).seps_new_column == old(self).seps_new_column,
            final(l).s == old(l).s,
            final(fmt).total_size == old(fmt).total_size,
            final(fmt).line_starts_to_ignore == old(fmt).line_starts_to_ignore,
            final(fmt).add_pre_start == old(fmt).add_pre_start,
    {
        let ghost s = l.s@;
        let ghost pre = fmt.add_pre_start;
        let ghost st = scan_upto(self.seps@, self.seps_new_column@, s, base, inc0, exc0, off as int);
        proof {
            lemma_scan_facts(self.seps@, self.seps_new_column@, s, base, inc0, exc0, off as int);
            lemma_measure_dominates(w0, l.columns@);
            lemma_advance_keeps_settings(self.includes@, s[off as int]);
            lemma_advance_keeps_settings(self.excludes@, s[off as int]);
        }
        let v = l.s[off];
        if !cur.inside {
            if self.is_column_begin(v) {
                cur.column_begin = off;
                cur.inside = true;
            }
        } else if self.is_column_end(v) {
            let ghost cols_before = l.columns@;
            let ghost c = Column { begin: cur.column_begin, end: off, sep: Some(v) };
            fmt.add_column(cur.column_begin, off, Some(v), l);
            proof {
                lemma_appended_push(pre, c0, st.cols, c);
                lemma_measure_appended(w0, pre, cols_before, seq![c]);
            }
            cur.past_column_end = off + 1;
            cur.inside = false;
        }
    }

    /// Ends the scan of a line: a column still open, or the text left after
    /// the last separator, runs to the end of the line.
    fn scan_finish(
        &self,
        fmt: &mut Formatter,
        l: &mut LineDescr,
        cur: &Cursor,
        Ghost(base): Ghost<int>,
        Ghost(c0): Ghost<Seq<Column>>,
        Ghost(w0): Ghost<Seq<usize>>,
        Ghost(inc0): Ghost<Seq<Boundary>>,
        Ghost(exc0): Ghost<Seq<Boundary>>,
    )
        requires
            tracks(self, &*old(fmt), &*old(l), *cur, base, old(l).s@.len() as int, c0, w0, inc0, exc0),
        ensures
            final(l).s == old(l).s,
            final(l).wf(),
            final(l).columns@ == appended(
                old(fmt).add_pre_start,
                c0,
                scan_result(
                    scan_upto(self.seps@, self.seps_new_column@, old(l).s@, base, inc0, exc0, old(l).s@.len() as int),
                    old(l).s@.len() as int,
                ),
            ),
            final(fmt).columns@ == measure(w0, final(l).columns@),
            final(fmt).total_size == old(fmt).total_size,
            final(fmt).line_starts_to_ignore == old(fmt).line_starts_to_ignore,
            final(fmt).add_pre_start == old(fmt).add_pre_start,
    {
        let n = l.s.len();
        let ghost pre = fmt.add_pre_start;
        let ghost st = scan_upto(self.seps@, self.seps_new_column@, l.s@, base, inc0, exc0, n as int);
        proof {
            lemma_scan_facts(self.seps@, self.seps_new_column@, l.s@, base, inc0, exc0, n as int);
            lemma_measure_dominates(w0, l.columns@);
        }
        if cur.inside {
            let ghost cols_before = l.columns@;
            let ghost c = Column { begin: cur.column_begin, end: n, sep: None };
            fmt.add_column(cur.column_begin, n, None, l);
            proof {
                lemma_appended_push(pre, c0, st.cols, c);
                lemma_measure_appended(w0, pre, cols_before, seq![c]);
            }
        } else if cur.past_column_end < n {
            let ghost cols_before = l.columns@;
            let ghost c = Column { begin: cur.past_column_end, end: n, sep: None };
            fmt.add_column(cur.past_column_end, n, None, l);
            proof {
                lemma_appended_push(pre, c0, st.cols, c);
                lemma_measure_appended(w0, pre, cols_before, seq![c]);
            }
        }
    }

    /// Cuts the text of `l` from position `base` on into columns, adding
    /// each through the formatter; the positions are those of the whole line.
    /// No prefix to ignore is looked for: the analyzers that cut the fields
    /// of a part of a line use it on a line the formatter did not leave alone.
    pub(crate) fn scan_substr(&mut self, fmt: &mut Formatter, base: usize, l: &mut LineDescr) -> (r: Result<(), AnalyzeErr>)
        requires
            base <= old(l).s@.len(),
            old(l).wf(),
            dominates(old(fmt).columns@, old(l).columns@),
            old(l).columns@.len() + old(l).s@.len() + 4 < usize::MAX,
        ensures
            r is Ok,
            final(self).same_settings(old(self)),
            final(l).s == old(l).s,
            final(l).wf(),
            final(l).columns@ == appended(
                old(fmt).add_pre_start,
                old(l).columns@,
                old(self).columns_from(old(l).s@, base as int),
            ),
            final(fmt).columns@ == measure(old(fmt).columns@, final(l).columns@),
            final(fmt).total_size == old(fmt).total_size,
            final(fmt).line_starts_to_ignore == old(fmt).line_starts_to_ignore,
            final(fmt).add_pre_start == old(fmt).add_pre_start,
    {
        let ghost s = l.s@;
        let ghost pre = fmt.add_pre_start;
        let ghost c0 = l.columns@;
        let ghost w0 = fmt.columns@;
        let ghost seps = self.seps@;
        let ghost ncs = self.seps_new_column@;
        let ghost inc0 = reset_all(self.includes@);
        let ghost exc0 = reset_all(self.excludes@);
        self.reset();
        let n = l.s.len();
        let mut cur = Cursor {
            inside: false,
            column_begin: base,
            past_column_end: base,
        };
        let mut off: usize = base;
        proof {
            lemma_measure_same(w0, c0);
            lemma_appended_empty(pre, c0);
            lemma_reset_twice(old(self).includes@);
            lemma_reset_twice(old(self).excludes@);
        }
        while off < n
            invariant
                tracks(&*self, &*fmt, &*l, cur, base as int, off as int, c0, w0, inc0, exc0),
                n == s.len(),
                l.s@ == s,
                l.s == old(l).s,
                self.seps@ == seps,
                self.seps_new_column@ == ncs,
                fmt.add_pre_start == pre,
                fmt.total_size == old(fmt).total_size,
                fmt.line_starts_to_ignore == old(fmt).line_starts_to_ignore,
            decreases n - off,
        {
            self.scan_char(fmt, l, &mut cur, off, Ghost(base as int), Ghost(c0), Ghost(w0), Ghost(inc0), Ghost(exc0));
            off = off + 1;
        }
        self.scan_finish(fmt, l, &cur, Ghost(base as int), Ghost(c0), Ghost(w0), Ghost(inc0), Ghost(exc0));
        Ok(())
    }
}

impl Analyzer {
    /// Cuts the text of `l` from position `base` on into columns, adding
    /// each through the formatter; the positions are those of the whole line.
    /// A text whose first non-whitespace characters start with one of the
    /// formatter's prefixes to ignore gets no column.
    pub fn analyze_substr(&mut self, fmt: &mut Formatter, base: usize, l: &mut LineDescr) -> (r: Result<(), AnalyzeErr>)
        requires
            base <= old(l).s@.len(),
            old(l).wf(),
            dominates(old(fmt).columns@, old(l).columns@),
            old(l).columns@.len() + old(l).s@.len() + 4 < usize::MAX,
        ensures
            r is Ok,
            final(self).same_settings(old(self)),
            final(l).s == old(l).s,
            final(l).wf(),
            final(l).columns@ == if ignored_from(old(fmt).ignores(), old(l).s@, base as int) {
                old(l).columns@
            } else {
                appended(old(fmt).add_pre_start, old(l).columns@, old(self).columns_from(old(l).s@, base as int))
            },
            final(fmt).columns@ == measure(old(fmt).columns@, final(l).columns@),
            final(fmt).total_size == old(fmt).total_size,
            final(fmt).line_starts_to_ignore == old(fmt).line_starts_to_ignore,
            final(fmt).add_pre_start == old(fmt).add_pre_start,
    {
        let n = l.s.len();
        proof {
            lemma_find_first_facts(l.s@, base as int, n as int, Probe::NonWhite);
            lemma_measure_same(fmt.columns@, l.columns@);
        }
        if let Ok(f) = l.s.find_nwhite(base, n) {
            if fmt.check_line_start_to_ignore(&l.s, f) {
                return Ok(());
            }
        }
        self.scan_substr(fmt, base, l)
    }
}

impl LineAnalyzer for Analyzer {
    open spec fn wf(&self) -> bool {
        true
    }

    /// No separators and no boundaries.
    open spec fn has_defaults(&self) -> bool {
        &&& self.seps@.len() == 0
        &&& self.seps_new_column@.len() == 0
        &&& self.includes@.len() == 0
        &&& self.excludes@.len() == 0
    }

    /// Every line with at least one character: it has at least one column.
    open spec fn accepts(&self, s: Seq<char>) -> bool {
        s.len() > 0
    }

    open spec fn analysis(&self, s: Seq<char>) -> Option<Seq<Column>> {
        Some(self.columns_from(s, 0))
    }

    fn clear(&mut self) {
        self.set_separators(Vec::new());
        self.set_new_column_separators(Vec::new());
        self.clear_boundaries(BoundType::Include);
        self.clear_boundaries(BoundType::Exclude);
    }

    fn can_accept(&self, s: &Vec<char>) -> (r: Result<(), AnalyzeErr>) {
        if s.len() > 0 {
            Ok(())
        } else {
            Err(AnalyzeErr {})
        }
    }

    fn analyze_line(&mut self, fmt: &mut Formatter, l: &mut LineDescr) -> (r: Result<(), AnalyzeErr>) {
        proof {
            crate::column_tools::lemma_measure_dominates(Seq::empty(), l.columns@);
        }
        self.analyze_substr(fmt, 0, l)
    }
}

/// The columns of a whole scan lie in order within `[base, n]`, none of
/// them empty, each one with a separator followed by it in the line; a scan
/// of some text finds at least one column.
pub proof fn lemma_columns_from(a: Analyzer, s: Seq<char>, base: int)
    requires
        0 <= base <= s.len() < usize::MAX,
    ensures
        spans_ordered(a.columns_from(s, base), base, s.len() as int),
        seps_follow(a.columns_from(s, base), s),
        forall|i: int|
            0 <= i < a.columns_from(s, base).len() ==> #[trigger] a.columns_from(s, base)[i].begin < a.columns_from(
                s,
                base,
            )[i].end,
        base < s.len() ==> a.columns_from(s, base).len() > 0,
{
    let n = s.len() as int;
    let inc = reset_all(a.includes@);
    let exc = reset_all(a.excludes@);
    lemma_scan_facts(a.seps@, a.seps_new_column@, s, base, inc, exc, n);
    let st = scan_upto(a.seps@, a.seps_new_column@, s, base, inc, exc, n);
    let r = a.columns_from(s, base);
    if st.inside || st.past_end < n {
        let c = r.last();
        assert(r.drop_last() == st.cols);
        assert forall|i: int| 0 <= i < r.len() - 1 implies #[trigger] r[i].end <= r[i + 1].begin && r[i].begin
            < r[i + 1].begin by {
            if i + 1 < st.cols.len() {
                assert(r[i] == st.cols[i] && r[i + 1] == st.cols[i + 1]);
            } else {
                assert(r[i] == st.cols[i]);
            }
        }
        assert forall|i: int| 0 <= i < r.len() && (#[trigger] r[i]).sep is Some implies {
            &&& r[i].end < s.len()
            &&& r[i].sep == Some(s[r[i].end as int])
            &&& (i + 1 < r.len() ==> r[i].end < r[i + 1].begin)
        } by {
            assert(r[i] == st.cols[i]);
            if i + 1 < st.cols.len() {
                assert(r[i + 1] == st.cols[i + 1]);
            }
        }
        assert forall|i: int| 0 <= i < r.len() implies #[trigger] r[i].begin < r[i].end by {
            if i < st.cols.len() {
                assert(r[i] == st.cols[i]);
            }
        }
    }
}

/// Two runs of ordered columns, the second starting where the first may
/// end, form one.
pub proof fn lemma_ordered_concat(a: Seq<Column>, b: Seq<Column>, lo: int, mid: int, hi: int)
    requires
        lo <= mid <= hi,
        spans_ordered(a, lo, mid),
        spans_ordered(b, mid, hi),
        forall|i: int| 0 <= i < a.len() ==> #[trigger] a[i].begin < mid,
    ensures
        spans_ordered(a + b, lo, hi),
{
    let c = a + b;
    assert forall|i: int| 0 <= i < c.len() - 1 implies #[trigger] c[i].end <= c[i + 1].begin && c[i].begin
        < c[i + 1].begin by {
        if i + 1 < a.len() {
            assert(c[i] == a[i] && c[i + 1] == a[i + 1]);
        } else if i + 1 == a.len() {
            assert(c[i] == a[i] && c[i + 1] == b[0]);
        } else {
            assert(c[i] == b[i - a.len()] && c[i + 1] == b[i + 1 - a.len()]);
        }
    }
    assert forall|i: int| 0 <= i < c.len() implies lo <= #[trigger] c[i].begin <= c[i].end <= hi by {
        if i < a.len() {
            assert(c[i] == a[i]);
        } else {
            assert(c[i] == b[i - a.len()]);
        }
    }
}

/// The first position of `t` from `i` on that holds no decimal digit.
pub open spec fn first_non_digit(t: Seq<char>, i: int) -> Option<int>
    decreases t.len() - i,
{
    if i >= t.len() {
        None
    } else if !is_digit(t[i]) {
        Some(i)
    } else {
        first_non_digit(t, i + 1)
    }
}

/// A boundary written as its count in digits, then its opening character,
/// then, for a nesting region, its closing one.
pub open spec fn boundary_value(t: Seq<char>) -> Option<Boundary> {
    match first_non_digit(t, 0) {
        None => None,
        Some(k) => match unsigned_value(t.subrange(0, k), i16::MAX as int) {
            None => None,
            Some(v) => Some(
                Boundary {
                    open: t[k],
                    close: if k + 1 < t.len() {
                        Some(t[k + 1])
                    } else {
                        None
                    },
                    lim: v as i16,
                    lim_orig: v as i16,
                },
            ),
        },
    }
}

pub proof fn lemma_first_non_digit(t: Seq<char>, i: int)
    requires
        0 <= i <= t.len(),
    ensures
        match first_non_digit(t, i) {
            Some(k) => i <= k < t.len() && !is_digit(t[k]),
            None => true,
        },
    decreases t.len() - i,
{
    if i < t.len() {
        lemma_first_non_digit(t, i + 1);
    }
}

impl Boundary {
    /// The boundary written `<count><open>[<close>]`, such as `1"` or `1{}`.
    pub fn from_str(s: &str) -> (r: Result<Boundary, ParseErr>)
        ensures
            match boundary_value(s@) {
                Some(b) => r == Ok::<Boundary, ParseErr>(b),
                None => r is Err,
            },
    {
        let t = chars_of(s);
        let n = t.len();
        let mut k: usize = 0;
        while k < n && '0' <= t[k] && t[k] <= '9'
            invariant
                k <= n == t@.len(),
                first_non_digit(t@, 0) == first_non_digit(t@, k as int),
            decreases n - k,
        {
            k = k + 1;
        }
        if k == n {
            return Err(ParseErr {});
        }
        proof {
            lemma_first_non_digit(t@, 0);
        }
        match parse_unsigned(&t, 0, k, i16::MAX as u64) {
            None => Err(ParseErr {}),
            Some(v) => {
                let lim_orig = v as i16;
                let close = if k + 1 < n {
                    Some(t[k + 1])
                } else {
                    None
                };
                Ok(Boundary { open: t[k], close, lim: lim_orig, lim_orig })
            },
        }
    }
}

pub open spec fn bound_type_value(t: Seq<char>) -> Result<BoundType, ParseErr> {
    if t == "include"@ {
        Ok(BoundType::Include)
    } else if t == "exclude"@ {
        Ok(BoundType::Exclude)
    } else {
        Err(ParseErr {})
    }
}

impl BoundType {
    /// The kind named `include` or `exclude`.
    pub fn from_str(s: &str) -> (r: Result<BoundType, ParseErr>)
        ensures
            r == bound_type_value(s@),
    {
        if same_text(s, "include") {
            Ok(BoundType::Include)
        } else if same_text(s, "exclude") {
            Ok(BoundType::Exclude)
        } else {
            Err(ParseErr {})
        }
    }
}

/// The settings the options of a tracker give.
pub struct SepArgs {
    pub seps: Seq<char>,
    pub ncs: Seq<char>,
    pub inc: Seq<Boundary>,
    pub exc: Seq<Boundary>,
    /// A boundary did not parse.
    pub bad: bool,
}

/// The settings after the options `args` from `i` on: `--include` and
/// `--exclude` add the boundary that follows, and a boundary that does not
/// parse is an error; `--seps` and `--new_column_seps` take the characters
/// that follow. An option missing its value ends the list.
pub open spec fn sep_args(args: Seq<Seq<char>>, i: int, st: SepArgs) -> SepArgs
    decreases args.len() - i,
{
    if i < 0 || i >= args.len() || st.bad {
        st
    } else if args[i] == "--include"@ || args[i] == "--exclude"@ {
        if i + 1 < args.len() {
            let next = match boundary_value(args[i + 1]) {
                Some(b) => if args[i] == "--include"@ {
                    SepArgs { inc: st.inc.push(b), ..st }
                } else {
                    SepArgs { exc: st.exc.push(b), ..st }
                },
                None => SepArgs { bad: true, ..st },
            };
            sep_args(args, i + 2, next)
        } else {
            st
        }
    } else if args[i] == "--seps"@ {
        if i + 1 < args.len() {
            sep_args(args, i + 2, SepArgs { seps: args[i + 1], ..st })
        } else {
            st
        }
    } else if args[i] == "--new_column_seps"@ {
        if i + 1 < args.len() {
            sep_args(args, i + 2, SepArgs { ncs: args[i + 1], ..st })
        } else {
            st
        }
    } else {
        sep_args(args, i + 1, st)
    }
}

impl Analyzer {
    /// Sets the tracker up from command-line options; the separators are a
    /// space unless `--seps` says otherwise. Fails on a boundary that does
    /// not parse.
    pub fn parse_args(&mut self, args: &Vec<String>) -> (r: Result<(), ParseErr>)
        ensures
            ({
                let st = sep_args(
                    args@.map_values(|a: String| a@),
                    0,
                    SepArgs {
                        seps: seq![' '],
                        ncs: Seq::empty(),
                        inc: old(self).includes@,
                        exc: old(self).excludes@,
                        bad: false,
                    },
                );
                &&& r is Err <==> st.bad
                &&& r is Ok ==> {
                    &&& ascending(final(self).seps@) && holds_chars(final(self).seps@, st.seps)
                    &&& ascending(final(self).seps_new_column@) && holds_chars(final(self).seps_new_column@, st.ncs)
                    &&& final(self).includes@ == st.inc
                    &&& final(self).excludes@ == st.exc
                }
            }),
    {
        let ghost av = args@.map_values(|a: String| a@);
        let mut separators: Vec<char> = vec![' '];
        let mut new_column_separators: Vec<char> = Vec::new();
        let ghost st0 = SepArgs { seps: seq![' '], ncs: Seq::empty(), inc: self.includes@, exc: self.excludes@, bad: false };
        assert(separators@ =~= seq![' ']);
        let n = args.len();
        let mut i: usize = 0;
        while i < n
            invariant
                n == args@.len() == av.len(),
                av == args@.map_values(|a: String| a@),
                i <= n,
                st0 == (SepArgs {
                    seps: seq![' '],
                    ncs: Seq::empty(),
                    inc: old(self).includes@,
                    exc: old(self).excludes@,
                    bad: false,
                }),
                sep_args(av, 0, st0) == sep_args(
                    av,
                    i as int,
                    SepArgs {
                        seps: separators@,
                        ncs: new_column_separators@,
                        inc: self.includes@,
                        exc: self.excludes@,
                        bad: false,
                    },
                ),
            decreases n - i,
        {
            let ghost cur = SepArgs {
                seps: separators@,
                ncs: new_column_separators@,
                inc: self.includes@,
                exc: self.excludes@,
                bad: false,
            };
            let arg = &args[i];
            assert(arg@ == av[i as int]);
            let is_inc = same_text(arg.as_str(), "--include");
            let is_exc = same_text(arg.as_str(), "--exclude");
            if is_inc || is_exc {
                if i + 1 < n {
                    assert(args@[i + 1]@ == av[i + 1]);
                    match Boundary::from_str(args[i + 1].as_str()) {
                        Ok(bnd) => {
                            if is_inc {
                                self.add_boundary(bnd, BoundType::Include);
                            } else {
                                self.add_boundary(bnd, BoundType::Exclude);
                            }
                        },
                        Err(e) => {
                            proof {
                                reveal_with_fuel(sep_args, 2);
                            }
                            assert(sep_args(av, i as int, cur).bad);
                            return Err(e);
                        },
                    }
                    i = i + 2;
                } else {
                    i = n;
                }
            } else if same_text(arg.as_str(), "--seps") {
                if i + 1 < n {
                    assert(args@[i + 1]@ == av[i + 1]);
                    separators = chars_of(args[i + 1].as_str());
                    i = i + 2;
                } else {
                    i = n;
                }
            } else if same_text(arg.as_str(), "--new_column_seps") {
                if i + 1 < n {
                    assert(args@[i + 1]@ == av[i + 1]);
                    new_column_separators = chars_of(args[i + 1].as_str());
                    i = i + 2;
                } else {
                    i = n;
                }
            } else {
                i = i + 1;
            }
        }
        self.set_separators(separators);
        self.set_new_column_separators(new_column_separators);
        Ok(())
    }
}

} // verus!
