use vstd::prelude::*;

use crate::analyzers::find_first;
use crate::analyzers::lemma_find_first_facts;
use crate::analyzers::LineAnalyzer;
use crate::analyzers::LineParser;
use crate::analyzers::Probe;
use crate::decimal::parse_unsigned;
use crate::decimal::unsigned_value;

verus! {

/// Relies on std's `String::push`: it appends the character to the string.
pub assume_specification[ String::push ](s: &mut String, ch: char)
    ensures
        final(s)@ == old(s)@.push(ch),
;

/// The characters of a string, in order.
pub fn chars_of(s: &str) -> (r: Vec<char>)
    ensures
        r@ == s@,
{
    let mut r: Vec<char> = Vec::new();
    for c in it: s.chars()
        invariant
            r@ == it.seq().subrange(0, it.index() as int),
            it.seq() == s@,
    {
        r.push(c);
    }
    r
}

/// One field of a line: the characters in `[begin, end)`, followed by the
/// separator `sep` when the field has one.
#[derive(Debug, Clone, Copy, PartialEq, Eq, Structural)]
pub struct Column {
    pub begin: usize,
    pub end: usize,
    pub sep: Option<char>,
}

/// The column a formatter that keeps the text before the first field puts
/// first on a line, before that text is known. It spans no text rather than
/// the whole line: the width recorded for it is zero either way, and an
/// empty span keeps the width table equal to the measure of the line's
/// columns at every step. `analyze_line` puts the text before the first
/// field in its place.
pub open spec fn placeholder() -> Column {
    Column { begin: 0, end: 0, sep: None }
}

pub open spec fn col_width(c: Column) -> usize {
    (c.end - c.begin) as usize
}

/// Every column lies within a text of `n` characters.
pub open spec fn cols_within(cols: Seq<Column>, n: int) -> bool {
    forall|i: int| 0 <= i < cols.len() ==> #[trigger] cols[i].begin <= cols[i].end <= n
}

/// The width recorded at index `i`, zero past the end of the table.
pub open spec fn width_at(w: Seq<usize>, i: int) -> usize {
    if 0 <= i < w.len() {
        w[i]
    } else {
        0
    }
}

pub open spec fn max_usize(a: usize, b: usize) -> usize {
    if a >= b {
        a
    } else {
        b
    }
}

pub open spec fn max_int(a: int, b: int) -> int {
    if a >= b {
        a
    } else {
        b
    }
}

/// The width table after the columns of one line were measured into `w`:
/// at each index, the larger of the old width and that column's width.
pub open spec fn measure(w: Seq<usize>, cols: Seq<Column>) -> Seq<usize> {
    Seq::new(
        max_int(w.len() as int, cols.len() as int) as nat,
        |i: int|
            max_usize(
                width_at(w, i),
                if i < cols.len() {
                    col_width(cols[i])
                } else {
                    0
                },
            ),
    )
}

/// The table `w` is at least as wide as each of the columns.
pub open spec fn dominates(w: Seq<usize>, cols: Seq<Column>) -> bool {
    cols.len() <= w.len() && forall|i: int| 0 <= i < cols.len() ==> col_width(#[trigger] cols[i]) <= w[i]
}

/// The table after the width `sz` was recorded at index `idx`.
pub open spec fn grow(w: Seq<usize>, idx: int, sz: usize) -> Seq<usize> {
    Seq::new(
        max_int(w.len() as int, idx + 1) as nat,
        |i: int|
            if i == idx {
                max_usize(width_at(w, i), sz)
            } else {
                width_at(w, i)
            },
    )
}

/// The columns of a line after `new` were added to `cols`; a formatter that
/// keeps the text before the first field puts a placeholder first.
pub open spec fn appended(pre: bool, cols: Seq<Column>, new: Seq<Column>) -> Seq<Column> {
    if pre && cols.len() == 0 && new.len() > 0 {
        seq![placeholder()] + new
    } else {
        cols + new
    }
}

pub proof fn lemma_appended_push(pre: bool, cols: Seq<Column>, new: Seq<Column>, c: Column)
    ensures
        appended(pre, cols, new.push(c)) == appended(pre, appended(pre, cols, new), seq![c]),
{
    if pre && cols.len() == 0 {
        if new.len() == 0 {
            assert(new.push(c) =~= seq![c]);
            assert(cols + new =~= cols);
        } else {
            assert(seq![placeholder()] + new.push(c) =~= (seq![placeholder()] + new) + seq![c]);
        }
    } else {
        assert(cols + new.push(c) =~= (cols + new) + seq![c]);
    }
}

pub proof fn lemma_appended_empty(pre: bool, cols: Seq<Column>)
    ensures
        appended(pre, cols, Seq::<Column>::empty()) == cols,
{
    assert(cols + Seq::<Column>::empty() =~= cols);
}

/// Measuring columns that extend those already measured.
pub proof fn lemma_measure_appended(w: Seq<usize>, pre: bool, cols: Seq<Column>, new: Seq<Column>)
    ensures
        measure(measure(w, cols), appended(pre, cols, new)) == measure(w, appended(pre, cols, new)),
{
    let all = appended(pre, cols, new);
    assert(all.subrange(0, cols.len() as int) =~= cols);
    assert(measure(measure(w, cols), all) =~= measure(w, all));
}

/// A table that already holds the columns stays as it is when they are measured.
pub proof fn lemma_measure_same(w: Seq<usize>, cols: Seq<Column>)
    requires
        dominates(w, cols),
    ensures
        measure(w, cols) == w,
{
    assert(measure(w, cols) =~= w);
}

/// Adding columns in two steps adds them all.
pub proof fn lemma_appended_concat(pre: bool, cols: Seq<Column>, a: Seq<Column>, b: Seq<Column>)
    ensures
        appended(pre, appended(pre, cols, a), b) == appended(pre, cols, a + b),
{
    if pre && cols.len() == 0 {
        if a.len() == 0 {
            assert(cols + a =~= cols);
            assert(a + b =~= b);
        } else {
            assert((seq![placeholder()] + a) + b =~= seq![placeholder()] + (a + b));
        }
    } else {
        assert((cols + a) + b =~= cols + (a + b));
    }
}

pub proof fn lemma_measure_dominates(w: Seq<usize>, cols: Seq<Column>)
    ensures
        dominates(measure(w, cols), cols),
{
}

/// A line of text and the columns one analysis found in it.
pub struct LineDescr {
    pub s: Vec<char>,
    pub columns: Vec<Column>,
}

impl LineDescr {
    pub open spec fn wf(&self) -> bool {
        cols_within(self.columns@, self.s@.len() as int)
    }

    /// A line with no columns yet.
    pub fn new(s: &str) -> (r: LineDescr)
        ensures
            r.s@ == s@,
            r.columns@.len() == 0,
            r.wf(),
    {
        LineDescr { s: chars_of(s), columns: Vec::new() }
    }
}

/// `p` occurs in `s` at position `off`.
pub open spec fn is_prefix_at(p: Seq<char>, s: Seq<char>, off: int) -> bool {
    0 <= off && off + p.len() <= s.len() && s.subrange(off, off + p.len()) == p
}

/// The text of `s` from `off` on starts with one of the prefixes in `ig`.
pub open spec fn ignored_at(ig: Seq<Seq<char>>, s: Seq<char>, off: int) -> bool {
    exists|k: int| 0 <= k < ig.len() && is_prefix_at(#[trigger] ig[k], s, off)
}

/// Whether `p` occurs in `s` at position `off`.
pub fn starts_with_at(s: &Vec<char>, off: usize, p: &Vec<char>) -> (r: bool)
    requires
        off <= s@.len(),
    ensures
        r == is_prefix_at(p@, s@, off as int),
{
    if p.len() > s.len() - off {
        return false;
    }
    let n = p.len();
    let sl = s.len();
    let mut i: usize = 0;
    while i < n
        invariant
            n == p@.len(),
            sl == s@.len(),
            off + n <= sl,
            off <= s@.len(),
            off + p@.len() <= s@.len(),
            i <= p@.len(),
            forall|j: int| 0 <= j < i ==> s@[off + j] == p@[j],
        decreases p@.len() - i,
    {
        if s[off + i] != p[i] {
            assert(s@.subrange(off as int, off + p@.len())[i as int] != p@[i as int]);
            return false;
        }
        i = i + 1;
    }
    assert(s@.subrange(off as int, off + p@.len()) =~= p@);
    true
}

/// Accumulates, over a batch of lines, the widest text seen at each column
/// index, and holds the options that shape an analysis.
pub struct Formatter {
    /// The widest text seen so far at each column index.
    pub columns: Vec<usize>,
    /// The sum of the widths, as far as it fits in `usize`; set by `finish`.
    pub total_size: usize,
    /// Lines whose text, from the first non-whitespace character on, starts
    /// with one of these are not cut into columns.
    pub line_starts_to_ignore: Vec<Vec<char>>,
    /// Keep the text before the first field of a line as a column of its own.
    pub add_pre_start: bool,
}

/// The sum of a table of widths.
pub open spec fn sum_widths(w: Seq<usize>) -> int
    decreases w.len(),
{
    if w.len() == 0 {
        0
    } else {
        sum_widths(w.drop_last()) + w.last()
    }
}

impl Formatter {
    pub open spec fn ignores(&self) -> Seq<Seq<char>> {
        self.line_starts_to_ignore@.map_values(|v: Vec<char>| v@)
    }

    /// A formatter with an empty width table and no options set.
    pub fn new() -> (r: Self)
        ensures
            r.columns@.len() == 0,
            r.total_size == 0,
            r.ignores().len() == 0,
            !r.add_pre_start,
    {
        Self {
            columns: Vec::new(),
            total_size: 0,
            line_starts_to_ignore: Vec::new(),
            add_pre_start: false,
        }
    }

    /// Drops the options; the width table stays.
    pub fn clear(&mut self)
        ensures
            final(self).columns == old(self).columns,
            final(self).total_size == old(self).total_size,
            final(self).ignores().len() == 0,
            !final(self).add_pre_start,
    {
        self.set_line_starts_to_ignore(Vec::new());
        self.add_pre_start = false;
    }

    pub fn set_add_pre_start(&mut self, val: bool)
        ensures
            final(self).columns == old(self).columns,
            final(self).total_size == old(self).total_size,
            final(self).line_starts_to_ignore == old(self).line_starts_to_ignore,
            final(self).add_pre_start == val,
    {
        self.add_pre_start = val;
    }

    pub fn set_line_starts_to_ignore(&mut self, vals: Vec<String>)
        ensures
            final(self).columns == old(self).columns,
            final(self).total_size == old(self).total_size,
            final(self).add_pre_start == old(self).add_pre_start,
            final(self).ignores() == vals@.map_values(|v: String| v@),
    {
        let mut ig: Vec<Vec<char>> = Vec::new();
        let mut i: usize = 0;
        while i < vals.len()
            invariant
                i <= vals@.len(),
                ig@.len() == i,
                forall|j: int| 0 <= j < i ==> (#[trigger] ig@[j])@ == vals@[j]@,
            decreases vals@.len() - i,
        {
            ig.push(chars_of(vals[i].as_str()));
            i = i + 1;
        }
        self.line_starts_to_ignore = ig;
        assert(self.ignores() =~= vals@.map_values(|v: String| v@));
    }

    /// Records the width `sz` at index `idx`, growing the table as needed.
    fn check_biggest_column(&mut self, idx: usize, sz: usize)
        requires
            idx < usize::MAX,
        ensures
            final(self).columns@ == grow(old(self).columns@, idx as int, sz),
            final(self).total_size == old(self).total_size,
            final(self).line_starts_to_ignore == old(self).line_starts_to_ignore,
            final(self).add_pre_start == old(self).add_pre_start,
    {
        let ghost w0 = self.columns@;
        while self.columns.len() <= idx
            invariant
                w0.len() <= self.columns@.len() <= max_int(w0.len() as int, idx + 1),
                forall|i: int| 0 <= i < self.columns@.len() ==> #[trigger] self.columns@[i] == width_at(w0, i),
                self.total_size == old(self).total_size,
                self.line_starts_to_ignore == old(self).line_starts_to_ignore,
                self.add_pre_start == old(self).add_pre_start,
            decreases idx + 1 - self.columns@.len(),
        {
            self.columns.push(0);
        }
        if self.columns[idx] < sz {
            self.columns.set(idx, sz);
        }
        assert(self.columns@ =~= grow(w0, idx as int, sz));
    }

    /// Adds the column `[begin, end)` ended by `ch` to the line and records
    /// its width; the first column added to a line of a formatter that keeps
    /// the text before the first field comes after a placeholder.
    pub fn add_column(&mut self, begin: usize, end: usize, ch: Option<char>, l: &mut LineDescr)
        requires
            begin <= end <= old(l).s@.len(),
            old(l).wf(),
            old(l).columns@.len() + 2 < usize::MAX,
            dominates(old(self).columns@, old(l).columns@),
        ensures
            final(l).s == old(l).s,
            final(l).wf(),
            final(l).columns@ == appended(
                old(self).add_pre_start,
                old(l).columns@,
                seq![Column { begin, end, sep: ch }],
            ),
            final(self).columns@ == measure(old(self).columns@, final(l).columns@),
            final(self).total_size == old(self).total_size,
            final(self).line_starts_to_ignore == old(self).line_starts_to_ignore,
            final(self).add_pre_start == old(self).add_pre_start,
    {
        let ghost w0 = self.columns@;
        let ghost c0 = l.columns@;
        let c = Column { begin, end, sep: ch };
        if self.add_pre_start && l.columns.len() == 0 {
            l.columns.push(Column { begin: 0, end: 0, sep: None });
            self.check_biggest_column(0, 0);
        }
        let ghost w1 = self.columns@;
        let ghost c1 = l.columns@;
        assert(dominates(w1, c1));
        l.columns.push(c);
        let idx = l.columns.len() - 1;
        self.check_biggest_column(idx, end - begin);
        assert(l.columns@ =~= appended(self.add_pre_start, c0, seq![c]));
        assert(self.columns@ =~= measure(w0, l.columns@));
    }

    /// Whether `s`, from position `off` on, starts with a prefix to ignore.
    pub fn check_line_start_to_ignore(&self, s: &Vec<char>, off: usize) -> (r: bool)
        requires
            off <= s@.len(),
        ensures
            r == ignored_at(self.ignores(), s@, off as int),
    {
        let mut i: usize = 0;
        while i < self.line_starts_to_ignore.len()
            invariant
                i <= self.line_starts_to_ignore@.len(),
                off <= s@.len(),
                forall|k: int| 0 <= k < i ==> !is_prefix_at(#[trigger] self.ignores()[k], s@, off as int),
            decreases self.line_starts_to_ignore@.len() - i,
        {
            if starts_with_at(s, off, &self.line_starts_to_ignore[i]) {
                assert(is_prefix_at(self.ignores()[i as int], s@, off as int));
                return true;
            }
            i = i + 1;
        }
        false
    }

    /// Sums the widths, as far as the sum fits in `usize`.
    pub fn finish(&mut self)
        ensures
            final(self).columns == old(self).columns,
            final(self).line_starts_to_ignore == old(self).line_starts_to_ignore,
            final(self).add_pre_start == old(self).add_pre_start,
            final(self).total_size as int == if sum_widths(old(self).columns@) <= usize::MAX {
                sum_widths(old(self).columns@)
            } else {
                usize::MAX as int
            },
    {
        let mut total: usize = 0;
        let mut i: usize = 0;
        let ghost w = self.columns@;
        while i < self.columns.len()
            invariant
                w == self.columns@,
                i <= w.len(),
                total as int == if sum_widths(w.subrange(0, i as int)) <= usize::MAX {
                    sum_widths(w.subrange(0, i as int))
                } else {
                    usize::MAX as int
                },
            decreases w.len() - i,
        {
            assert(w.subrange(0, i + 1).drop_last() =~= w.subrange(0, i as int));
            total = total.saturating_add(self.columns[i]);
            i = i + 1;
        }
        assert(w.subrange(0, w.len() as int) =~= w);
        self.total_size = total;
    }
}

/// The columns of an analyzed line: a formatter that keeps the text before
/// the first field puts that text first, as a column with no separator.
pub open spec fn with_prestart(pre: bool, cols: Seq<Column>) -> Seq<Column> {
    if pre && cols.len() > 0 {
        seq![Column { begin: 0, end: cols[0].begin, sep: None }] + cols
    } else {
        cols
    }
}

impl Formatter {
    /// Adds the columns `cols` to the line in order, as `add_column` does.
    pub fn add_columns(&mut self, cols: &Vec<Column>, l: &mut LineDescr)
        requires
            cols_within(cols@, old(l).s@.len() as int),
            old(l).wf(),
            old(l).columns@.len() + cols@.len() + 2 < usize::MAX,
            dominates(old(self).columns@, old(l).columns@),
        ensures
            final(l).s == old(l).s,
            final(l).wf(),
            final(l).columns@ == appended(old(self).add_pre_start, old(l).columns@, cols@),
            final(self).columns@ == measure(old(self).columns@, final(l).columns@),
            final(self).total_size == old(self).total_size,
            final(self).line_starts_to_ignore == old(self).line_starts_to_ignore,
            final(self).add_pre_start == old(self).add_pre_start,
    {
        let ghost c0 = l.columns@;
        let ghost w0 = self.columns@;
        let ghost pre = self.add_pre_start;
        proof {
            lemma_measure_same(w0, c0);
            lemma_appended_empty(pre, c0);
            assert(cols@.subrange(0, 0) =~= Seq::<Column>::empty());
        }
        let mut i: usize = 0;
        while i < cols.len()
            invariant
                i <= cols@.len(),
                cols_within(cols@, l.s@.len() as int),
                l.s == old(l).s,
                l.wf(),
                c0.len() + cols@.len() + 2 < usize::MAX,
                l.columns@ == appended(pre, c0, cols@.subrange(0, i as int)),
                self.columns@ == measure(w0, l.columns@),
                self.total_size == old(self).total_size,
                self.line_starts_to_ignore == old(self).line_starts_to_ignore,
                self.add_pre_start == pre,
            decreases cols@.len() - i,
        {
            let c = cols[i];
            let ghost before = l.columns@;
            proof {
                lemma_measure_dominates(w0, l.columns@);
            }
            self.add_column(c.begin, c.end, c.sep, l);
            proof {
                assert(c == cols@[i as int]);
                assert(cols@.subrange(0, i + 1) =~= cols@.subrange(0, i as int).push(c));
                lemma_appended_push(pre, c0, cols@.subrange(0, i as int), c);
                lemma_measure_appended(w0, pre, before, seq![c]);
            }
            i = i + 1;
        }
        assert(cols@.subrange(0, cols@.len() as int) =~= cols@);
    }

    /// Analyzes one line and records the widths of its columns. A line whose
    /// first non-whitespace text starts with a prefix to ignore is left out
    /// entirely, before the analyzer sees it; a line the analyzer does not
    /// recognize is left with no columns. A formatter that keeps the text
    /// before the first field makes it the line's first column.
    pub fn analyze_line<A: LineAnalyzer>(&mut self, analyzer: &mut A, l: &mut LineDescr)
        requires
            old(analyzer).wf(),
            old(l).wf(),
            old(l).columns@.len() == 0,
            old(l).s@.len() + 8 < usize::MAX,
        ensures
            final(analyzer).wf(),
            forall|t: Seq<char>|
                #[trigger] final(analyzer).analysis(t) == old(analyzer).analysis(t),
            forall|t: Seq<char>| #[trigger] final(analyzer).accepts(t) == old(analyzer).accepts(t),
            final(l).s == old(l).s,
            final(l).wf(),
            final(self).total_size == old(self).total_size,
            final(self).line_starts_to_ignore == old(self).line_starts_to_ignore,
            final(self).add_pre_start == old(self).add_pre_start,
            final(l).columns@ == line_columns(
                old(self).add_pre_start,
                old(self).ignores(),
                old(l).s@,
                old(analyzer).analysis(old(l).s@),
            ),
            final(self).columns@ == measure(old(self).columns@, final(l).columns@),
    {
        let ghost w0 = self.columns@;
        let ghost c0 = l.columns@;
        let ghost pre = self.add_pre_start;
        let ghost res = analyzer.analysis(l.s@);
        proof {
            lemma_find_first_facts(l.s@, 0, l.s@.len() as int, Probe::NonWhite);
            assert(measure(w0, Seq::<Column>::empty()) =~= w0);
        }
        let n = l.s.len();
        let ignored = match l.s.find_nwhite(0, n) {
            Ok(f) => self.check_line_start_to_ignore(&l.s, f),
            Err(_) => false,
        };
        if ignored {
            assert(l.columns@ =~= Seq::<Column>::empty());
            return;
        }
        if let Ok(_) = analyzer.analyze_line(self, l) {
            if l.columns.len() > 0 && self.add_pre_start {
                let ghost cols = res->Some_0;
                assert(c0 =~= Seq::<Column>::empty());
                assert(l.columns@ == seq![placeholder()] + cols);
                assert(l.columns@[1] == cols[0]);
                let first = l.columns[1].begin;
                let ghost w1 = self.columns@;
                l.columns.set(0, Column { begin: 0, end: first, sep: None });
                if self.columns[0] < first {
                    self.columns.set(0, first);
                }
                assert(l.columns@ =~= with_prestart(pre, cols));
                assert(self.columns@ =~= measure(w0, l.columns@));
            } else {
                assert(l.columns@ =~= with_prestart(pre, res->Some_0));
            }
        } else {
            l.columns.clear();
        }
    }
}

/// How a text is placed within a wider field.
#[derive(Debug, Clone, Copy, PartialEq, Eq, Structural)]
pub enum Align {
    Left,
    Center,
    Right,
}

/// `n` copies of `c`.
pub open spec fn fill_n(c: char, n: int) -> Seq<char> {
    Seq::new(n as nat, |_i: int| c)
}

/// The text `t` padded with `delta` fill characters: after it, before it,
/// or half before and half after it, the odd one after.
pub open spec fn aligned(t: Seq<char>, fill: char, delta: int, a: Align) -> Seq<char> {
    match a {
        Align::Left => t + fill_n(fill, delta),
        Align::Right => fill_n(fill, delta) + t,
        Align::Center => fill_n(fill, delta / 2) + t + fill_n(fill, delta / 2 + delta % 2),
    }
}

/// Appends `n` copies of `c`.
fn push_fill(res: &mut String, c: char, n: usize)
    ensures
        final(res)@ == old(res)@ + fill_n(c, n as int),
{
    let mut i: usize = 0;
    while i < n
        invariant
            i <= n,
            res@ == old(res)@ + fill_n(c, i as int),
        decreases n - i,
    {
        res.push(c);
        assert(old(res)@ + fill_n(c, i + 1) =~= (old(res)@ + fill_n(c, i as int)).push(c));
        i = i + 1;
    }
}

/// Appends the characters `[lo, hi)` of `t`.
fn push_chars(res: &mut String, t: &Vec<char>, lo: usize, hi: usize)
    requires
        lo <= hi <= t@.len(),
    ensures
        final(res)@ == old(res)@ + t@.subrange(lo as int, hi as int),
{
    let mut i: usize = lo;
    while i < hi
        invariant
            lo <= i <= hi <= t@.len(),
            res@ == old(res)@ + t@.subrange(lo as int, i as int),
        decreases hi - i,
    {
        res.push(t[i]);
        assert(old(res)@ + t@.subrange(lo as int, i + 1) =~= (old(res)@ + t@.subrange(lo as int, i as int)).push(t@[i as int]));
        i = i + 1;
    }
}

/// The string of the characters of `v`.
pub fn string_of(v: &Vec<char>) -> (r: String)
    ensures
        r@ == v@,
{
    let mut r = String::new();
    push_chars(&mut r, v, 0, v.len());
    assert(v@.subrange(0, v@.len() as int) =~= v@);
    r
}

/// The characters `[lo, hi)` of `target`, padded as `a` says with `delta`
/// copies of `fill`.
fn align_string(target: &Vec<char>, lo: usize, hi: usize, fill: char, delta: usize, a: &Align) -> (r: String)
    requires
        lo <= hi <= target@.len(),
    ensures
        r@ == aligned(target@.subrange(lo as int, hi as int), fill, delta as int, *a),
{
    let mut res = String::new();
    match a {
        Align::Right => push_fill(&mut res, fill, delta),
        Align::Center => push_fill(&mut res, fill, delta / 2),
        Align::Left => {},
    }
    push_chars(&mut res, target, lo, hi);
    match a {
        Align::Left => push_fill(&mut res, fill, delta),
        Align::Center => push_fill(&mut res, fill, delta / 2 + delta % 2),
        Align::Right => {},
    }
    res
}

/// How a separator is printed: the separator padded with `count` copies of
/// `fill`, placed as `align` says.
pub struct SeparatorConfig {
    pub sep: char,
    pub fill: char,
    pub count: u8,
    pub align: Align,
    pub sep_str: String,
}

impl SeparatorConfig {
    pub open spec fn wf(&self) -> bool {
        self.sep_str@ == aligned(seq![self.sep], self.fill, self.count as int, self.align)
    }

    pub fn new(sep: char, fill: char, count: u8, align: Align) -> (r: Self)
        ensures
            r.sep == sep,
            r.fill == fill,
            r.count == count,
            r.align == align,
            r.wf(),
    {
        let one = vec![sep];
        let sep_str = align_string(&one, 0, 1, fill, count as usize, &align);
        assert(one@.subrange(0, 1) =~= seq![sep]);
        Self { sep, fill, count, align, sep_str }
    }
}

/// The index of the first configuration of the separator `c`.
pub open spec fn first_sep_config(cfgs: Seq<SeparatorConfig>, c: char) -> Option<int>
    decreases cfgs.len(),
{
    if cfgs.len() == 0 {
        None
    } else {
        match first_sep_config(cfgs.drop_last(), c) {
            Some(i) => Some(i),
            None => if cfgs.last().sep == c {
                Some(cfgs.len() - 1)
            } else {
                None
            },
        }
    }
}

/// How the separator `c` is printed: as its configuration says, or as itself.
pub open spec fn sep_text(cfgs: Seq<SeparatorConfig>, c: char) -> Seq<char> {
    match first_sep_config(cfgs, c) {
        Some(i) => cfgs[i].sep_str@,
        None => seq![c],
    }
}

/// Some column before index `i` has a width above zero.
pub open spec fn any_wide(w: Seq<usize>, i: int) -> bool
    decreases i,
{
    if i <= 0 {
        false
    } else {
        any_wide(w, i - 1) || w[i - 1] > 0
    }
}

/// Every width leaves room for the extra fill.
pub open spec fn widths_fit(w: Seq<usize>) -> bool {
    forall|i: int| 0 <= i < w.len() ==> #[trigger] w[i] < usize::MAX - 256
}

/// Prints the lines of a batch with their columns padded to the widths the
/// batch's formatter recorded.
pub struct Printer {
    pub fill: char,
    pub fill_count: u8,
    /// Put between columns in place of their separators, when not empty.
    pub join: String,
    pub align: Align,
    pub fmt: Option<Formatter>,
    /// Print a line whose column count differs from the table's as it is.
    pub non_matched_as_is: bool,
    pub sep_joins: Vec<SeparatorConfig>,
}

impl Printer {
    /// How the `i`-th column `c` of a line with text `s` is printed.
    pub open spec fn piece(&self, w: Seq<usize>, s: Seq<char>, c: Column, i: int) -> Seq<char> {
        let explicit = self.join@.len() > 0;
        (if explicit && any_wide(w, i) {
            self.join@
        } else {
            Seq::empty()
        }) + aligned(
            s.subrange(c.begin as int, c.end as int),
            self.fill,
            w[i] - col_width(c) + self.fill_count,
            self.align,
        ) + (if !explicit && c.sep is Some {
            sep_text(self.sep_joins@, c.sep->Some_0)
        } else {
            Seq::empty()
        })
    }

    /// The first `k` columns of a line, printed.
    pub open spec fn render_cols(&self, w: Seq<usize>, s: Seq<char>, cols: Seq<Column>, k: int) -> Seq<char>
        decreases k,
    {
        if k <= 0 {
            Seq::empty()
        } else {
            self.render_cols(w, s, cols, k - 1) + self.piece(w, s, cols[k - 1], k - 1)
        }
    }

    /// A line printed against the width table `w`: as it is when it has no
    /// columns, or a column count other than the table's where such lines
    /// are passed through; else column after column.
    pub open spec fn render(&self, w: Seq<usize>, s: Seq<char>, cols: Seq<Column>) -> Seq<char> {
        if (self.non_matched_as_is && cols.len() != w.len()) || cols.len() == 0 {
            s
        } else {
            self.render_cols(w, s, cols, cols.len() as int)
        }
    }

    pub open spec fn wf(&self) -> bool {
        forall|i: int| 0 <= i < self.sep_joins@.len() ==> (#[trigger] self.sep_joins@[i]).wf()
    }

    /// The width table of the printer's formatter.
    pub open spec fn widths(&self) -> Seq<usize> {
        self.fmt->Some_0.columns@
    }

    pub fn new(align: Align, fill: char, fill_count: u8, join: String, non_matched_as_is: bool) -> (r: Self)
        ensures
            r.align == align,
            r.fill == fill,
            r.fill_count == fill_count,
            r.join == join,
            r.non_matched_as_is == non_matched_as_is,
            r.fmt is None,
            r.sep_joins@.len() == 0,
            r.wf(),
    {
        Self { fill, align, fmt: None, fill_count, join, non_matched_as_is, sep_joins: Vec::new() }
    }

    /// Centered columns, filled with spaces, separators as they are.
    pub fn default() -> (r: Self)
        ensures
            r.align == Align::Center,
            r.fill == ' ',
            r.fill_count == 0,
            r.join@.len() == 0,
            !r.non_matched_as_is,
            r.fmt is None,
            r.sep_joins@.len() == 0,
            r.wf(),
    {
        Self {
            fill: ' ',
            align: Align::Center,
            fmt: None,
            fill_count: 0,
            join: String::new(),
            non_matched_as_is: false,
            sep_joins: Vec::new(),
        }
    }

    pub fn set_formatter(&mut self, fmt: Formatter)
        ensures
            final(self).fmt == Some(fmt),
            final(self).fill == old(self).fill,
            final(self).fill_count == old(self).fill_count,
            final(self).join == old(self).join,
            final(self).align == old(self).align,
            final(self).non_matched_as_is == old(self).non_matched_as_is,
            final(self).sep_joins == old(self).sep_joins,
    {
        self.fmt = Some(fmt);
    }

    pub fn set_separator_configs(&mut self, cfgs: Vec<SeparatorConfig>)
        ensures
            final(self).sep_joins == cfgs,
            final(self).fmt == old(self).fmt,
            final(self).fill == old(self).fill,
            final(self).fill_count == old(self).fill_count,
            final(self).join == old(self).join,
            final(self).align == old(self).align,
            final(self).non_matched_as_is == old(self).non_matched_as_is,
    {
        self.sep_joins = cfgs;
    }

    /// The first configuration of the separator `sep`.
    fn find_sep_config(&self, sep: char) -> (r: Option<&SeparatorConfig>)
        ensures
            match first_sep_config(self.sep_joins@, sep) {
                Some(i) => r is Some && *r->Some_0 == self.sep_joins@[i],
                None => r is None,
            },
    {
        let mut i: usize = 0;
        while i < self.sep_joins.len()
            invariant
                i <= self.sep_joins@.len(),
                first_sep_config(self.sep_joins@.subrange(0, i as int), sep) is None,
            decreases self.sep_joins@.len() - i,
        {
            proof {
                assert(self.sep_joins@.subrange(0, i + 1).drop_last() =~= self.sep_joins@.subrange(0, i as int));
                lemma_first_sep_config_prefix(self.sep_joins@, i + 1, sep);
            }
            if self.sep_joins[i].sep == sep {
                proof {
                    lemma_first_sep_config_extend(self.sep_joins@, i + 1, sep);
                }
                return Some(&self.sep_joins[i]);
            }
            i = i + 1;
        }
        assert(self.sep_joins@.subrange(0, i as int) =~= self.sep_joins@);
        None
    }

    /// The line printed with its columns padded to the recorded widths.
    pub fn format_line(&self, l: &LineDescr) -> (r: Option<String>)
        requires
            self.fmt is Some,
            self.wf(),
            l.wf(),
            dominates(self.widths(), l.columns@),
            widths_fit(self.widths()),
        ensures
            r is Some,
            r->Some_0@ == self.render(self.widths(), l.s@, l.columns@),
    {
        let fmt = self.fmt.as_ref().unwrap();
        let ghost w = fmt.columns@;
        if (self.non_matched_as_is && l.columns.len() != fmt.columns.len()) || l.columns.len() == 0 {
            return Some(string_of(&l.s));
        }
        let mut res = String::new();
        let explicit_join = self.join.as_str().unicode_len() > 0;
        let mut skip_join = true;
        let mut c: usize = 0;
        while c < l.columns.len()
            invariant
                c <= l.columns@.len(),
                w == self.widths(),
                fmt.columns@ == w,
                self.wf(),
                l.wf(),
                dominates(w, l.columns@),
                widths_fit(w),
                explicit_join == (self.join@.len() > 0),
                skip_join == !any_wide(w, c as int),
                res@ == self.render_cols(w, l.s@, l.columns@, c as int),
            decreases l.columns@.len() - c,
        {
            let ghost before = res@;
            if explicit_join && !skip_join {
                res.append(self.join.as_str());
            }
            if skip_join && fmt.columns[c] > 0 {
                skip_join = false;
            }
            let col = l.columns[c];
            let width = fmt.columns[c];
            assert(col == l.columns@[c as int]);
            let delta = width - (col.end - col.begin) + self.fill_count as usize;
            let piece = align_string(&l.s, col.begin, col.end, self.fill, delta, &self.align);
            res.append(piece.as_str());
            if !explicit_join {
                if let Some(ch) = col.sep {
                    if let Some(sep_cfg) = self.find_sep_config(ch) {
                        res.append(sep_cfg.sep_str.as_str());
                    } else {
                        res.push(ch);
                    }
                }
            }
            assert(res@ =~= before + self.piece(w, l.s@, col, c as int));
            c = c + 1;
        }
        Some(res)
    }
}

pub proof fn lemma_first_sep_config_prefix(cfgs: Seq<SeparatorConfig>, k: int, c: char)
    requires
        0 < k <= cfgs.len(),
        first_sep_config(cfgs.subrange(0, k - 1), c) is None,
    ensures
        cfgs[k - 1].sep == c ==> first_sep_config(cfgs.subrange(0, k), c) == Some(k - 1),
        cfgs[k - 1].sep != c ==> first_sep_config(cfgs.subrange(0, k), c) is None,
{
    assert(cfgs.subrange(0, k).drop_last() =~= cfgs.subrange(0, k - 1));
}

pub proof fn lemma_first_sep_config_extend(cfgs: Seq<SeparatorConfig>, k: int, c: char)
    requires
        0 <= k <= cfgs.len(),
        first_sep_config(cfgs.subrange(0, k), c) is Some,
    ensures
        first_sep_config(cfgs, c) == first_sep_config(cfgs.subrange(0, k), c),
    decreases cfgs.len() - k,
{
    if k < cfgs.len() {
        assert(cfgs.subrange(0, k + 1).drop_last() =~= cfgs.subrange(0, k));
        lemma_first_sep_config_extend(cfgs, k + 1, c);
    } else {
        assert(cfgs.subrange(0, k) =~= cfgs);
    }
}

/// The printed lines of a batch, each after a line feed but the first.
pub open spec fn joined_lines(p: Printer, lines: Seq<LineDescr>) -> Seq<char>
    decreases lines.len(),
{
    if lines.len() == 0 {
        Seq::empty()
    } else {
        let last = p.render(p.widths(), lines.last().s@, lines.last().columns@);
        if lines.len() == 1 {
            last
        } else {
            joined_lines(p, lines.drop_last()) + seq!['\n'] + last
        }
    }
}

/// Each line lies within its text and fits the printer's width table.
pub open spec fn printable(p: Printer, lines: Seq<LineDescr>) -> bool {
    &&& p.fmt is Some
    &&& p.wf()
    &&& widths_fit(p.widths())
    &&& forall|i: int| 0 <= i < lines.len() ==> (#[trigger] lines[i]).wf() && dominates(p.widths(), lines[i].columns@)
}

/// Appends the printed lines of a batch to `out`, a line feed between two.
pub fn write_lines_into(lines: &Vec<LineDescr>, printer: &Printer, out: &mut String)
    requires
        printable(*printer, lines@),
    ensures
        final(out)@ == old(out)@ + joined_lines(*printer, lines@),
{
    let mut first_line = true;
    let mut i: usize = 0;
    while i < lines.len()
        invariant
            i <= lines@.len(),
            printable(*printer, lines@),
            first_line == (i == 0),
            out@ == old(out)@ + joined_lines(*printer, lines@.subrange(0, i as int)),
        decreases lines@.len() - i,
    {
        let l = &lines[i];
        assert(lines@[i as int] == *l);
        let ghost before = out@;
        let ghost sub = lines@.subrange(0, i + 1);
        assert(sub.drop_last() =~= lines@.subrange(0, i as int));
        assert(sub.last() == *l);
        if let Some(s) = printer.format_line(l) {
            if !first_line {
                out.push('\n');
            } else {
                first_line = false;
            }
            out.append(s.as_str());
        }
        if i == 0 {
            assert(lines@.subrange(0, 0) =~= Seq::<LineDescr>::empty());
            assert(out@ =~= old(out)@ + joined_lines(*printer, sub));
        } else {
            assert(out@ =~= old(out)@ + joined_lines(*printer, sub));
        }
        i = i + 1;
    }
    assert(lines@.subrange(0, lines@.len() as int) =~= lines@);
}

/// The first non-whitespace text of `s` from `base` on starts with one of
/// the prefixes `ig`.
pub open spec fn ignored_from(ig: Seq<Seq<char>>, s: Seq<char>, base: int) -> bool {
    &&& find_first(s, base, s.len() as int, Probe::NonWhite) is Some
    &&& ignored_at(ig, s, find_first(s, base, s.len() as int, Probe::NonWhite)->Some_0)
}

/// The line's first non-whitespace text starts with one of the prefixes `ig`.
pub open spec fn left_alone(ig: Seq<Seq<char>>, s: Seq<char>) -> bool {
    ignored_from(ig, s, 0)
}

/// The columns the line `s` is left with when its analysis gives `res`: none
/// where it is left alone or not recognized.
pub open spec fn line_columns(pre: bool, ig: Seq<Seq<char>>, s: Seq<char>, res: Option<Seq<Column>>) -> Seq<Column> {
    if left_alone(ig, s) {
        Seq::empty()
    } else {
        match res {
            Some(cols) => with_prestart(pre, cols),
            None => Seq::empty(),
        }
    }
}

/// The width table after the columns of each line of a batch were measured into `w`.
pub open spec fn measure_all(w: Seq<usize>, batch: Seq<Seq<Column>>) -> Seq<usize>
    decreases batch.len(),
{
    if batch.len() == 0 {
        w
    } else {
        measure(measure_all(w, batch.drop_last()), batch.last())
    }
}

/// The columns of the lines of a batch.
pub open spec fn batch_columns(lines: Seq<LineDescr>) -> Seq<Seq<Column>> {
    lines.map_values(|l: LineDescr| l.columns@)
}

/// A batch line's text fits in memory with room to spare.
pub open spec fn text_fits(t: Seq<char>) -> bool {
    t.len() + 300 < usize::MAX
}

pub proof fn lemma_measure_bounded(w: Seq<usize>, cols: Seq<Column>, n: int)
    requires
        forall|i: int| 0 <= i < w.len() ==> #[trigger] w[i] <= n,
        cols_within(cols, n),
        n >= 0,
    ensures
        forall|i: int| 0 <= i < measure(w, cols).len() ==> #[trigger] measure(w, cols)[i] <= n,
{
}

impl Formatter {
    /// Analyzes each text of a batch in order, measuring the columns of every line.
    pub fn analyze_lines<A: LineAnalyzer>(&mut self, analyzer: &mut A, texts: &Vec<String>) -> (lines: Vec<LineDescr>)
        requires
            old(analyzer).wf(),
            forall|i: int| 0 <= i < texts@.len() ==> text_fits((#[trigger] texts@[i])@),
        ensures
            final(analyzer).wf(),
            forall|t: Seq<char>|
                #[trigger] final(analyzer).analysis(t) == old(analyzer).analysis(t),
            lines@.len() == texts@.len(),
            forall|i: int|
                0 <= i < lines@.len() ==> {
                    &&& (#[trigger] lines@[i]).s@ == texts@[i]@
                    &&& lines@[i].wf()
                    &&& lines@[i].columns@ == line_columns(
                        old(self).add_pre_start,
                        old(self).ignores(),
                        texts@[i]@,
                        old(analyzer).analysis(texts@[i]@),
                    )
                },
            final(self).columns@ == measure_all(old(self).columns@, batch_columns(lines@)),
            final(self).total_size == old(self).total_size,
            final(self).line_starts_to_ignore == old(self).line_starts_to_ignore,
            final(self).add_pre_start == old(self).add_pre_start,
    {
        let mut lines: Vec<LineDescr> = Vec::new();
        let mut i: usize = 0;
        while i < texts.len()
            invariant
                i <= texts@.len(),
                forall|j: int| 0 <= j < texts@.len() ==> text_fits((#[trigger] texts@[j])@),
                analyzer.wf(),
                forall|t: Seq<char>|
                    #[trigger] analyzer.analysis(t) == old(analyzer).analysis(t),
                lines@.len() == i,
                forall|j: int|
                    0 <= j < i ==> {
                        &&& (#[trigger] lines@[j]).s@ == texts@[j]@
                        &&& lines@[j].wf()
                        &&& lines@[j].columns@ == line_columns(
                            old(self).add_pre_start,
                            old(self).ignores(),
                            texts@[j]@,
                            old(analyzer).analysis(texts@[j]@),
                        )
                    },
                self.columns@ == measure_all(old(self).columns@, batch_columns(lines@)),
                self.total_size == old(self).total_size,
                self.line_starts_to_ignore == old(self).line_starts_to_ignore,
                self.add_pre_start == old(self).add_pre_start,
            decreases texts@.len() - i,
        {
            let mut line = LineDescr::new(texts[i].as_str());
            let ghost before = lines@;
            self.analyze_line(analyzer, &mut line);
            lines.push(line);
            proof {
                assert(batch_columns(lines@).drop_last() =~= batch_columns(before));
                assert(batch_columns(lines@).last() == line.columns@);
            }
            i = i + 1;
        }
        lines
    }
}

/// Every line of a batch fits the width table measured over the batch.
pub proof fn lemma_measure_all_dominates(w: Seq<usize>, batch: Seq<Seq<Column>>, i: int)
    requires
        0 <= i < batch.len(),
    ensures
        dominates(measure_all(w, batch), batch[i]),
    decreases batch.len(),
{
    if i < batch.len() - 1 {
        lemma_measure_all_dominates(w, batch.drop_last(), i);
        assert(batch.drop_last()[i] == batch[i]);
    }
}

/// The widths measured over a batch are at most the longest text's length.
pub proof fn lemma_measure_all_bounded(w: Seq<usize>, lines: Seq<LineDescr>, n: int)
    requires
        n >= 0,
        forall|i: int| 0 <= i < w.len() ==> #[trigger] w[i] <= n,
        forall|i: int| 0 <= i < lines.len() ==> (#[trigger] lines[i]).wf() && lines[i].s@.len() <= n,
    ensures
        forall|i: int|
            0 <= i < measure_all(w, batch_columns(lines)).len() ==> #[trigger] measure_all(
                w,
                batch_columns(lines),
            )[i] <= n,
    decreases lines.len(),
{
    if lines.len() > 0 {
        let b = batch_columns(lines);
        assert(b.drop_last() =~= batch_columns(lines.drop_last()));
        assert(forall|i: int| 0 <= i < lines.drop_last().len() ==> lines.drop_last()[i] == lines[i]);
        lemma_measure_all_bounded(w, lines.drop_last(), n);
        let l = lines.last();
        assert(lines[lines.len() - 1] == l);
        assert(cols_within(l.columns@, n));
        lemma_measure_bounded(measure_all(w, b.drop_last()), b.last(), n);
    }
}

/// Two printers that differ in their formatter alone print alike.
pub proof fn lemma_render_same(p1: Printer, p2: Printer, w: Seq<usize>, s: Seq<char>, cols: Seq<Column>, k: int)
    requires
        p1.fill == p2.fill,
        p1.fill_count == p2.fill_count,
        p1.join == p2.join,
        p1.align == p2.align,
        p1.non_matched_as_is == p2.non_matched_as_is,
        p1.sep_joins == p2.sep_joins,
    ensures
        p1.render_cols(w, s, cols, k) == p2.render_cols(w, s, cols, k),
        k == cols.len() ==> p1.render(w, s, cols) == p2.render(w, s, cols),
    decreases k,
{
    if k > 0 {
        lemma_render_same(p1, p2, w, s, cols, k - 1);
    }
}

/// Aligns a batch: analyzes every text, measures the widths over all the
/// lines, then prints each line against them.
pub fn process<A: LineAnalyzer>(texts: &Vec<String>, analyzer: &mut A, fmt: Formatter, printer: Printer) -> (r: Vec<String>)
    requires
        old(analyzer).wf(),
        printer.wf(),
        fmt.columns@.len() == 0,
        forall|i: int| 0 <= i < texts@.len() ==> text_fits((#[trigger] texts@[i])@),
    ensures
        r@.len() == texts@.len(),
        ({
            let cols = Seq::new(
                texts@.len(),
                |i: int| line_columns(fmt.add_pre_start, fmt.ignores(), texts@[i]@, old(analyzer).analysis(texts@[i]@)),
            );
            let w = measure_all(Seq::empty(), cols);
            forall|i: int| 0 <= i < r@.len() ==> (#[trigger] r@[i])@ == printer.render(w, texts@[i]@, cols[i])
        }),
{
    let mut fmt = fmt;
    let ghost p0 = printer;
    let mut printer = printer;
    let ghost pre = fmt.add_pre_start;
    let ghost ig = fmt.ignores();
    let ghost a0 = *analyzer;
    assert(fmt.columns@ =~= Seq::<usize>::empty());
    let lines = fmt.analyze_lines(analyzer, texts);
    fmt.finish();
    let ghost cols = Seq::new(texts@.len(), |i: int| line_columns(pre, ig, texts@[i]@, a0.analysis(texts@[i]@)));
    proof {
        assert(batch_columns(lines@) =~= cols);
        let n = (usize::MAX - 300) as int;
        assert forall|i: int| 0 <= i < lines@.len() implies (#[trigger] lines@[i]).wf() && lines@[i].s@.len() <= n by {
            assert(text_fits(texts@[i]@));
        }
        lemma_measure_all_bounded(Seq::empty(), lines@, n);
        assert(fmt.columns@ == measure_all(Seq::empty(), cols));
    }
    printer.set_formatter(fmt);
    let mut out: Vec<String> = Vec::new();
    let mut i: usize = 0;
    while i < lines.len()
        invariant
            i <= lines@.len() == texts@.len(),
            printer.fmt is Some,
            printer.wf(),
            printer.widths() == measure_all(Seq::empty(), cols),
            widths_fit(printer.widths()),
            batch_columns(lines@) == cols,
            forall|j: int|
                0 <= j < lines@.len() ==> {
                    &&& (#[trigger] lines@[j]).s@ == texts@[j]@
                    &&& lines@[j].wf()
                },
            out@.len() == i,
            forall|j: int| 0 <= j < i ==> (#[trigger] out@[j])@ == printer.render(printer.widths(), texts@[j]@, cols[j]),
        decreases lines@.len() - i,
    {
        proof {
            lemma_measure_all_dominates(Seq::empty(), cols, i as int);
            assert(cols[i as int] == lines@[i as int].columns@);
        }
        let s = printer.format_line(&lines[i]);
        out.push(s.unwrap());
        i = i + 1;
    }
    proof {
        assert forall|j: int| 0 <= j < out@.len() implies (#[trigger] out@[j])@ == p0.render(
            printer.widths(),
            texts@[j]@,
            cols[j],
        ) by {
            lemma_render_same(printer, p0, printer.widths(), texts@[j]@, cols[j], cols[j].len() as int);
        }
    }
    out
}

/// A table that already holds every line of a batch stays as it is.
pub proof fn lemma_measure_all_same(w: Seq<usize>, batch: Seq<Seq<Column>>)
    requires
        forall|i: int| 0 <= i < batch.len() ==> dominates(w, #[trigger] batch[i]),
    ensures
        measure_all(w, batch) == w,
    decreases batch.len(),
{
    if batch.len() > 0 {
        assert forall|i: int| 0 <= i < batch.drop_last().len() implies dominates(w, #[trigger] batch.drop_last()[i]) by {
            assert(batch.drop_last()[i] == batch[i]);
        }
        lemma_measure_all_same(w, batch.drop_last());
        assert(dominates(w, batch[batch.len() - 1]));
        lemma_measure_same(w, batch.last());
    }
}

/// Measuring is idempotent: a second pass over the same batch leaves the
/// width table the first pass made as it is.
pub proof fn lemma_measure_twice(w: Seq<usize>, batch: Seq<Seq<Column>>)
    ensures
        measure_all(measure_all(w, batch), batch) == measure_all(w, batch),
{
    assert forall|i: int| 0 <= i < batch.len() implies dominates(measure_all(w, batch), #[trigger] batch[i]) by {
        lemma_measure_all_dominates(w, batch, i);
    }
    lemma_measure_all_same(measure_all(w, batch), batch);
}

/// Round trip: with left alignment and no join string, a line with as many
/// columns as the width table is printed column after column, and each
/// column comes out as its own text, then fill characters only, then its
/// separator; dropping the padding gives each field back verbatim.
pub proof fn lemma_round_trip(p: Printer, w: Seq<usize>, s: Seq<char>, cols: Seq<Column>, i: int)
    requires
        p.align == Align::Left,
        p.join@.len() == 0,
        cols.len() == w.len(),
        0 <= i < cols.len(),
        dominates(w, cols),
        cols_within(cols, s.len() as int),
    ensures
        p.render(w, s, cols) == p.render_cols(w, s, cols, cols.len() as int),
        ({
            let t = s.subrange(cols[i].begin as int, cols[i].end as int);
            let pad = w[i] - col_width(cols[i]) + p.fill_count;
            let pc = p.piece(w, s, cols[i], i);
            &&& pc.subrange(0, t.len() + pad) == t + fill_n(p.fill, pad)
            &&& pc.subrange(0, t.len() as int) == t
            &&& forall|k: int| t.len() <= k < t.len() + pad ==> #[trigger] pc[k] == p.fill
        }),
{
    let t = s.subrange(cols[i].begin as int, cols[i].end as int);
    let pad = w[i] - col_width(cols[i]) + p.fill_count;
    let pc = p.piece(w, s, cols[i], i);
    let tail = if cols[i].sep is Some {
        sep_text(p.sep_joins@, cols[i].sep->Some_0)
    } else {
        Seq::empty()
    };
    assert(pc =~= t + fill_n(p.fill, pad) + tail);
    assert(pc.subrange(0, t.len() + pad) =~= t + fill_n(p.fill, pad));
    assert(pc.subrange(0, t.len() as int) =~= t);
}

/// An option string that does not parse.
#[derive(Debug, Clone, Copy, PartialEq, Eq, Structural)]
pub struct ParseErr {}

/// What std's `str::to_lowercase` gives for a text.
pub uninterp spec fn lower_of(s: Seq<char>) -> Seq<char>;

/// Relies on std's `str::to_lowercase`: the lowercase form of a text, which
/// depends on its characters alone.
#[verifier::external_body]
fn lowercase(s: &str) -> (r: String)
    ensures
        r@ == lower_of(s@),
{
    s.to_lowercase()
}

/// Whether two texts are the same.
pub fn same_text(a: &str, b: &str) -> (r: bool)
    ensures
        r == (a@ == b@),
{
    let x = chars_of(a);
    let y = chars_of(b);
    if x.len() != y.len() {
        return false;
    }
    let mut i: usize = 0;
    while i < x.len()
        invariant
            x@ == a@,
            y@ == b@,
            x@.len() == y@.len(),
            i <= x@.len(),
            forall|j: int| 0 <= j < i ==> x@[j] == y@[j],
        decreases x@.len() - i,
    {
        if x[i] != y[i] {
            return false;
        }
        i = i + 1;
    }
    assert(x@ =~= y@);
    true
}

/// The alignment a lowercase name stands for.
pub open spec fn align_named(t: Seq<char>) -> Result<Align, ParseErr> {
    if t == "left"@ {
        Ok(Align::Left)
    } else if t == "right"@ {
        Ok(Align::Right)
    } else if t == "center"@ {
        Ok(Align::Center)
    } else {
        Err(ParseErr {})
    }
}

impl Align {
    /// The alignment named by a lowercase text.
    pub fn from_lowercase(t: &str) -> (r: Result<Align, ParseErr>)
        ensures
            r == align_named(t@),
    {
        if same_text(t, "left") {
            Ok(Align::Left)
        } else if same_text(t, "right") {
            Ok(Align::Right)
        } else if same_text(t, "center") {
            Ok(Align::Center)
        } else {
            Err(ParseErr {})
        }
    }

    /// The alignment named by a text in any case: `left`, `right` or `center`.
    pub fn from_str(s: &str) -> (r: Result<Align, ParseErr>)
        ensures
            r == align_named(lower_of(s@)),
    {
        let low = lowercase(s);
        Align::from_lowercase(low.as_str())
    }
}

/// The fields of a text separated by `:`.
pub open spec fn colon_fields(t: Seq<char>) -> Seq<Seq<char>>
    decreases t.len(),
{
    match find_first(t, 0, t.len() as int, Probe::Sym(':')) {
        Some(i) => if 0 <= i < t.len() {
            seq![t.subrange(0, i)] + colon_fields(t.subrange(i + 1, t.len() as int))
        } else {
            seq![t]
        },
        None => seq![t],
    }
}

/// A separator configuration written `sep[:fill[:count[:align]]]`: one
/// ASCII character, then a fill character, a count that fits in a byte and
/// an alignment name; the fill is a space, the count one and the alignment
/// left where they are left out.
pub open spec fn sep_config_value(t: Seq<char>) -> Option<(char, char, u8, Align)> {
    let f = colon_fields(t);
    let fill = if f.len() > 1 {
        if f[1].len() == 0 {
            None
        } else {
            Some(f[1][0])
        }
    } else {
        Some(' ')
    };
    let count = if f.len() > 2 {
        unsigned_value(f[2], 255)
    } else {
        Some(1)
    };
    let align = if f.len() > 3 {
        match align_named(lower_of(f[3])) {
            Ok(a) => Some(a),
            Err(_) => None,
        }
    } else {
        Some(Align::Left)
    };
    if f[0].len() != 1 || f[0][0] > '\x7F' || fill is None || count is None || align is None {
        None
    } else {
        Some((f[0][0], fill->Some_0, count->Some_0 as u8, align->Some_0))
    }
}

/// The fields of `t` separated by `:`.
fn split_fields(t: &Vec<char>) -> (r: Vec<Vec<char>>)
    ensures
        r@.map_values(|v: Vec<char>| v@) == colon_fields(t@),
{
    let mut out: Vec<Vec<char>> = Vec::new();
    let mut lo: usize = 0;
    let n = t.len();
    assert(t@.subrange(0, n as int) =~= t@);
    assert(out@.map_values(|v: Vec<char>| v@) + colon_fields(t@) =~= colon_fields(t@));
    loop
        invariant
            lo <= n == t@.len(),
            out@.map_values(|v: Vec<char>| v@) + colon_fields(t@.subrange(lo as int, n as int)) == colon_fields(t@),
        decreases n - lo,
    {
        let ghost rest = t@.subrange(lo as int, n as int);
        let ghost before = out@.map_values(|v: Vec<char>| v@);
        proof {
            lemma_find_first_facts(rest, 0, rest.len() as int, Probe::Sym(':'));
        }
        match t.sym(lo, n, ':') {
            Ok(i) => {
                let mut field: Vec<char> = Vec::new();
                let mut k: usize = lo;
                while k < i
                    invariant
                        lo <= k <= i < n == t@.len(),
                        field@ == t@.subrange(lo as int, k as int),
                    decreases i - k,
                {
                    field.push(t[k]);
                    assert(t@.subrange(lo as int, k + 1) =~= t@.subrange(lo as int, k as int).push(t@[k as int]));
                    k = k + 1;
                }
                proof {
                    lemma_first_shift(t@, lo as int, n as int, ':');
                    assert(rest.subrange(0, i - lo) =~= t@.subrange(lo as int, i as int));
                    assert(rest.subrange(i - lo + 1, rest.len() as int) =~= t@.subrange(i + 1, n as int));
                }
                out.push(field);
                proof {
                    assert(out@.map_values(|v: Vec<char>| v@) =~= before.push(t@.subrange(lo as int, i as int)));
                    assert(before.push(t@.subrange(lo as int, i as int)) + colon_fields(t@.subrange(i + 1, n as int))
                        =~= before + colon_fields(rest));
                }
                lo = i + 1;
            },
            Err(_) => {
                let mut field: Vec<char> = Vec::new();
                let mut k: usize = lo;
                while k < n
                    invariant
                        lo <= k <= n == t@.len(),
                        field@ == t@.subrange(lo as int, k as int),
                    decreases n - k,
                {
                    field.push(t[k]);
                    assert(t@.subrange(lo as int, k + 1) =~= t@.subrange(lo as int, k as int).push(t@[k as int]));
                    k = k + 1;
                }
                proof {
                    lemma_first_shift(t@, lo as int, n as int, ':');
                }
                out.push(field);
                proof {
                    assert(out@.map_values(|v: Vec<char>| v@) =~= before.push(rest));
                    assert(before.push(rest) =~= before + colon_fields(rest));
                }
                return out;
            },
        }
    }
}

/// Searching a piece of a text is searching the text within its range.
pub proof fn lemma_first_shift(t: Seq<char>, lo: int, n: int, c: char)
    requires
        0 <= lo <= n == t.len(),
    ensures
        match find_first(t, lo, n, Probe::Sym(c)) {
            Some(i) => find_first(t.subrange(lo, n), 0, n - lo, Probe::Sym(c)) == Some(i - lo),
            None => find_first(t.subrange(lo, n), 0, n - lo, Probe::Sym(c)) is None,
        },
    decreases n - lo,
{
    let r = t.subrange(lo, n);
    if lo < n {
        lemma_first_shift(t, lo + 1, n, c);
        let r1 = t.subrange(lo + 1, n);
        lemma_first_sub(r, 1, c);
        assert(r.subrange(1, r.len() as int) =~= r1);
    }
}

/// Searching from position `k` of a text is searching the text that starts there.
pub proof fn lemma_first_sub(r: Seq<char>, k: int, c: char)
    requires
        0 <= k <= r.len(),
    ensures
        match find_first(r, k, r.len() as int, Probe::Sym(c)) {
            Some(i) => find_first(r.subrange(k, r.len() as int), 0, r.len() - k, Probe::Sym(c)) == Some(i - k),
            None => find_first(r.subrange(k, r.len() as int), 0, r.len() - k, Probe::Sym(c)) is None,
        },
    decreases r.len() - k,
{
    let q = r.subrange(k, r.len() as int);
    if k < r.len() {
        lemma_first_sub(r, k + 1, c);
        lemma_first_sub(q, 1, c);
        assert(q.subrange(1, q.len() as int) =~= r.subrange(k + 1, r.len() as int));
    }
}

impl SeparatorConfig {
    /// The configuration written `sep[:fill[:count[:align]]]`.
    pub fn from_str(s: &str) -> (r: Result<Self, ParseErr>)
        ensures
            match sep_config_value(s@) {
                Some(v) => r is Ok && cfg_value(r->Ok_0) == v && r->Ok_0.wf(),
                None => r is Err,
            },
    {
        let t = chars_of(s);
        let f = split_fields(&t);
        let ghost fv = f@.map_values(|v: Vec<char>| v@);
        assert(fv == colon_fields(s@));
        assert(fv.len() == f@.len());
        assert(f@.len() > 0) by {
            reveal_with_fuel(colon_fields, 1);
        }
        assert(f@[0]@ == fv[0]);
        if f[0].len() != 1 || f[0][0] > '\x7F' {
            return Err(ParseErr {});
        }
        let sep = f[0][0];
        let mut fill = ' ';
        if f.len() > 1 {
            assert(f@[1]@ == fv[1]);
            if f[1].len() == 0 {
                return Err(ParseErr {});
            }
            fill = f[1][0];
        }
        let mut count: u8 = 1;
        if f.len() > 2 {
            assert(f@[2]@ == fv[2]);
            assert(f@[2]@.subrange(0, f@[2]@.len() as int) =~= fv[2]);
            match parse_unsigned(&f[2], 0, f[2].len(), 255) {
                Some(v) => {
                    assert(v <= 255);
                    count = v as u8;
                },
                None => {
                    assert(f@[2]@.subrange(0, f@[2]@.len() as int) =~= fv[2]);
                    return Err(ParseErr {});
                },
            }
            assert(f@[2]@.subrange(0, f@[2]@.len() as int) =~= fv[2]);
        }
        let mut align = Align::Left;
        if f.len() > 3 {
            assert(f@[3]@ == fv[3]);
            let name = string_of(&f[3]);
            match Align::from_str(name.as_str()) {
                Ok(a) => {
                    align = a;
                },
                Err(e) => {
                    return Err(e);
                },
            }
        }
        Ok(SeparatorConfig::new(sep, fill, count, align))
    }
}

pub open spec fn cfg_value(c: SeparatorConfig) -> (char, char, u8, Align) {
    (c.sep, c.fill, c.count, c.align)
}

/// The prefixes to ignore and whether to keep the text before the first
/// field, after the options `args` from `i` on: `--line_start_to_ignore`
/// adds the prefix that follows, `--prestart` keeps that text. An option
/// missing its value ends the list.
pub open spec fn formatter_args(args: Seq<Seq<char>>, i: int, ig: Seq<Seq<char>>, pre: bool) -> (Seq<Seq<char>>, bool)
    decreases args.len() - i,
{
    if i < 0 || i >= args.len() {
        (ig, pre)
    } else if args[i] == "--line_start_to_ignore"@ {
        if i + 1 < args.len() {
            formatter_args(args, i + 2, ig.push(args[i + 1]), pre)
        } else {
            (ig, pre)
        }
    } else if args[i] == "--prestart"@ {
        formatter_args(args, i + 1, ig, true)
    } else {
        formatter_args(args, i + 1, ig, pre)
    }
}

impl Formatter {
    /// Takes the formatter's options from command-line options.
    pub fn parse_args(&mut self, args: &Vec<String>) -> (r: Result<(), ParseErr>)
        ensures
            r is Ok,
            ({
                let st = formatter_args(args@.map_values(|a: String| a@), 0, old(self).ignores(), old(self).add_pre_start);
                final(self).ignores() == st.0 && final(self).add_pre_start == st.1
            }),
            final(self).columns == old(self).columns,
            final(self).total_size == old(self).total_size,
    {
        let ghost av = args@.map_values(|a: String| a@);
        let ghost st0 = (self.ignores(), self.add_pre_start);
        let n = args.len();
        let mut i: usize = 0;
        while i < n
            invariant
                n == args@.len() == av.len(),
                av == args@.map_values(|a: String| a@),
                i <= n,
                formatter_args(av, 0, st0.0, st0.1) == formatter_args(av, i as int, self.ignores(), self.add_pre_start),
                self.columns == old(self).columns,
                self.total_size == old(self).total_size,
            decreases n - i,
        {
            let arg = &args[i];
            assert(arg@ == av[i as int]);
            if same_text(arg.as_str(), "--line_start_to_ignore") {
                if i + 1 < n {
                    assert(args@[i + 1]@ == av[i + 1]);
                    let ghost before = self.ignores();
                    self.line_starts_to_ignore.push(chars_of(args[i + 1].as_str()));
                    assert(self.ignores() =~= before.push(av[i + 1]));
                    i = i + 2;
                } else {
                    i = n;
                }
            } else if same_text(arg.as_str(), "--prestart") {
                self.add_pre_start = true;
                i = i + 1;
            } else {
                i = i + 1;
            }
        }
        Ok(())
    }
}

/// The printer's settings as the options give them; `bad` where an option
/// value cannot be used.
pub struct PrinterArgs {
    pub align: Align,
    pub fill: char,
    pub fill_count: u8,
    pub join: Seq<char>,
    pub non_matched_as_is: bool,
    pub cfgs: Seq<(char, char, u8, Align)>,
    pub bad: bool,
}

/// The printer's settings after the options `args` from `i` on: `--align`
/// takes an alignment name; `--fill` the first character of its value, which
/// must not be empty; `--fill_count` a count that fits in a byte; `--join`
/// the text that follows; `--sep_config` adds a separator configuration;
/// `--non_matched_as_is` passes lines of another column count through. A
/// value that does not parse is an error; an option missing its value ends
/// the list.
pub open spec fn printer_args(args: Seq<Seq<char>>, i: int, st: PrinterArgs) -> PrinterArgs
    decreases args.len() - i,
{
    if i < 0 || i >= args.len() || st.bad {
        st
    } else if args[i] == "--non_matched_as_is"@ {
        printer_args(args, i + 1, PrinterArgs { non_matched_as_is: true, ..st })
    } else if args[i] == "--align"@ || args[i] == "--fill"@ || args[i] == "--fill_count"@ || args[i] == "--join"@
        || args[i] == "--sep_config"@ {
        if i + 1 >= args.len() {
            st
        } else {
            let v = args[i + 1];
            let next = if args[i] == "--align"@ {
                match align_named(lower_of(v)) {
                    Ok(a) => PrinterArgs { align: a, ..st },
                    Err(_) => PrinterArgs { bad: true, ..st },
                }
            } else if args[i] == "--fill"@ {
                if v.len() == 0 {
                    PrinterArgs { bad: true, ..st }
                } else {
                    PrinterArgs { fill: v[0], ..st }
                }
            } else if args[i] == "--fill_count"@ {
                match unsigned_value(v, 255) {
                    Some(c) => PrinterArgs { fill_count: c as u8, ..st },
                    None => PrinterArgs { bad: true, ..st },
                }
            } else if args[i] == "--join"@ {
                PrinterArgs { join: v, ..st }
            } else {
                match sep_config_value(v) {
                    Some(c) => PrinterArgs { cfgs: st.cfgs.push(c), ..st },
                    None => PrinterArgs { bad: true, ..st },
                }
            };
            printer_args(args, i + 2, next)
        }
    } else {
        printer_args(args, i + 1, st)
    }
}

impl Printer {
    /// The printer's current settings, with no separator configurations.
    pub open spec fn args_start(&self) -> PrinterArgs {
        PrinterArgs {
            align: self.align,
            fill: self.fill,
            fill_count: self.fill_count,
            join: self.join@,
            non_matched_as_is: self.non_matched_as_is,
            cfgs: Seq::empty(),
            bad: false,
        }
    }

    /// Takes the printer's settings from command-line options; the separator
    /// configurations are those the options give. Fails on a value that does
    /// not parse, and on an empty fill.
    pub fn parse_args(&mut self, args: &Vec<String>) -> (r: Result<(), ParseErr>)
        ensures
            ({
                let st = printer_args(args@.map_values(|a: String| a@), 0, old(self).args_start());
                &&& r is Err <==> st.bad
                &&& r is Ok ==> {
                    &&& final(self).align == st.align
                    &&& final(self).fill == st.fill
                    &&& final(self).fill_count == st.fill_count
                    &&& final(self).join@ == st.join
                    &&& final(self).non_matched_as_is == st.non_matched_as_is
                    &&& final(self).sep_joins@.map_values(|c: SeparatorConfig| cfg_value(c)) == st.cfgs
                    &&& final(self).wf()
                }
            }),
            final(self).fmt == old(self).fmt,
    {
        let ghost av = args@.map_values(|a: String| a@);
        let ghost st0 = self.args_start();
        let mut sep_cfgs: Vec<SeparatorConfig> = Vec::new();
        assert(sep_cfgs@.map_values(|c: SeparatorConfig| cfg_value(c)) =~= Seq::<(char, char, u8, Align)>::empty());
        let n = args.len();
        let mut i: usize = 0;
        while i < n
            invariant
                n == args@.len() == av.len(),
                av == args@.map_values(|a: String| a@),
                i <= n,
                printer_args(av, 0, st0) == printer_args(
                    av,
                    i as int,
                    PrinterArgs {
                        align: self.align,
                        fill: self.fill,
                        fill_count: self.fill_count,
                        join: self.join@,
                        non_matched_as_is: self.non_matched_as_is,
                        cfgs: sep_cfgs@.map_values(|c: SeparatorConfig| cfg_value(c)),
                        bad: false,
                    },
                ),
                forall|j: int| 0 <= j < sep_cfgs@.len() ==> (#[trigger] sep_cfgs@[j]).wf(),
                self.fmt == old(self).fmt,
                st0 == old(self).args_start(),
            decreases n - i,
        {
            let arg = &args[i];
            assert(arg@ == av[i as int]);
            let ghost cur = PrinterArgs {
                align: self.align,
                fill: self.fill,
                fill_count: self.fill_count,
                join: self.join@,
                non_matched_as_is: self.non_matched_as_is,
                cfgs: sep_cfgs@.map_values(|c: SeparatorConfig| cfg_value(c)),
                bad: false,
            };
            if same_text(arg.as_str(), "--non_matched_as_is") {
                self.non_matched_as_is = true;
                i = i + 1;
            } else if same_text(arg.as_str(), "--align") || same_text(arg.as_str(), "--fill") || same_text(
                arg.as_str(),
                "--fill_count",
            ) || same_text(arg.as_str(), "--join") || same_text(arg.as_str(), "--sep_config") {
                if i + 1 >= n {
                    i = n;
                } else {
                    let v = &args[i + 1];
                    assert(v@ == av[i + 1]);
                    if same_text(arg.as_str(), "--align") {
                        match Align::from_str(v.as_str()) {
                            Ok(al) => {
                                self.align = al;
                            },
                            Err(e) => {
                                proof {
                                    reveal_with_fuel(printer_args, 2);
                                }
                                assert(printer_args(av, i as int, cur).bad);
                                return Err(e);
                            },
                        }
                    } else if same_text(arg.as_str(), "--fill") {
                        let vc = chars_of(v.as_str());
                        if vc.len() == 0 {
                            proof {
                                reveal_with_fuel(printer_args, 2);
                            }
                            assert(printer_args(av, i as int, cur).bad);
                            return Err(ParseErr {});
                        }
                        self.fill = vc[0];
                    } else if same_text(arg.as_str(), "--fill_count") {
                        let vc = chars_of(v.as_str());
                        assert(vc@.subrange(0, vc@.len() as int) =~= vc@);
                        match parse_unsigned(&vc, 0, vc.len(), 255) {
                            Some(c) => {
                                self.fill_count = c as u8;
                            },
                            None => {
                                proof {
                                    reveal_with_fuel(printer_args, 2);
                                }
                                assert(printer_args(av, i as int, cur).bad);
                                return Err(ParseErr {});
                            },
                        }
                    } else if same_text(arg.as_str(), "--join") {
                        self.join = v.clone();
                    } else {
                        match SeparatorConfig::from_str(v.as_str()) {
                            Ok(cfg) => {
                                let ghost before = sep_cfgs@.map_values(|c: SeparatorConfig| cfg_value(c));
                                sep_cfgs.push(cfg);
                                assert(sep_cfgs@.map_values(|c: SeparatorConfig| cfg_value(c)) =~= before.push(
                                    cfg_value(cfg),
                                ));
                            },
                            Err(e) => {
                                proof {
                                    reveal_with_fuel(printer_args, 2);
                                }
                                assert(printer_args(av, i as int, cur).bad);
                                return Err(e);
                            },
                        }
                    }
                    i = i + 2;
                }
            } else {
                i = i + 1;
            }
        }
        self.set_separator_configs(sep_cfgs);
        Ok(())
    }
}

} // verus!
