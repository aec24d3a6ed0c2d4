use vstd::prelude::*;

pub mod assignment;
pub mod bit_field;
pub mod cmnt_struct;
pub mod func_call;
pub mod func_decl;
pub mod separators;
pub mod var_decl;
pub mod xml_attr;

use crate::column_tools::Column;
use crate::column_tools::appended;
use crate::column_tools::left_alone;
use crate::column_tools::measure;
use crate::column_tools::Formatter;
use crate::column_tools::LineDescr;

verus! {

/// A line does not have the shape an analyzer recognizes.
#[derive(Debug, Clone, Copy, PartialEq, Eq, Structural)]
pub struct AnalyzeErr {}

/// A recognizer of one shape of line: it says whether a line has its shape
/// and cuts a line of that shape into columns.
pub trait LineAnalyzer {
    /// The analyzer's settings are usable.
    spec fn wf(&self) -> bool;

    /// The lines that `can_accept` takes: those that `analyze_line`
    /// recognizes and cuts into at least one column.
    spec fn accepts(&self, s: Seq<char>) -> bool;

    /// The columns `analyze_line` finds in the line `s`; `None` where the
    /// line does not have the analyzer's shape.
    spec fn analysis(&self, s: Seq<char>) -> Option<Seq<Column>>;

    /// The analyzer holds the settings it works with by default.
    spec fn has_defaults(&self) -> bool;

    /// Puts the analyzer's settings back to those it works with by default.
    fn clear(&mut self)
        ensures
            final(self).wf(),
            final(self).has_defaults(),
    ;

    /// Whether the line has the analyzer's shape; changes nothing.
    fn can_accept(&self, s: &Vec<char>) -> (r: Result<(), AnalyzeErr>)
        requires
            self.wf(),
        ensures
            r is Ok <==> self.accepts(s@),
    ;

    /// Cuts the line into columns, adding each to the line through the
    /// formatter, which records its width; a line of another shape is left
    /// as it was. The formatter hands over no line it leaves alone.
    fn analyze_line(&mut self, fmt: &mut Formatter, l: &mut LineDescr) -> (r: Result<(), AnalyzeErr>)
        requires
            old(self).wf(),
            old(l).wf(),
            old(l).columns@.len() == 0,
            old(l).s@.len() + 8 < usize::MAX,
            !left_alone(old(fmt).ignores(), old(l).s@),
        ensures
            final(self).wf(),
            forall|t: Seq<char>|
                #[trigger] final(self).analysis(t) == old(self).analysis(t),
            forall|t: Seq<char>| #[trigger] final(self).accepts(t) == old(self).accepts(t),
            final(l).s == old(l).s,
            final(l).wf(),
            final(fmt).total_size == old(fmt).total_size,
            final(fmt).line_starts_to_ignore == old(fmt).line_starts_to_ignore,
            final(fmt).add_pre_start == old(fmt).add_pre_start,
            match old(self).analysis(old(l).s@) {
                Some(cols) => {
                    &&& r is Ok
                    &&& final(l).columns@ == appended(old(fmt).add_pre_start, old(l).columns@, cols)
                    &&& final(fmt).columns@ == measure(old(fmt).columns@, final(l).columns@)
                },
                None => {
                    &&& r is Err
                    &&& final(l).columns == old(l).columns
                    &&& final(fmt).columns == old(fmt).columns
                },
            },
    ;
}

/// What a search for one character looks for.
#[derive(Debug, Clone, Copy, PartialEq, Eq, Structural)]
pub enum Probe {
    /// An ASCII whitespace character.
    White,
    /// Anything but an ASCII whitespace character.
    NonWhite,
    /// Exactly this character.
    Sym(char),
}

/// ASCII whitespace: space, tab, line feed, form feed and carriage return.
pub open spec fn is_white(c: char) -> bool {
    c == ' ' || c == '\t' || c == '\n' || c == '\x0C' || c == '\r'
}

pub open spec fn probe_matches(p: Probe, c: char) -> bool {
    match p {
        Probe::White => is_white(c),
        Probe::NonWhite => !is_white(c),
        Probe::Sym(x) => c == x,
    }
}

/// The first position in `[lo, hi)` whose character the probe matches.
pub open spec fn find_first(s: Seq<char>, lo: int, hi: int, p: Probe) -> Option<int>
    decreases hi - lo,
{
    if lo >= hi {
        None
    } else if probe_matches(p, s[lo]) {
        Some(lo)
    } else {
        find_first(s, lo + 1, hi, p)
    }
}

/// The last position in `[lo, hi)` whose character the probe matches.
pub open spec fn find_last(s: Seq<char>, lo: int, hi: int, p: Probe) -> Option<int>
    decreases hi - lo,
{
    if lo >= hi {
        None
    } else if probe_matches(p, s[hi - 1]) {
        Some(hi - 1)
    } else {
        find_last(s, lo, hi - 1, p)
    }
}

/// The first position `i` in `[lo, hi - 1)` with `s[i] == a` and `s[i + 1] == b`.
pub open spec fn find_pair(s: Seq<char>, lo: int, hi: int, a: char, b: char) -> Option<int>
    decreases hi - lo,
{
    if lo + 1 >= hi {
        None
    } else if s[lo] == a && s[lo + 1] == b {
        Some(lo)
    } else {
        find_pair(s, lo + 1, hi, a, b)
    }
}

/// A search result as the analyzers see it: a position, or a failed recognition.
pub open spec fn found(r: Result<usize, AnalyzeErr>, o: Option<int>) -> bool {
    match o {
        Some(i) => r == Ok::<usize, AnalyzeErr>(i as usize) && i == i as usize,
        None => r is Err,
    }
}

/// A position handed out lies in `[lo, hi)`.
pub open spec fn within(r: Result<usize, AnalyzeErr>, lo: usize, hi: usize) -> bool {
    r is Ok ==> lo <= r->Ok_0 < hi
}

pub proof fn lemma_find_first_facts(s: Seq<char>, lo: int, hi: int, p: Probe)
    requires
        0 <= lo,
        hi <= s.len(),
    ensures
        match find_first(s, lo, hi, p) {
            Some(i) => lo <= i < hi && probe_matches(p, s[i]) && forall|j: int|
                lo <= j < i ==> !probe_matches(p, #[trigger] s[j]),
            None => forall|j: int| lo <= j < hi ==> !probe_matches(p, #[trigger] s[j]),
        },
    decreases hi - lo,
{
    if lo < hi {
        lemma_find_first_facts(s, lo + 1, hi, p);
    }
}

pub proof fn lemma_find_last_facts(s: Seq<char>, lo: int, hi: int, p: Probe)
    requires
        0 <= lo,
        hi <= s.len(),
    ensures
        match find_last(s, lo, hi, p) {
            Some(i) => lo <= i < hi && probe_matches(p, s[i]) && forall|j: int|
                i < j < hi ==> !probe_matches(p, #[trigger] s[j]),
            None => forall|j: int| lo <= j < hi ==> !probe_matches(p, #[trigger] s[j]),
        },
    decreases hi - lo,
{
    if lo < hi {
        lemma_find_last_facts(s, lo, hi - 1, p);
    }
}

pub proof fn lemma_find_pair_facts(s: Seq<char>, lo: int, hi: int, a: char, b: char)
    requires
        0 <= lo,
        hi <= s.len(),
    ensures
        match find_pair(s, lo, hi, a, b) {
            Some(i) => lo <= i && i + 1 < hi && s[i] == a && s[i + 1] == b,
            None => true,
        },
    decreases hi - lo,
{
    if lo + 1 < hi {
        lemma_find_pair_facts(s, lo + 1, hi, a, b);
    }
}

/// Whether a character is ASCII whitespace.
pub fn is_ascii_white(c: char) -> (r: bool)
    ensures
        r == is_white(c),
{
    c == ' ' || c == '\t' || c == '\n' || c == '\x0C' || c == '\r'
}

fn probe_test(p: Probe, c: char) -> (r: bool)
    ensures
        r == probe_matches(p, c),
{
    match p {
        Probe::White => is_ascii_white(c),
        Probe::NonWhite => !is_ascii_white(c),
        Probe::Sym(x) => c == x,
    }
}

/// Searches of a line's characters within a range of positions; every
/// position handed out is absolute, that is an index into the whole line.
pub trait LineParser {
    spec fn text(&self) -> Seq<char>;

    /// The first position in `[lo, hi)` that `p` matches.
    fn find_probe(&self, lo: usize, hi: usize, p: Probe) -> (r: Result<usize, AnalyzeErr>)
        requires
            lo <= hi <= self.text().len(),
        ensures
            found(r, find_first(self.text(), lo as int, hi as int, p)),
            within(r, lo, hi),
    ;

    /// The last position in `[lo, hi)` that `p` matches.
    fn rfind_probe(&self, lo: usize, hi: usize, p: Probe) -> (r: Result<usize, AnalyzeErr>)
        requires
            lo <= hi <= self.text().len(),
        ensures
            found(r, find_last(self.text(), lo as int, hi as int, p)),
            within(r, lo, hi),
    ;

    /// The last non-whitespace position in `[lo, hi)`.
    fn rfind_nwhite(&self, lo: usize, hi: usize) -> (r: Result<usize, AnalyzeErr>)
        requires
            lo <= hi <= self.text().len(),
        ensures
            found(r, find_last(self.text(), lo as int, hi as int, Probe::NonWhite)),
            within(r, lo, hi),
    ;

    /// The last whitespace position in `[lo, hi)`.
    fn rfind_white(&self, lo: usize, hi: usize) -> (r: Result<usize, AnalyzeErr>)
        requires
            lo <= hi <= self.text().len(),
        ensures
            found(r, find_last(self.text(), lo as int, hi as int, Probe::White)),
            within(r, lo, hi),
    ;

    /// The first non-whitespace position in `[lo, hi)`.
    fn find_nwhite(&self, lo: usize, hi: usize) -> (r: Result<usize, AnalyzeErr>)
        requires
            lo <= hi <= self.text().len(),
        ensures
            found(r, find_first(self.text(), lo as int, hi as int, Probe::NonWhite)),
            within(r, lo, hi),
    ;

    /// The first whitespace position in `[lo, hi)`.
    fn find_white(&self, lo: usize, hi: usize) -> (r: Result<usize, AnalyzeErr>)
        requires
            lo <= hi <= self.text().len(),
        ensures
            found(r, find_first(self.text(), lo as int, hi as int, Probe::White)),
            within(r, lo, hi),
    ;

    /// The first position of `c` in `[lo, hi)`.
    fn sym(&self, lo: usize, hi: usize, c: char) -> (r: Result<usize, AnalyzeErr>)
        requires
            lo <= hi <= self.text().len(),
        ensures
            found(r, find_first(self.text(), lo as int, hi as int, Probe::Sym(c))),
            within(r, lo, hi),
    ;

    /// The last position of `c` in `[lo, hi)`.
    fn rsym(&self, lo: usize, hi: usize, c: char) -> (r: Result<usize, AnalyzeErr>)
        requires
            lo <= hi <= self.text().len(),
        ensures
            found(r, find_last(self.text(), lo as int, hi as int, Probe::Sym(c))),
            within(r, lo, hi),
    ;

    /// Succeeds when the range is not empty and starts with `c`.
    fn expect_sym(&self, lo: usize, hi: usize, c: char) -> (r: Result<(), AnalyzeErr>)
        requires
            lo <= hi <= self.text().len(),
        ensures
            r is Ok <==> (lo < hi && self.text()[lo as int] == c),
    ;

    /// The first position of the two characters `a`, `b` in a row within `[lo, hi)`.
    fn find_str(&self, lo: usize, hi: usize, a: char, b: char) -> (r: Result<usize, AnalyzeErr>)
        requires
            lo <= hi <= self.text().len(),
        ensures
            found(r, find_pair(self.text(), lo as int, hi as int, a, b)),
            within(r, lo, hi),
    ;
}

impl LineParser for Vec<char> {
    open spec fn text(&self) -> Seq<char> {
        self@
    }

    fn find_probe(&self, lo: usize, hi: usize, p: Probe) -> (r: Result<usize, AnalyzeErr>) {
        let mut i: usize = lo;
        while i < hi
            invariant
                lo <= i <= hi <= self@.len(),
                find_first(self@, lo as int, hi as int, p) == find_first(
                    self@,
                    i as int,
                    hi as int,
                    p,
                ),
            decreases hi - i,
        {
            if probe_test(p, self[i]) {
                return Ok(i);
            }
            i = i + 1;
        }
        Err(AnalyzeErr {})
    }

    fn rfind_probe(&self, lo: usize, hi: usize, p: Probe) -> (r: Result<usize, AnalyzeErr>) {
        let mut i: usize = hi;
        while i > lo
            invariant
                lo <= i <= hi <= self@.len(),
                find_last(self@, lo as int, hi as int, p) == find_last(self@, lo as int, i as int, p),
            decreases i - lo,
        {
            if probe_test(p, self[i - 1]) {
                return Ok(i - 1);
            }
            i = i - 1;
        }
        Err(AnalyzeErr {})
    }

    fn rfind_nwhite(&self, lo: usize, hi: usize) -> (r: Result<usize, AnalyzeErr>) {
        self.rfind_probe(lo, hi, Probe::NonWhite)
    }

    fn rfind_white(&self, lo: usize, hi: usize) -> (r: Result<usize, AnalyzeErr>) {
        self.rfind_probe(lo, hi, Probe::White)
    }

    fn find_nwhite(&self, lo: usize, hi: usize) -> (r: Result<usize, AnalyzeErr>) {
        self.find_probe(lo, hi, Probe::NonWhite)
    }

    fn find_white(&self, lo: usize, hi: usize) -> (r: Result<usize, AnalyzeErr>) {
        self.find_probe(lo, hi, Probe::White)
    }

    fn sym(&self, lo: usize, hi: usize, c: char) -> (r: Result<usize, AnalyzeErr>) {
        self.find_probe(lo, hi, Probe::Sym(c))
    }

    fn rsym(&self, lo: usize, hi: usize, c: char) -> (r: Result<usize, AnalyzeErr>) {
        self.rfind_probe(lo, hi, Probe::Sym(c))
    }

    fn expect_sym(&self, lo: usize, hi: usize, c: char) -> (r: Result<(), AnalyzeErr>) {
        if lo < hi && self[lo] == c {
            Ok(())
        } else {
            Err(AnalyzeErr {})
        }
    }

    fn find_str(&self, lo: usize, hi: usize, a: char, b: char) -> (r: Result<usize, AnalyzeErr>) {
        let mut i: usize = lo;
        while i < hi && hi - i > 1
            invariant
                lo <= i <= hi <= self@.len(),
                find_pair(self@, lo as int, hi as int, a, b) == find_pair(
                    self@,
                    i as int,
                    hi as int,
                    a,
                    b,
                ),
            decreases hi - i,
        {
            if self[i] == a && self[i + 1] == b {
                return Ok(i);
            }
            i = i + 1;
        }
        Err(AnalyzeErr {})
    }
}

} // verus!
