use vstd::prelude::*;

use super::find_first;
use super::find_last;
use super::find_pair;
use super::lemma_find_first_facts;
use super::lemma_find_last_facts;
use super::lemma_find_pair_facts;
use super::separators::Analyzer as SepAnalyzer;
use super::separators::ascending;
use super::separators::holds_chars;
use super::separators::BoundType;
use super::separators::Boundary;
use super::AnalyzeErr;
use super::LineAnalyzer;
use super::LineParser;
use super::Probe;
use crate::column_tools::lemma_appended_concat;
use crate::column_tools::lemma_measure_appended;
use crate::column_tools::lemma_measure_dominates;
use crate::column_tools::Column;
use crate::column_tools::Formatter;
use crate::column_tools::LineDescr;

verus! {

/// Recognizes `/* comment */ {field, field, ...}` and cuts it into the
/// comment's opening, its text and its closing, then the fields of the
/// braces, which the column tracker splits at commas outside strings.
pub struct Analyzer {
    pub sepa: SepAnalyzer,
}

/// Where the comment's `/*` and `*/` and the first `{` lie.
#[derive(Debug, Clone, Copy, PartialEq, Eq, Structural)]
pub struct KeyPoints {
    pub c_begin: usize,
    pub c_end: usize,
    pub block_begin: usize,
}

/// The comment must close after it opens and before the first `{`, and the
/// last `}` must not come before that `{`.
pub open spec fn cmnt_struct_points(s: Seq<char>) -> Option<KeyPoints> {
    let n = s.len() as int;
    match find_pair(s, 0, n, '/', '*') {
        None => None,
        Some(cb) => match find_pair(s, 0, n, '*', '/') {
            None => None,
            Some(ce) => match find_first(s, 0, n, Probe::Sym('{')) {
                None => None,
                Some(bb) => match find_last(s, 0, n, Probe::Sym('}')) {
                    None => None,
                    Some(be) => if cb + 2 > ce || bb < ce || be < bb {
                        None
                    } else {
                        Some(KeyPoints { c_begin: cb as usize, c_end: ce as usize, block_begin: bb as usize })
                    },
                },
            },
        },
    }
}

/// The comment's `/*`, its text where it has any, and its `*/` followed by
/// a space.
pub open spec fn comment_columns(k: KeyPoints) -> Seq<Column> {
    let open = Column { begin: k.c_begin, end: (k.c_begin + 2) as usize, sep: None };
    let close = Column { begin: k.c_end, end: (k.c_end + 2) as usize, sep: Some(' ') };
    if k.c_begin + 2 < k.c_end {
        seq![open, Column { begin: (k.c_begin + 2) as usize, end: k.c_end, sep: None }, close]
    } else {
        seq![open, close]
    }
}

pub proof fn lemma_cmnt_struct_points(s: Seq<char>)
    requires
        cmnt_struct_points(s) is Some,
        s.len() <= usize::MAX,
    ensures
        ({
            let k = cmnt_struct_points(s)->Some_0;
            k.c_begin + 2 <= k.c_end && k.c_end + 2 <= k.block_begin < s.len()
        }),
{
    let n = s.len() as int;
    lemma_find_pair_facts(s, 0, n, '/', '*');
    lemma_find_pair_facts(s, 0, n, '*', '/');
    lemma_find_first_facts(s, 0, n, Probe::Sym('{'));
    lemma_find_last_facts(s, 0, n, Probe::Sym('}'));
}

/// The tracker of the fields of the braces: fields end at `,` or `}`, and a
/// new one never starts at a comma or a space; they are cut only inside the
/// braces, and never inside a string.
pub open spec fn struct_tracker(a: &SepAnalyzer) -> bool {
    &&& ascending(a.seps@) && holds_chars(a.seps@, seq![',', '}'])
    &&& ascending(a.seps_new_column@) && holds_chars(a.seps_new_column@, seq![',', ' '])
    &&& a.excludes@ == seq![Boundary { open: '"', close: None, lim: 1, lim_orig: 1 }]
    &&& a.includes@ == seq![Boundary { open: '{', close: Some('}'), lim: 1, lim_orig: 1 }]
}

impl Analyzer {
    /// An analyzer whose tracker is not set up yet; `clear` sets it up.
    pub fn new() -> (r: Self)
        ensures
            r.sepa.seps@.len() == 0,
            r.sepa.seps_new_column@.len() == 0,
            r.sepa.includes@.len() == 0,
            r.sepa.excludes@.len() == 0,
    {
        Self { sepa: SepAnalyzer::new() }
    }

    /// An analyzer with its tracker set up.
    pub fn configured() -> (r: Self)
        ensures
            struct_tracker(&r.sepa),
    {
        let mut sepa = SepAnalyzer::new();
        let ncs = vec![',', ' '];
        assert(ncs@ =~= seq![',', ' ']);
        sepa.set_new_column_separators(ncs);
        let seps = vec![',', '}'];
        assert(seps@ =~= seq![',', '}']);
        sepa.set_separators(seps);
        sepa.add_boundary(Boundary::new_sym('"', 1), BoundType::Exclude);
        sepa.add_boundary(Boundary::new_asym('{', '}', 1), BoundType::Include);
        assert(sepa.excludes@ =~= seq![Boundary { open: '"', close: None, lim: 1, lim_orig: 1 }]);
        assert(sepa.includes@ =~= seq![Boundary { open: '{', close: Some('}'), lim: 1, lim_orig: 1 }]);
        Self { sepa }
    }

    pub fn find_key_points(&self, s: &Vec<char>) -> (r: Result<KeyPoints, AnalyzeErr>)
        ensures
            match cmnt_struct_points(s@) {
                Some(k) => r == Ok::<KeyPoints, AnalyzeErr>(k),
                None => r is Err,
            },
    {
        let n = s.len();
        let c_begin = s.find_str(0, n, '/', '*')?;
        let c_end = s.find_str(0, n, '*', '/')?;
        let block_begin = s.sym(0, n, '{')?;
        let block_end = s.rsym(0, n, '}')?;
        if c_begin > c_end || c_end - c_begin < 2 || block_begin < c_end || block_end < block_begin {
            Err(AnalyzeErr {})
        } else {
            Ok(KeyPoints { c_begin, c_end, block_begin })
        }
    }
}

impl LineAnalyzer for Analyzer {
    open spec fn wf(&self) -> bool {
        true
    }

    open spec fn has_defaults(&self) -> bool {
        struct_tracker(&self.sepa)
    }

    open spec fn accepts(&self, s: Seq<char>) -> bool {
        cmnt_struct_points(s) is Some
    }

    open spec fn analysis(&self, s: Seq<char>) -> Option<Seq<Column>> {
        match cmnt_struct_points(s) {
            Some(k) => Some(comment_columns(k) + self.sepa.columns_from(s, k.block_begin as int)),
            None => None,
        }
    }

    fn clear(&mut self) {
        self.sepa = Self::configured().sepa;
    }

    fn can_accept(&self, s: &Vec<char>) -> (r: Result<(), AnalyzeErr>) {
        self.find_key_points(s)?;
        Ok(())
    }

    fn analyze_line(&mut self, fmt: &mut Formatter, l: &mut LineDescr) -> (r: Result<(), AnalyzeErr>) {
        let k = self.find_key_points(&l.s)?;
        proof {
            lemma_cmnt_struct_points(l.s@);
        }
        let ghost w0 = fmt.columns@;
        let ghost c0 = l.columns@;
        let ghost pre = fmt.add_pre_start;
        let mut cols = vec![Column { begin: k.c_begin, end: k.c_begin + 2, sep: None }];
        if k.c_end - k.c_begin > 2 {
            cols.push(Column { begin: k.c_begin + 2, end: k.c_end, sep: None });
        }
        cols.push(Column { begin: k.c_end, end: k.c_end + 2, sep: Some(' ') });
        assert(cols@ =~= comment_columns(k));
        fmt.add_columns(&cols, l);
        let ghost c1 = l.columns@;
        let ghost rest = self.sepa.columns_from(l.s@, k.block_begin as int);
        proof {
            lemma_measure_dominates(w0, c1);
        }
        self.sepa.scan_substr(fmt, k.block_begin, l);
        proof {
            lemma_appended_concat(pre, c0, cols@, rest);
            lemma_measure_appended(w0, pre, c1, rest);
        }
        Ok(())
    }
}

} // verus!
