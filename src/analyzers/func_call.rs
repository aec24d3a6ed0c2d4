use vstd::prelude::*;

use super::find_first;
use super::find_last;
use super::func_decl::call_paren;
use super::func_decl::find_call_paren;
use super::func_decl::lemma_call_paren;
use super::lemma_find_first_facts;
use super::lemma_find_last_facts;
use super::separators::Analyzer as SepAnalyzer;
use super::separators::ascending;
use super::separators::holds_chars;
use super::separators::BoundType;
use super::separators::Boundary;
use super::AnalyzeErr;
use super::LineAnalyzer;
use super::LineParser;
use super::Probe;
use crate::column_tools::lemma_appended_concat;
use crate::column_tools::lemma_measure_appended;
use crate::column_tools::lemma_measure_dominates;
use crate::column_tools::Column;
use crate::column_tools::Formatter;
use crate::column_tools::LineDescr;

verus! {

/// Recognizes `<name>(<args>)` and cuts it into the name and the arguments,
/// which the column tracker splits at commas outside strings and nested
/// brackets.
pub struct Analyzer {
    pub sepa: SepAnalyzer,
}

/// Where the name of a call and its `(` lie.
#[derive(Debug, Clone, Copy, PartialEq, Eq, Structural)]
pub struct KeyPoints {
    pub fn_begin: usize,
    pub fn_end: usize,
    pub paren_pos: usize,
}

pub open spec fn func_call_points(s: Seq<char>) -> Option<KeyPoints> {
    match call_paren(s) {
        None => None,
        Some(p) => match find_last(s, 0, p, Probe::NonWhite) {
            None => None,
            Some(fe) => match find_first(s, 0, fe, Probe::NonWhite) {
                None => None,
                Some(fb) => Some(KeyPoints { fn_begin: fb as usize, fn_end: fe as usize, paren_pos: p as usize }),
            },
        },
    }
}

pub proof fn lemma_func_call_points(s: Seq<char>)
    requires
        func_call_points(s) is Some,
        s.len() <= usize::MAX,
    ensures
        ({
            let k = func_call_points(s)->Some_0;
            k.fn_begin <= k.fn_end < k.paren_pos < s.len()
        }),
{
    lemma_call_paren(s);
    let p = call_paren(s)->Some_0;
    lemma_find_last_facts(s, 0, p, Probe::NonWhite);
    let fe = find_last(s, 0, p, Probe::NonWhite)->Some_0;
    lemma_find_first_facts(s, 0, fe, Probe::NonWhite);
}

/// The tracker of the arguments: they end at `,` or `)`, and a new one never
/// starts at a comma or a space; they are cut only inside the parentheses,
/// and never inside a string or braces or square brackets.
pub open spec fn call_tracker(a: &SepAnalyzer) -> bool {
    &&& ascending(a.seps@) && holds_chars(a.seps@, seq![',', ')'])
    &&& ascending(a.seps_new_column@) && holds_chars(a.seps_new_column@, seq![',', ' '])
    &&& a.excludes@ == seq![
        Boundary { open: '"', close: None, lim: 1, lim_orig: 1 },
        Boundary { open: '{', close: Some('}'), lim: 1, lim_orig: 1 },
        Boundary { open: '[', close: Some(']'), lim: 1, lim_orig: 1 },
    ]
    &&& a.includes@ == seq![Boundary { open: '(', close: Some(')'), lim: 1, lim_orig: 1 }]
}

impl Analyzer {
    /// An analyzer whose tracker is not set up yet; `clear` sets it up.
    pub fn new() -> (r: Self)
        ensures
            r.sepa.seps@.len() == 0,
            r.sepa.seps_new_column@.len() == 0,
            r.sepa.includes@.len() == 0,
            r.sepa.excludes@.len() == 0,
    {
        Self { sepa: SepAnalyzer::new() }
    }

    /// An analyzer with its tracker set up.
    pub fn configured() -> (r: Self)
        ensures
            call_tracker(&r.sepa),
    {
        let mut sepa = SepAnalyzer::new();
        let ncs = vec![',', ' '];
        assert(ncs@ =~= seq![',', ' ']);
        sepa.set_new_column_separators(ncs);
        let seps = vec![',', ')'];
        assert(seps@ =~= seq![',', ')']);
        sepa.set_separators(seps);
        sepa.add_boundary(Boundary::new_sym('"', 1), BoundType::Exclude);
        sepa.add_boundary(Boundary::new_asym('{', '}', 1), BoundType::Exclude);
        sepa.add_boundary(Boundary::new_asym('[', ']', 1), BoundType::Exclude);
        sepa.add_boundary(Boundary::new_asym('(', ')', 1), BoundType::Include);
        assert(sepa.excludes@ =~= seq![
            Boundary { open: '"', close: None, lim: 1, lim_orig: 1 },
            Boundary { open: '{', close: Some('}'), lim: 1, lim_orig: 1 },
            Boundary { open: '[', close: Some(']'), lim: 1, lim_orig: 1 },
        ]);
        assert(sepa.includes@ =~= seq![Boundary { open: '(', close: Some(')'), lim: 1, lim_orig: 1 }]);
        Self { sepa }
    }

    pub fn find_key_points(&self, s: &Vec<char>) -> (r: Result<KeyPoints, AnalyzeErr>)
        ensures
            match func_call_points(s@) {
                Some(k) => r == Ok::<KeyPoints, AnalyzeErr>(k),
                None => r is Err,
            },
    {
        let n = s.len();
        let paren_pos = find_call_paren(s, n)?;
        let fn_end = s.rfind_nwhite(0, paren_pos)?;
        let fn_begin = s.find_nwhite(0, fn_end)?;
        Ok(KeyPoints { fn_begin, fn_end, paren_pos })
    }
}

impl LineAnalyzer for Analyzer {
    open spec fn wf(&self) -> bool {
        true
    }

    open spec fn has_defaults(&self) -> bool {
        call_tracker(&self.sepa)
    }

    open spec fn accepts(&self, s: Seq<char>) -> bool {
        func_call_points(s) is Some
    }

    open spec fn analysis(&self, s: Seq<char>) -> Option<Seq<Column>> {
        match func_call_points(s) {
            Some(k) => Some(
                seq![Column { begin: k.fn_begin, end: (k.fn_end + 1) as usize, sep: None }]
                    + self.sepa.columns_from(s, k.paren_pos as int),
            ),
            None => None,
        }
    }

    fn clear(&mut self) {
        self.sepa = Self::configured().sepa;
    }

    fn can_accept(&self, s: &Vec<char>) -> (r: Result<(), AnalyzeErr>) {
        self.find_key_points(s)?;
        Ok(())
    }

    fn analyze_line(&mut self, fmt: &mut Formatter, l: &mut LineDescr) -> (r: Result<(), AnalyzeErr>) {
        let k = self.find_key_points(&l.s)?;
        proof {
            lemma_func_call_points(l.s@);
        }
        let ghost w0 = fmt.columns@;
        let ghost c0 = l.columns@;
        let ghost pre = fmt.add_pre_start;
        let ghost first = seq![Column { begin: k.fn_begin, end: (k.fn_end + 1) as usize, sep: None }];
        fmt.add_column(k.fn_begin, k.fn_end + 1, None, l);
        let ghost c1 = l.columns@;
        let ghost rest = self.sepa.columns_from(l.s@, k.paren_pos as int);
        proof {
            lemma_measure_dominates(w0, c1);
        }
        self.sepa.scan_substr(fmt, k.paren_pos, l);
        proof {
            lemma_appended_concat(pre, c0, first, rest);
            lemma_measure_appended(w0, pre, c1, rest);
        }
        Ok(())
    }
}

} // verus!
