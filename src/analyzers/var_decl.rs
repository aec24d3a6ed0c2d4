use vstd::prelude::*;

use super::find_first;
use super::find_last;
use super::lemma_find_first_facts;
use super::lemma_find_last_facts;
use super::AnalyzeErr;
use super::LineAnalyzer;
use super::LineParser;
use super::Probe;
use crate::column_tools::Column;
use crate::column_tools::Formatter;
use crate::column_tools::LineDescr;

verus! {

/// Recognizes `<type> <var>;` and cuts it into the type and the variable.
pub struct Analyzer {}

/// Where the fields of a declaration lie.
#[derive(Debug, Clone, Copy, PartialEq, Eq, Structural)]
pub struct KeyPoints {
    pub var_begin: usize,
    pub var_end: usize,
    pub type_begin: usize,
    pub type_end: usize,
}

pub open spec fn var_decl_points(s: Seq<char>) -> Option<KeyPoints> {
    let n = s.len() as int;
    match find_first(s, 0, n, Probe::Sym(';')) {
        None => None,
        Some(semi) => match find_last(s, 0, semi, Probe::NonWhite) {
            None => None,
            Some(ve) => match find_last(s, 0, ve, Probe::White) {
                None => None,
                Some(w) => match find_last(s, 0, w + 1, Probe::NonWhite) {
                    None => None,
                    Some(te) => match find_first(s, 0, n, Probe::NonWhite) {
                        None => None,
                        Some(tb) => Some(
                            KeyPoints {
                                var_begin: (w + 1) as usize,
                                var_end: ve as usize,
                                type_begin: tb as usize,
                                type_end: te as usize,
                            },
                        ),
                    },
                },
            },
        },
    }
}

/// The type, from the line's first non-whitespace character on, separated
/// by a space; the variable, by `;`.
pub open spec fn var_decl_columns(k: KeyPoints) -> Seq<Column> {
    seq![
        Column { begin: k.type_begin, end: (k.type_end + 1) as usize, sep: Some(' ') },
        Column { begin: k.var_begin, end: (k.var_end + 1) as usize, sep: Some(';') },
    ]
}

pub proof fn lemma_var_decl_points(s: Seq<char>)
    requires
        var_decl_points(s) is Some,
        s.len() <= usize::MAX,
    ensures
        ({
            let k = var_decl_points(s)->Some_0;
            &&& k.type_begin <= k.type_end + 1 <= k.var_begin
            &&& k.type_begin < k.var_begin <= k.var_end < s.len()
        }),
{
    let n = s.len() as int;
    lemma_find_first_facts(s, 0, n, Probe::Sym(';'));
    let semi = find_first(s, 0, n, Probe::Sym(';'))->Some_0;
    lemma_find_last_facts(s, 0, semi, Probe::NonWhite);
    let ve = find_last(s, 0, semi, Probe::NonWhite)->Some_0;
    lemma_find_last_facts(s, 0, ve, Probe::White);
    let w = find_last(s, 0, ve, Probe::White)->Some_0;
    lemma_find_last_facts(s, 0, w + 1, Probe::NonWhite);
    let te = find_last(s, 0, w + 1, Probe::NonWhite)->Some_0;
    lemma_find_first_facts(s, 0, n, Probe::NonWhite);
    assert(te != w);
}

impl Analyzer {
    pub fn find_key_points(&self, s: &Vec<char>) -> (r: Result<KeyPoints, AnalyzeErr>)
        ensures
            match var_decl_points(s@) {
                Some(k) => r == Ok::<KeyPoints, AnalyzeErr>(k),
                None => r is Err,
            },
    {
        let n = s.len();
        let semi_pos = s.sym(0, n, ';')?;
        let var_end = s.rfind_nwhite(0, semi_pos)?;
        let var_begin = s.rfind_white(0, var_end)? + 1;
        let type_end = s.rfind_nwhite(0, var_begin)?;
        let type_begin = s.find_nwhite(0, n)?;
        Ok(KeyPoints { var_begin, var_end, type_begin, type_end })
    }
}

impl LineAnalyzer for Analyzer {
    open spec fn wf(&self) -> bool {
        true
    }

    open spec fn has_defaults(&self) -> bool {
        true
    }

    open spec fn accepts(&self, s: Seq<char>) -> bool {
        var_decl_points(s) is Some
    }

    open spec fn analysis(&self, s: Seq<char>) -> Option<Seq<Column>> {
        match var_decl_points(s) {
            Some(k) => Some(var_decl_columns(k)),
            None => None,
        }
    }

    fn clear(&mut self) {
    }

    fn can_accept(&self, s: &Vec<char>) -> (r: Result<(), AnalyzeErr>) {
        self.find_key_points(s)?;
        Ok(())
    }

    fn analyze_line(&mut self, fmt: &mut Formatter, l: &mut LineDescr) -> (r: Result<(), AnalyzeErr>) {
        let k = self.find_key_points(&l.s)?;
        proof {
            lemma_var_decl_points(l.s@);
        }
        let cols = vec![
            Column { begin: k.type_begin, end: k.type_end + 1, sep: Some(' ') },
            Column { begin: k.var_begin, end: k.var_end + 1, sep: Some(';') },
        ];
        assert(cols@ =~= var_decl_columns(k));
        fmt.add_columns(&cols, l);
        Ok(())
    }
}

} // verus!
