use vstd::prelude::*;

use super::find_first;
use super::find_last;
use super::lemma_find_first_facts;
use super::lemma_find_last_facts;
use super::AnalyzeErr;
use super::LineAnalyzer;
use super::LineParser;
use super::Probe;
use crate::column_tools::Column;
use crate::column_tools::Formatter;
use crate::column_tools::LineDescr;

verus! {

/// Recognizes `<type> <name>(<params>)` and cuts it into the return type,
/// the name, and the rest of the line from the `(` on.
pub struct Analyzer {}

/// Where the fields of a function declaration lie.
#[derive(Debug, Clone, Copy, PartialEq, Eq, Structural)]
pub struct KeyPoints {
    pub fn_begin: usize,
    pub fn_end: usize,
    pub type_begin: usize,
    pub type_end: usize,
    pub paren_pos: usize,
}

/// The position of the first `(`, when something follows it and no `=`
/// comes before it.
pub open spec fn call_paren(s: Seq<char>) -> Option<int> {
    let n = s.len() as int;
    match find_first(s, 0, n, Probe::Sym('(')) {
        None => None,
        Some(p) => if p + 1 >= n || find_first(s, 0, p, Probe::Sym('=')) is Some {
            None
        } else {
            Some(p)
        },
    }
}

pub open spec fn func_decl_points(s: Seq<char>) -> Option<KeyPoints> {
    let n = s.len() as int;
    match call_paren(s) {
        None => None,
        Some(p) => match find_last(s, 0, p, Probe::NonWhite) {
            None => None,
            Some(fe) => match find_last(s, 0, fe, Probe::White) {
                None => None,
                Some(w) => match find_last(s, 0, w + 1, Probe::NonWhite) {
                    None => None,
                    Some(te) => match find_first(s, 0, n, Probe::NonWhite) {
                        None => None,
                        Some(tb) => Some(
                            KeyPoints {
                                fn_begin: (w + 1) as usize,
                                fn_end: fe as usize,
                                type_begin: tb as usize,
                                type_end: te as usize,
                                paren_pos: p as usize,
                            },
                        ),
                    },
                },
            },
        },
    }
}

/// The return type, from the line's first non-whitespace character on,
/// separated by a space; the name; the parameters to the end of the line.
pub open spec fn func_decl_columns(k: KeyPoints, n: int) -> Seq<Column> {
    seq![
        Column { begin: k.type_begin, end: (k.type_end + 1) as usize, sep: Some(' ') },
        Column { begin: k.fn_begin, end: (k.fn_end + 1) as usize, sep: None },
        Column { begin: k.paren_pos, end: n as usize, sep: None },
    ]
}

pub proof fn lemma_call_paren(s: Seq<char>)
    requires
        call_paren(s) is Some,
    ensures
        0 <= call_paren(s)->Some_0 && call_paren(s)->Some_0 + 1 < s.len(),
        s[call_paren(s)->Some_0] == '(',
{
    lemma_find_first_facts(s, 0, s.len() as int, Probe::Sym('('));
}

pub proof fn lemma_func_decl_points(s: Seq<char>)
    requires
        func_decl_points(s) is Some,
        s.len() <= usize::MAX,
    ensures
        ({
            let k = func_decl_points(s)->Some_0;
            &&& k.type_begin <= k.type_end + 1 <= k.fn_begin
            &&& k.type_begin < k.fn_begin <= k.fn_end < k.paren_pos < s.len()
        }),
{
    let n = s.len() as int;
    lemma_call_paren(s);
    let p = call_paren(s)->Some_0;
    lemma_find_last_facts(s, 0, p, Probe::NonWhite);
    let fe = find_last(s, 0, p, Probe::NonWhite)->Some_0;
    lemma_find_last_facts(s, 0, fe, Probe::White);
    let w = find_last(s, 0, fe, Probe::White)->Some_0;
    lemma_find_last_facts(s, 0, w + 1, Probe::NonWhite);
    let te = find_last(s, 0, w + 1, Probe::NonWhite)->Some_0;
    lemma_find_first_facts(s, 0, n, Probe::NonWhite);
    assert(te != w);
}

/// The position of the first `(` of a call or declaration: something must
/// follow it, and no `=` come before it.
pub fn find_call_paren(s: &Vec<char>, n: usize) -> (r: Result<usize, AnalyzeErr>)
    requires
        n == s@.len(),
    ensures
        match call_paren(s@) {
            Some(p) => r == Ok::<usize, AnalyzeErr>(p as usize) && 0 <= p && p + 1 < n,
            None => r is Err,
        },
{
    proof {
        if call_paren(s@) is Some {
            lemma_call_paren(s@);
        }
    }
    let paren_pos = s.sym(0, n, '(')?;
    if paren_pos + 1 >= n {
        return Err(AnalyzeErr {});
    }
    if let Ok(_) = s.sym(0, paren_pos, '=') {
        return Err(AnalyzeErr {});
    }
    Ok(paren_pos)
}

impl Analyzer {
    pub fn find_key_points(&self, s: &Vec<char>) -> (r: Result<KeyPoints, AnalyzeErr>)
        ensures
            match func_decl_points(s@) {
                Some(k) => r == Ok::<KeyPoints, AnalyzeErr>(k),
                None => r is Err,
            },
    {
        let n = s.len();
        let paren_pos = find_call_paren(s, n)?;
        let fn_end = s.rfind_nwhite(0, paren_pos)?;
        let fn_begin = s.rfind_white(0, fn_end)? + 1;
        let type_end = s.rfind_nwhite(0, fn_begin)?;
        let type_begin = s.find_nwhite(0, n)?;
        Ok(KeyPoints { fn_begin, fn_end, type_begin, type_end, paren_pos })
    }
}

impl LineAnalyzer for Analyzer {
    open spec fn wf(&self) -> bool {
        true
    }

    open spec fn has_defaults(&self) -> bool {
        true
    }

    open spec fn accepts(&self, s: Seq<char>) -> bool {
        func_decl_points(s) is Some
    }

    open spec fn analysis(&self, s: Seq<char>) -> Option<Seq<Column>> {
        match func_decl_points(s) {
            Some(k) => Some(func_decl_columns(k, s.len() as int)),
            None => None,
        }
    }

    fn clear(&mut self) {
    }

    fn can_accept(&self, s: &Vec<char>) -> (r: Result<(), AnalyzeErr>) {
        self.find_key_points(s)?;
        Ok(())
    }

    fn analyze_line(&mut self, fmt: &mut Formatter, l: &mut LineDescr) -> (r: Result<(), AnalyzeErr>) {
        let k = self.find_key_points(&l.s)?;
        proof {
            lemma_func_decl_points(l.s@);
        }
        let cols = vec![
            Column { begin: k.type_begin, end: k.type_end + 1, sep: Some(' ') },
            Column { begin: k.fn_begin, end: k.fn_end + 1, sep: None },
            Column { begin: k.paren_pos, end: l.s.len(), sep: None },
        ];
        assert(cols@ =~= func_decl_columns(k, l.s@.len() as int));
        fmt.add_columns(&cols, l);
        Ok(())
    }
}

} // verus!
