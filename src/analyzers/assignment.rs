use vstd::prelude::*;

use super::find_first;
use super::find_last;
use super::lemma_find_first_facts;
use super::lemma_find_last_facts;
use super::AnalyzeErr;
use super::LineAnalyzer;
use super::LineParser;
use super::Probe;
use crate::column_tools::Column;
use crate::column_tools::Formatter;
use crate::column_tools::LineDescr;

verus! {

/// Recognizes `<type> <var> = <expr>` and cuts it into the type, the
/// variable and the expression.
pub struct TypeVarAnalyzer {}

/// Where the fields of an assignment with a type lie.
#[derive(Debug, Clone, Copy, PartialEq, Eq, Structural)]
pub struct TypeVarKeyPoints {
    pub var_begin: usize,
    pub var_end: usize,
    pub type_begin: usize,
    pub type_end: usize,
    pub expr_begin: usize,
}

pub open spec fn type_var_points(s: Seq<char>) -> Option<TypeVarKeyPoints> {
    let n = s.len() as int;
    match find_first(s, 0, n, Probe::Sym('=')) {
        None => None,
        Some(a) => if a + 1 >= n {
            None
        } else {
            match find_last(s, 0, a, Probe::NonWhite) {
                None => None,
                Some(ve) => match find_last(s, 0, ve, Probe::White) {
                    None => None,
                    Some(w) => match find_last(s, 0, w + 1, Probe::NonWhite) {
                        None => None,
                        Some(te) => match find_first(s, 0, n, Probe::NonWhite) {
                            None => None,
                            Some(tb) => match find_first(s, a + 1, n, Probe::NonWhite) {
                                None => None,
                                Some(eb) => Some(
                                    TypeVarKeyPoints {
                                        var_begin: (w + 1) as usize,
                                        var_end: ve as usize,
                                        type_begin: tb as usize,
                                        type_end: te as usize,
                                        expr_begin: eb as usize,
                                    },
                                ),
                            },
                        },
                    },
                },
            }
        },
    }
}

/// The type, separated by a space; the variable, by `=`; the expression
/// to the end of the line.
pub open spec fn type_var_columns(k: TypeVarKeyPoints, n: int) -> Seq<Column> {
    seq![
        Column { begin: k.type_begin, end: (k.type_end + 1) as usize, sep: Some(' ') },
        Column { begin: k.var_begin, end: (k.var_end + 1) as usize, sep: Some('=') },
        Column { begin: k.expr_begin, end: n as usize, sep: None },
    ]
}

pub proof fn lemma_type_var_points(s: Seq<char>)
    requires
        type_var_points(s) is Some,
        s.len() <= usize::MAX,
    ensures
        ({
            let k = type_var_points(s)->Some_0;
            &&& k.type_begin <= k.type_end < k.var_begin <= k.var_end
            &&& k.var_end + 1 < k.expr_begin < s.len()
        }),
{
    let n = s.len() as int;
    lemma_find_first_facts(s, 0, n, Probe::Sym('='));
    let a = find_first(s, 0, n, Probe::Sym('='))->Some_0;
    lemma_find_last_facts(s, 0, a, Probe::NonWhite);
    let ve = find_last(s, 0, a, Probe::NonWhite)->Some_0;
    lemma_find_last_facts(s, 0, ve, Probe::White);
    let w = find_last(s, 0, ve, Probe::White)->Some_0;
    lemma_find_last_facts(s, 0, w + 1, Probe::NonWhite);
    let te = find_last(s, 0, w + 1, Probe::NonWhite)->Some_0;
    lemma_find_first_facts(s, 0, n, Probe::NonWhite);
    lemma_find_first_facts(s, a + 1, n, Probe::NonWhite);
    assert(te != w);
}

impl TypeVarAnalyzer {
    pub fn find_key_points(&self, s: &Vec<char>) -> (r: Result<TypeVarKeyPoints, AnalyzeErr>)
        ensures
            match type_var_points(s@) {
                Some(k) => r == Ok::<TypeVarKeyPoints, AnalyzeErr>(k),
                None => r is Err,
            },
    {
        let n = s.len();
        let assign_pos = s.sym(0, n, '=')?;
        if assign_pos + 1 >= n {
            return Err(AnalyzeErr {});
        }
        let var_end = s.rfind_nwhite(0, assign_pos)?;
        let var_begin = s.rfind_white(0, var_end)? + 1;
        let type_end = s.rfind_nwhite(0, var_begin)?;
        let type_begin = s.find_nwhite(0, n)?;
        let expr_begin = s.find_nwhite(assign_pos + 1, n)?;
        Ok(TypeVarKeyPoints { var_begin, var_end, type_begin, type_end, expr_begin })
    }
}

impl LineAnalyzer for TypeVarAnalyzer {
    open spec fn wf(&self) -> bool {
        true
    }

    open spec fn has_defaults(&self) -> bool {
        true
    }

    open spec fn accepts(&self, s: Seq<char>) -> bool {
        type_var_points(s) is Some
    }

    open spec fn analysis(&self, s: Seq<char>) -> Option<Seq<Column>> {
        match type_var_points(s) {
            Some(k) => Some(type_var_columns(k, s.len() as int)),
            None => None,
        }
    }

    fn clear(&mut self) {
    }

    fn can_accept(&self, s: &Vec<char>) -> (r: Result<(), AnalyzeErr>) {
        self.find_key_points(s)?;
        Ok(())
    }

    fn analyze_line(&mut self, fmt: &mut Formatter, l: &mut LineDescr) -> (r: Result<(), AnalyzeErr>) {
        let k = self.find_key_points(&l.s)?;
        proof {
            lemma_type_var_points(l.s@);
        }
        let cols = vec![
            Column { begin: k.type_begin, end: k.type_end + 1, sep: Some(' ') },
            Column { begin: k.var_begin, end: k.var_end + 1, sep: Some('=') },
            Column { begin: k.expr_begin, end: l.s.len(), sep: None },
        ];
        assert(cols@ =~= type_var_columns(k, l.s@.len() as int));
        fmt.add_columns(&cols, l);
        Ok(())
    }
}

/// Recognizes `<var> = <expr>` and cuts it into what stands before the `=`
/// and what stands after it.
pub struct VarAnalyzer {}

/// Where the two sides of an assignment lie.
#[derive(Debug, Clone, Copy, PartialEq, Eq, Structural)]
pub struct VarKeyPoints {
    pub before_begin: usize,
    pub before_end: usize,
    pub after_begin: usize,
    pub after_end: usize,
}

pub open spec fn var_points(s: Seq<char>) -> Option<VarKeyPoints> {
    let n = s.len() as int;
    match find_first(s, 0, n, Probe::Sym('=')) {
        None => None,
        Some(a) => if a + 1 >= n {
            None
        } else {
            match find_last(s, 0, a, Probe::NonWhite) {
                None => None,
                Some(be) => match find_first(s, 0, a, Probe::NonWhite) {
                    None => None,
                    Some(bb) => match find_first(s, a + 1, n, Probe::NonWhite) {
                        None => None,
                        Some(ab) => match find_last(s, a + 1, n, Probe::NonWhite) {
                            None => None,
                            Some(ae) => Some(
                                VarKeyPoints {
                                    before_begin: bb as usize,
                                    before_end: be as usize,
                                    after_begin: ab as usize,
                                    after_end: ae as usize,
                                },
                            ),
                        },
                    },
                },
            }
        },
    }
}

/// What stands before the `=`, from its first to its last non-whitespace
/// character, separated by `=`; what stands after it, to its last non-whitespace character.
pub open spec fn var_columns(k: VarKeyPoints) -> Seq<Column> {
    seq![
        Column { begin: k.before_begin, end: (k.before_end + 1) as usize, sep: Some('=') },
        Column { begin: k.after_begin, end: (k.after_end + 1) as usize, sep: None },
    ]
}

pub proof fn lemma_var_points(s: Seq<char>)
    requires
        var_points(s) is Some,
        s.len() <= usize::MAX,
    ensures
        ({
            let k = var_points(s)->Some_0;
            &&& k.before_begin <= k.before_end + 1 < k.after_begin
            &&& k.after_begin <= k.after_end < s.len()
        }),
{
    let n = s.len() as int;
    lemma_find_first_facts(s, 0, n, Probe::Sym('='));
    let a = find_first(s, 0, n, Probe::Sym('='))->Some_0;
    lemma_find_last_facts(s, 0, a, Probe::NonWhite);
    let be = find_last(s, 0, a, Probe::NonWhite)->Some_0;
    lemma_find_first_facts(s, 0, a, Probe::NonWhite);
    lemma_find_first_facts(s, a + 1, n, Probe::NonWhite);
    lemma_find_last_facts(s, a + 1, n, Probe::NonWhite);
}

impl VarAnalyzer {
    pub fn find_key_points(&self, s: &Vec<char>) -> (r: Result<VarKeyPoints, AnalyzeErr>)
        ensures
            match var_points(s@) {
                Some(k) => r == Ok::<VarKeyPoints, AnalyzeErr>(k),
                None => r is Err,
            },
    {
        let n = s.len();
        let assign_pos = s.sym(0, n, '=')?;
        if assign_pos + 1 >= n {
            return Err(AnalyzeErr {});
        }
        let before_end = s.rfind_nwhite(0, assign_pos)?;
        let before_begin = s.find_nwhite(0, assign_pos)?;
        let after_begin = s.find_nwhite(assign_pos + 1, n)?;
        let after_end = s.rfind_nwhite(assign_pos + 1, n)?;
        Ok(VarKeyPoints { before_begin, before_end, after_begin, after_end })
    }
}

impl LineAnalyzer for VarAnalyzer {
    open spec fn wf(&self) -> bool {
        true
    }

    open spec fn has_defaults(&self) -> bool {
        true
    }

    open spec fn accepts(&self, s: Seq<char>) -> bool {
        var_points(s) is Some
    }

    open spec fn analysis(&self, s: Seq<char>) -> Option<Seq<Column>> {
        match var_points(s) {
            Some(k) => Some(var_columns(k)),
            None => None,
        }
    }

    fn clear(&mut self) {
    }

    fn can_accept(&self, s: &Vec<char>) -> (r: Result<(), AnalyzeErr>) {
        self.find_key_points(s)?;
        Ok(())
    }

    fn analyze_line(&mut self, fmt: &mut Formatter, l: &mut LineDescr) -> (r: Result<(), AnalyzeErr>) {
        let k = self.find_key_points(&l.s)?;
        proof {
            lemma_var_points(l.s@);
        }
        let cols = vec![
            Column { begin: k.before_begin, end: k.before_end + 1, sep: Some('=') },
            Column { begin: k.after_begin, end: k.after_end + 1, sep: None },
        ];
        assert(cols@ =~= var_columns(k));
        fmt.add_columns(&cols, l);
        Ok(())
    }
}

} // verus!
