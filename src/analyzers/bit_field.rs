use vstd::prelude::*;

use super::find_first;
use super::find_last;
use super::lemma_find_first_facts;
use super::lemma_find_last_facts;
use super::AnalyzeErr;
use super::LineAnalyzer;
use super::LineParser;
use super::Probe;
use crate::column_tools::Column;
use crate::column_tools::Formatter;
use crate::column_tools::LineDescr;
use crate::decimal::parse_unsigned;
use crate::decimal::unsigned_value;

verus! {

/// Recognizes `<type> <var> : <width>; [rest]` and cuts it into the type,
/// the variable, the width with its `;`, and the rest of the line.
pub struct Analyzer {}

/// Where the fields of a bit field lie; with no rest, `rest_begin` and
/// `rest_end` are the line's length.
#[derive(Debug, Clone, Copy, PartialEq, Eq, Structural)]
pub struct KeyPoints {
    pub var_begin: usize,
    pub var_end: usize,
    pub type_begin: usize,
    pub type_end: usize,
    pub bit_begin: usize,
    pub bit_end: usize,
    pub rest_begin: usize,
    pub rest_end: usize,
}

/// Where the text after the width begins and ends, if there is any.
pub open spec fn rest_points(s: Seq<char>, be: int) -> Option<(int, int)> {
    let n = s.len() as int;
    if be + 1 < n {
        match find_first(s, be + 1, n, Probe::NonWhite) {
            Some(rb) => match find_last(s, 0, n, Probe::NonWhite) {
                Some(re) => Some((rb, re)),
                None => None,
            },
            None => Some((n, n)),
        }
    } else {
        Some((n, n))
    }
}

pub open spec fn bit_field_points(s: Seq<char>) -> Option<KeyPoints> {
    let n = s.len() as int;
    match find_first(s, 0, n, Probe::Sym(':')) {
        None => None,
        Some(colon) => match find_last(s, 0, colon, Probe::NonWhite) {
            None => None,
            Some(ve) => match find_last(s, 0, ve, Probe::White) {
                None => None,
                Some(w) => match find_last(s, 0, w + 1, Probe::NonWhite) {
                    None => None,
                    Some(te) => match find_first(s, 0, n, Probe::NonWhite) {
                        None => None,
                        Some(tb) => match find_first(s, colon + 1, n, Probe::NonWhite) {
                            None => None,
                            Some(bb) => match find_first(s, bb, n, Probe::Sym(';')) {
                                None => None,
                                Some(be) => if unsigned_value(s.subrange(bb, be), u32::MAX as int) is None {
                                    None
                                } else {
                                    match rest_points(s, be) {
                                        None => None,
                                        Some(rest) => Some(
                                            KeyPoints {
                                                var_begin: (w + 1) as usize,
                                                var_end: ve as usize,
                                                type_begin: tb as usize,
                                                type_end: te as usize,
                                                bit_begin: bb as usize,
                                                bit_end: be as usize,
                                                rest_begin: rest.0 as usize,
                                                rest_end: rest.1 as usize,
                                            },
                                        ),
                                    }
                                },
                            },
                        },
                    },
                },
            },
        },
    }
}

/// The type, separated by a space; the variable, by `:`; the width with its
/// `;`, then the rest of the line if there is any, after a space.
pub open spec fn bit_field_columns(k: KeyPoints, n: int) -> Seq<Column> {
    let head = seq![
        Column { begin: k.type_begin, end: (k.type_end + 1) as usize, sep: Some(' ') },
        Column { begin: k.var_begin, end: (k.var_end + 1) as usize, sep: Some(':') },
    ];
    if k.rest_begin < n {
        head + seq![
            Column { begin: k.bit_begin, end: (k.bit_end + 1) as usize, sep: Some(' ') },
            Column { begin: k.rest_begin, end: (k.rest_end + 1) as usize, sep: None },
        ]
    } else {
        head.push(Column { begin: k.bit_begin, end: (k.bit_end + 1) as usize, sep: None })
    }
}

pub proof fn lemma_bit_field_points(s: Seq<char>)
    requires
        bit_field_points(s) is Some,
        s.len() <= usize::MAX,
    ensures
        ({
            let k = bit_field_points(s)->Some_0;
            &&& k.type_begin <= k.type_end < k.var_begin <= k.var_end
            &&& k.var_end + 1 < k.bit_begin <= k.bit_end < s.len()
            &&& k.rest_begin < s.len() ==> k.bit_end < k.rest_begin <= k.rest_end < s.len()
            &&& k.rest_begin >= s.len() ==> k.rest_begin == s.len()
        }),
{
    let n = s.len() as int;
    lemma_find_first_facts(s, 0, n, Probe::Sym(':'));
    let colon = find_first(s, 0, n, Probe::Sym(':'))->Some_0;
    lemma_find_last_facts(s, 0, colon, Probe::NonWhite);
    let ve = find_last(s, 0, colon, Probe::NonWhite)->Some_0;
    lemma_find_last_facts(s, 0, ve, Probe::White);
    let w = find_last(s, 0, ve, Probe::White)->Some_0;
    lemma_find_last_facts(s, 0, w + 1, Probe::NonWhite);
    let te = find_last(s, 0, w + 1, Probe::NonWhite)->Some_0;
    lemma_find_first_facts(s, 0, n, Probe::NonWhite);
    lemma_find_first_facts(s, colon + 1, n, Probe::NonWhite);
    let bb = find_first(s, colon + 1, n, Probe::NonWhite)->Some_0;
    lemma_find_first_facts(s, bb, n, Probe::Sym(';'));
    let be = find_first(s, bb, n, Probe::Sym(';'))->Some_0;
    assert(te != w);
    if be + 1 < n {
        lemma_find_first_facts(s, be + 1, n, Probe::NonWhite);
        lemma_find_last_facts(s, 0, n, Probe::NonWhite);
    }
}

impl Analyzer {
    pub fn find_key_points(&self, s: &Vec<char>) -> (r: Result<KeyPoints, AnalyzeErr>)
        ensures
            match bit_field_points(s@) {
                Some(k) => r == Ok::<KeyPoints, AnalyzeErr>(k),
                None => r is Err,
            },
    {
        let n = s.len();
        let colon_pos = s.sym(0, n, ':')?;
        let var_end = s.rfind_nwhite(0, colon_pos)?;
        let var_begin = s.rfind_white(0, var_end)? + 1;
        let type_end = s.rfind_nwhite(0, var_begin)?;
        let type_begin = s.find_nwhite(0, n)?;
        let bit_begin = s.find_nwhite(colon_pos + 1, n)?;
        let bit_end = s.sym(bit_begin, n, ';')?;
        if parse_unsigned(s, bit_begin, bit_end, u32::MAX as u64).is_none() {
            return Err(AnalyzeErr {});
        }
        let t = if bit_end + 1 < n {
            s.find_nwhite(bit_end + 1, n)
        } else {
            Err(AnalyzeErr {})
        };
        let rest_begin;
        let rest_end;
        if let Ok(rb) = t {
            rest_begin = rb;
            rest_end = s.rfind_nwhite(0, n)?;
        } else {
            rest_begin = n;
            rest_end = n;
        }
        Ok(KeyPoints { var_begin, var_end, type_begin, type_end, bit_begin, bit_end, rest_begin, rest_end })
    }
}

impl LineAnalyzer for Analyzer {
    open spec fn wf(&self) -> bool {
        true
    }

    open spec fn has_defaults(&self) -> bool {
        true
    }

    open spec fn accepts(&self, s: Seq<char>) -> bool {
        bit_field_points(s) is Some
    }

    open spec fn analysis(&self, s: Seq<char>) -> Option<Seq<Column>> {
        match bit_field_points(s) {
            Some(k) => Some(bit_field_columns(k, s.len() as int)),
            None => None,
        }
    }

    fn clear(&mut self) {
    }

    fn can_accept(&self, s: &Vec<char>) -> (r: Result<(), AnalyzeErr>) {
        self.find_key_points(s)?;
        Ok(())
    }

    fn analyze_line(&mut self, fmt: &mut Formatter, l: &mut LineDescr) -> (r: Result<(), AnalyzeErr>) {
        let k = self.find_key_points(&l.s)?;
        proof {
            lemma_bit_field_points(l.s@);
        }
        let rest_exist = k.rest_begin < l.s.len();
        let mut cols = vec![
            Column { begin: k.type_begin, end: k.type_end + 1, sep: Some(' ') },
            Column { begin: k.var_begin, end: k.var_end + 1, sep: Some(':') },
        ];
        let sep = if rest_exist {
            Some(' ')
        } else {
            None
        };
        cols.push(Column { begin: k.bit_begin, end: k.bit_end + 1, sep });
        if rest_exist {
            cols.push(Column { begin: k.rest_begin, end: k.rest_end + 1, sep: None });
        }
        assert(cols@ =~= bit_field_columns(k, l.s@.len() as int));
        fmt.add_columns(&cols, l);
        Ok(())
    }
}

} // verus!
