use vstd::prelude::*;

use super::find_first;
use super::find_last;
use super::lemma_find_first_facts;
use super::lemma_find_last_facts;
use super::AnalyzeErr;
use super::LineAnalyzer;
use super::LineParser;
use super::Probe;
use crate::column_tools::cols_within;
use super::separators::lemma_ordered_concat;
use super::separators::spans_ordered;
use crate::column_tools::Column;
use crate::column_tools::Formatter;
use crate::column_tools::LineDescr;

verus! {

/// Recognizes a tag `<name attr="value" ...>` or `<name ... />` and cuts it
/// into the opening of the tag, each attribute's name and quoted value, and
/// the closing bracket.
pub struct Analyzer {}

/// The trimmed line starts with `<` and ends with `>`.
pub open spec fn xml_accepts(s: Seq<char>) -> bool {
    let n = s.len() as int;
    match (find_first(s, 0, n, Probe::NonWhite), find_last(s, 0, n, Probe::NonWhite)) {
        (Some(start), Some(end)) => s[start] == '<' && s[end] == '>',
        _ => false,
    }
}

/// Where the tag starts, where its `>` is, where its name ends, and where
/// its closing (`>` or `/>`) begins.
pub open spec fn xml_frame(s: Seq<char>) -> Option<(int, int, int, int)> {
    let n = s.len() as int;
    if !xml_accepts(s) {
        None
    } else {
        let start = find_first(s, 0, n, Probe::NonWhite)->Some_0;
        let end = find_last(s, 0, n, Probe::NonWhite)->Some_0;
        match find_first(s, start + 1, end, Probe::White) {
            None => None,
            Some(tag_end) => Some(
                (start, end, tag_end, if s[end - 1] == '/' {
                    end - 1
                } else {
                    end
                }),
            ),
        }
    }
}

/// The columns of the attributes `name="value"` found in `[pos, hi)`: each
/// name, to its last non-whitespace character, separated by `=`; each
/// quoted value, separated by a space. `None` where an attribute is cut short.
pub open spec fn xml_attrs(s: Seq<char>, hi: int, pos: int) -> Option<Seq<Column>>
    decreases hi - pos,
{
    if pos >= hi {
        Some(Seq::empty())
    } else {
        match find_first(s, pos, hi, Probe::NonWhite) {
            None => Some(Seq::empty()),
            Some(p) => match find_first(s, p, hi, Probe::Sym('=')) {
                None => None,
                Some(a) => match find_last(s, p, a, Probe::NonWhite) {
                    None => None,
                    Some(pe) => match find_first(s, a + 1, hi, Probe::Sym('"')) {
                        None => None,
                        Some(q1) => match find_first(s, q1 + 1, hi, Probe::Sym('"')) {
                            None => None,
                            Some(q2) => if q2 < pos || q2 >= hi {
                                None
                            } else {
                                match xml_attrs(s, hi, q2 + 1) {
                                    None => None,
                                    Some(rest) => Some(
                                        seq![
                                            Column { begin: p as usize, end: (pe + 1) as usize, sep: Some('=') },
                                            Column { begin: q1 as usize, end: (q2 + 1) as usize, sep: Some(' ') },
                                        ] + rest,
                                    ),
                                }
                            },
                        },
                    },
                },
            },
        }
    }
}

/// The opening of the tag, separated by a space; the attributes, the last
/// value with no separator before the closing; the closing.
pub open spec fn xml_analysis(s: Seq<char>) -> Option<Seq<Column>> {
    match xml_frame(s) {
        None => None,
        Some(f) => match xml_attrs(s, f.3, f.2) {
            None => None,
            Some(attrs) => Some(
                seq![Column { begin: f.0 as usize, end: f.2 as usize, sep: Some(' ') }] + last_unseparated(attrs)
                    + seq![Column { begin: f.3 as usize, end: (f.1 + 1) as usize, sep: None }],
            ),
        },
    }
}

/// The columns, the last of them without a separator.
pub open spec fn last_unseparated(cols: Seq<Column>) -> Seq<Column> {
    if cols.len() == 0 {
        cols
    } else {
        cols.update(cols.len() - 1, Column { sep: None, ..cols.last() })
    }
}

pub proof fn lemma_xml_frame(s: Seq<char>)
    requires
        xml_frame(s) is Some,
        s.len() <= usize::MAX,
    ensures
        ({
            let f = xml_frame(s)->Some_0;
            &&& 0 <= f.0 < f.2 <= f.3 <= f.1 < s.len()
            &&& f.3 >= f.1 - 1
        }),
{
    let n = s.len() as int;
    lemma_find_first_facts(s, 0, n, Probe::NonWhite);
    lemma_find_last_facts(s, 0, n, Probe::NonWhite);
    let start = find_first(s, 0, n, Probe::NonWhite)->Some_0;
    let end = find_last(s, 0, n, Probe::NonWhite)->Some_0;
    lemma_find_first_facts(s, start + 1, end, Probe::White);
}

/// The attribute columns lie in `[pos, hi)`, in order.
pub proof fn lemma_xml_attrs(s: Seq<char>, hi: int, pos: int)
    requires
        0 <= pos,
        hi <= s.len() <= usize::MAX,
        xml_attrs(s, hi, pos) is Some,
    ensures
        cols_within(xml_attrs(s, hi, pos)->Some_0, hi),
        spans_ordered(xml_attrs(s, hi, pos)->Some_0, pos, hi),
        forall|i: int|
            0 <= i < xml_attrs(s, hi, pos)->Some_0.len() ==> #[trigger] xml_attrs(s, hi, pos)->Some_0[i].begin < hi,
        xml_attrs(s, hi, pos)->Some_0.len() <= hi - pos || (pos >= hi && xml_attrs(s, hi, pos)->Some_0.len() == 0),
        forall|i: int|
            0 <= i < xml_attrs(s, hi, pos)->Some_0.len() ==> pos <= #[trigger] xml_attrs(
                s,
                hi,
                pos,
            )->Some_0[i].begin,
    decreases hi - pos,
{
    if pos < hi {
        lemma_find_first_facts(s, pos, hi, Probe::NonWhite);
        if let Some(p) = find_first(s, pos, hi, Probe::NonWhite) {
            lemma_find_first_facts(s, p, hi, Probe::Sym('='));
            let a = find_first(s, p, hi, Probe::Sym('='))->Some_0;
            lemma_find_last_facts(s, p, a, Probe::NonWhite);
            lemma_find_first_facts(s, a + 1, hi, Probe::Sym('"'));
            let q1 = find_first(s, a + 1, hi, Probe::Sym('"'))->Some_0;
            lemma_find_first_facts(s, q1 + 1, hi, Probe::Sym('"'));
            let q2 = find_first(s, q1 + 1, hi, Probe::Sym('"'))->Some_0;
            lemma_xml_attrs(s, hi, q2 + 1);
            let pe = find_last(s, p, a, Probe::NonWhite)->Some_0;
            let pair = seq![
                Column { begin: p as usize, end: (pe + 1) as usize, sep: Some('=') },
                Column { begin: q1 as usize, end: (q2 + 1) as usize, sep: Some(' ') },
            ];
            lemma_ordered_concat(pair, xml_attrs(s, hi, q2 + 1)->Some_0, pos, q2 + 1, hi);
        }
    }
}

/// Dropping the last separator keeps every span.
pub proof fn lemma_last_unseparated(cols: Seq<Column>, lo: int, hi: int)
    ensures
        last_unseparated(cols).len() == cols.len(),
        forall|i: int|
            0 <= i < cols.len() ==> (#[trigger] last_unseparated(cols)[i]).begin == cols[i].begin
                && last_unseparated(cols)[i].end == cols[i].end,
        spans_ordered(cols, lo, hi) ==> spans_ordered(last_unseparated(cols), lo, hi),
{
    let r = last_unseparated(cols);
    assert(forall|i: int| 0 <= i < cols.len() ==> (#[trigger] r[i]).begin == cols[i].begin && r[i].end == cols[i].end);
    if spans_ordered(cols, lo, hi) {
        assert forall|i: int| 0 <= i < r.len() - 1 implies #[trigger] r[i].end <= r[i + 1].begin && r[i].begin
            < r[i + 1].begin by {
            assert(cols[i].end <= cols[i + 1].begin);
        }
        assert forall|i: int| 0 <= i < r.len() implies lo <= #[trigger] r[i].begin <= r[i].end <= hi by {
            assert(lo <= cols[i].begin);
        }
    }
}

/// The columns of a recognized tag lie within the line, and are few.
pub proof fn lemma_xml_within(s: Seq<char>)
    requires
        xml_analysis(s) is Some,
        s.len() + 8 < usize::MAX,
    ensures
        cols_within(xml_analysis(s)->Some_0, s.len() as int),
        xml_analysis(s)->Some_0.len() <= s.len() + 2,
{
    lemma_xml_frame(s);
    let f = xml_frame(s)->Some_0;
    lemma_xml_attrs(s, f.3, f.2);
    let attrs = xml_attrs(s, f.3, f.2)->Some_0;
    lemma_last_unseparated(attrs, f.2, f.3);
    let r = xml_analysis(s)->Some_0;
    let head = seq![Column { begin: f.0 as usize, end: f.2 as usize, sep: Some(' ') }];
    assert forall|i: int| 0 <= i < r.len() implies #[trigger] r[i].begin <= r[i].end <= s.len() by {
        if 0 < i < r.len() - 1 {
            assert(r[i] == last_unseparated(attrs)[i - 1]);
            assert(attrs[i - 1].begin <= attrs[i - 1].end <= f.3);
        }
    }
}

impl Analyzer {
    /// The attribute columns in `[tag_end, close_beg)`.
    fn find_attrs(&self, s: &Vec<char>, tag_end: usize, close_beg: usize) -> (r: Result<Vec<Column>, AnalyzeErr>)
        requires
            tag_end <= close_beg <= s@.len(),
        ensures
            match xml_attrs(s@, close_beg as int, tag_end as int) {
                Some(cols) => r is Ok && r->Ok_0@ == cols,
                None => r is Err,
            },
    {
        let mut cols: Vec<Column> = Vec::new();
        let mut search: usize = tag_end;
        let mut done = false;
        while !done
            invariant
                tag_end <= search <= close_beg <= s@.len(),
                xml_attrs(s@, close_beg as int, tag_end as int) == match xml_attrs(
                    s@,
                    close_beg as int,
                    search as int,
                ) {
                    Some(rest) => Some(cols@ + rest),
                    None => None::<Seq<Column>>,
                },
                done ==> xml_attrs(s@, close_beg as int, search as int) == Some(Seq::<Column>::empty()),
            decreases close_beg - search + (if done {
                0int
            } else {
                1int
            }),
        {
            let ghost c0 = cols@;
            match s.find_nwhite(search, close_beg) {
                Err(_) => {
                    done = true;
                },
                Ok(prop_begin) => {
                    let assign = s.sym(prop_begin, close_beg, '=')?;
                    let prop_end = s.rfind_nwhite(prop_begin, assign)?;
                    let q_begin = s.sym(assign + 1, close_beg, '"')?;
                    let q_end = s.sym(q_begin + 1, close_beg, '"')?;
                    let ghost rest = xml_attrs(s@, close_beg as int, q_end + 1);
                    let ghost pair = seq![
                        Column { begin: prop_begin, end: (prop_end + 1) as usize, sep: Some('=') },
                        Column { begin: q_begin, end: (q_end + 1) as usize, sep: Some(' ') },
                    ];
                    cols.push(Column { begin: prop_begin, end: prop_end + 1, sep: Some('=') });
                    cols.push(Column { begin: q_begin, end: q_end + 1, sep: Some(' ') });
                    proof {
                        assert(cols@ =~= c0 + pair);
                        if rest is Some {
                            assert(c0 + (pair + rest->Some_0) =~= cols@ + rest->Some_0);
                        }
                    }
                    search = q_end + 1;
                },
            }
        }
        proof {
            assert(cols@ + Seq::<Column>::empty() =~= cols@);
        }
        Ok(cols)
    }
}

impl Analyzer {
    /// The columns of a tag line.
    pub fn columns_of(&self, v: &Vec<char>) -> (r: Result<Vec<Column>, AnalyzeErr>)
        ensures
            match xml_analysis(v@) {
                Some(cols) => r is Ok && r->Ok_0@ == cols,
                None => r is Err,
            },
    {
        let n = v.len();
        let ghost s = v@;
        proof {
            lemma_find_first_facts(s, 0, n as int, Probe::NonWhite);
            lemma_find_last_facts(s, 0, n as int, Probe::NonWhite);
        }
        let start = v.find_nwhite(0, n)?;
        v.expect_sym(start, n, '<')?;
        let end = v.rfind_nwhite(0, n)?;
        v.expect_sym(end, n, '>')?;
        let tag_end = v.find_white(start + 1, end)?;
        let close_beg = if v[end - 1] == '/' {
            end - 1
        } else {
            end
        };
        proof {
            lemma_xml_frame(s);
        }
        let attrs = self.find_attrs(&v, tag_end, close_beg)?;
        proof {
            lemma_xml_attrs(s, close_beg as int, tag_end as int);
        }
        let mut cols = vec![Column { begin: start, end: tag_end, sep: Some(' ') }];
        let mut i: usize = 0;
        while i < attrs.len()
            invariant
                i <= attrs@.len(),
                cols@ == seq![Column { begin: start, end: tag_end, sep: Some(' ') }] + attrs@.subrange(0, i as int),
            decreases attrs@.len() - i,
        {
            cols.push(attrs[i]);
            assert(attrs@.subrange(0, i + 1) =~= attrs@.subrange(0, i as int).push(attrs@[i as int]));
            i = i + 1;
        }
        if attrs.len() > 0 {
            let last = cols.len() - 1;
            let c = cols[last];
            cols.set(last, Column { begin: c.begin, end: c.end, sep: None });
        }
        cols.push(Column { begin: close_beg, end: end + 1, sep: None });
        assert(attrs@.subrange(0, attrs@.len() as int) =~= attrs@);
        assert(cols@ =~= xml_analysis(s)->Some_0) by {
            let a0 = xml_attrs(s, close_beg as int, tag_end as int)->Some_0;
            assert(a0 == attrs@);
        }
        Ok(cols)
    }


}

impl LineAnalyzer for Analyzer {
    open spec fn wf(&self) -> bool {
        true
    }

    open spec fn has_defaults(&self) -> bool {
        true
    }

    open spec fn accepts(&self, s: Seq<char>) -> bool {
        xml_analysis(s) is Some
    }

    open spec fn analysis(&self, s: Seq<char>) -> Option<Seq<Column>> {
        xml_analysis(s)
    }

    fn clear(&mut self) {
    }

    fn can_accept(&self, s: &Vec<char>) -> (r: Result<(), AnalyzeErr>) {
        self.columns_of(s)?;
        Ok(())
    }

    fn analyze_line(&mut self, fmt: &mut Formatter, l: &mut LineDescr) -> (r: Result<(), AnalyzeErr>) {
        let cols = self.columns_of(&l.s)?;
        proof {
            lemma_xml_within(l.s@);
        }
        fmt.add_columns(&cols, l);
        Ok(())
    }
}

} // verus!
