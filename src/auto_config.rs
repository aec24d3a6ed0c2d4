use vstd::prelude::*;

use crate::analyzers::assignment::lemma_type_var_points;
use crate::analyzers::assignment::lemma_var_points;
use crate::analyzers::assignment::type_var_columns;
use crate::analyzers::assignment::type_var_points;
use crate::analyzers::bit_field::bit_field_columns;
use crate::analyzers::bit_field::lemma_bit_field_points;
use crate::analyzers::cmnt_struct::comment_columns;
use crate::analyzers::cmnt_struct::lemma_cmnt_struct_points;
use crate::analyzers::func_call::func_call_points;
use crate::analyzers::func_call::lemma_func_call_points;
use crate::analyzers::func_decl::func_decl_columns;
use crate::analyzers::func_decl::lemma_func_decl_points;
use crate::analyzers::separators::lemma_columns_from;
use crate::analyzers::separators::lemma_ordered_concat;
use crate::analyzers::separators::spans_ordered;
use crate::analyzers::var_decl::lemma_var_decl_points;
use crate::analyzers::xml_attr::last_unseparated;
use crate::analyzers::xml_attr::lemma_last_unseparated;
use crate::analyzers::xml_attr::lemma_xml_attrs;
use crate::analyzers::xml_attr::lemma_xml_frame;
use crate::analyzers::xml_attr::xml_analysis;
use crate::analyzers::xml_attr::xml_attrs;
use crate::analyzers::xml_attr::xml_frame;
use crate::analyzers::assignment::var_points;
use crate::analyzers::assignment::TypeVarAnalyzer as AssignmentAnalyzer;
use crate::analyzers::assignment::VarAnalyzer as AssignmentVarAnalyzer;
use crate::analyzers::bit_field::bit_field_points;
use crate::analyzers::bit_field::Analyzer as BitFieldAnalyzer;
use crate::analyzers::cmnt_struct::cmnt_struct_points;
use crate::analyzers::cmnt_struct::struct_tracker;
use crate::analyzers::cmnt_struct::Analyzer as CommentStructAnalyzer;
use crate::analyzers::find_first;
use crate::analyzers::func_call::call_tracker;
use crate::analyzers::func_call::Analyzer as FuncCallAnalyzer;
use crate::analyzers::func_decl::func_decl_points;
use crate::analyzers::func_decl::Analyzer as FuncDeclAnalyzer;
use crate::analyzers::lemma_find_first_facts;
use crate::analyzers::separators::holds_chars;
use crate::analyzers::separators::Analyzer as SepLineAnalyzer;
use crate::analyzers::separators::BoundType;
use crate::analyzers::separators::Boundary;
use crate::analyzers::var_decl::var_decl_points;
use crate::analyzers::var_decl::Analyzer as VarDeclAnalyzer;
use crate::analyzers::xml_attr::Analyzer as XmlAttrAnalyzer;
use crate::analyzers::AnalyzeErr;
use crate::analyzers::LineAnalyzer;
use crate::analyzers::LineParser;
use crate::analyzers::Probe;
use crate::column_tools::chars_of;
use crate::column_tools::Align;
use crate::column_tools::Column;
use crate::column_tools::Formatter;
use crate::column_tools::LineDescr;
use crate::column_tools::Printer;
use crate::column_tools::SeparatorConfig;

verus! {

/// The kinds of line a batch can be aligned as.
#[derive(Debug, Clone, Copy, PartialEq, Eq, Structural)]
pub enum AutoMode {
    /// Columns separated by spaces.
    SimpleSpace,
    /// Columns separated by commas; spaces never start a column.
    SimpleComma,
    /// `<type> <var> = <expr>`.
    SimpleAssignment,
    /// `<var> = <expr>`.
    SimpleVarAssignment,
    /// `<type> <name>(<params>)`.
    FnDecl,
    /// `<name>(<args>)`, the arguments in columns.
    FnCall,
    /// `<type> <var>;`.
    VarDecl,
    /// A tag with attributes.
    Xml,
    /// `<type> <var> : <width>;`.
    BitField,
    /// `/* comment */ {field, ...}`.
    CommentWithStruct,
    /// Comma-separated fields inside the given brackets, strings left whole,
    /// lines starting with `//` left alone.
    CLike(Option<char>, Option<char>),
}

/// One analyzer of any kind.
pub enum AnyAnalyzer {
    Sep(SepLineAnalyzer),
    Assignment(AssignmentAnalyzer),
    VarAssignment(AssignmentVarAnalyzer),
    FuncDecl(FuncDeclAnalyzer),
    FuncCall(FuncCallAnalyzer),
    VarDecl(VarDeclAnalyzer),
    Xml(XmlAttrAnalyzer),
    BitField(BitFieldAnalyzer),
    CommentStruct(CommentStructAnalyzer),
}

impl LineAnalyzer for AnyAnalyzer {
    open spec fn wf(&self) -> bool {
        match self {
            AnyAnalyzer::Sep(a) => a.wf(),
            AnyAnalyzer::Assignment(a) => a.wf(),
            AnyAnalyzer::VarAssignment(a) => a.wf(),
            AnyAnalyzer::FuncDecl(a) => a.wf(),
            AnyAnalyzer::FuncCall(a) => a.wf(),
            AnyAnalyzer::VarDecl(a) => a.wf(),
            AnyAnalyzer::Xml(a) => a.wf(),
            AnyAnalyzer::BitField(a) => a.wf(),
            AnyAnalyzer::CommentStruct(a) => a.wf(),
        }
    }

    open spec fn has_defaults(&self) -> bool {
        match self {
            AnyAnalyzer::Sep(a) => a.has_defaults(),
            AnyAnalyzer::Assignment(a) => a.has_defaults(),
            AnyAnalyzer::VarAssignment(a) => a.has_defaults(),
            AnyAnalyzer::FuncDecl(a) => a.has_defaults(),
            AnyAnalyzer::FuncCall(a) => a.has_defaults(),
            AnyAnalyzer::VarDecl(a) => a.has_defaults(),
            AnyAnalyzer::Xml(a) => a.has_defaults(),
            AnyAnalyzer::BitField(a) => a.has_defaults(),
            AnyAnalyzer::CommentStruct(a) => a.has_defaults(),
        }
    }

    open spec fn accepts(&self, s: Seq<char>) -> bool {
        match self {
            AnyAnalyzer::Sep(a) => a.accepts(s),
            AnyAnalyzer::Assignment(a) => a.accepts(s),
            AnyAnalyzer::VarAssignment(a) => a.accepts(s),
            AnyAnalyzer::FuncDecl(a) => a.accepts(s),
            AnyAnalyzer::FuncCall(a) => a.accepts(s),
            AnyAnalyzer::VarDecl(a) => a.accepts(s),
            AnyAnalyzer::Xml(a) => a.accepts(s),
            AnyAnalyzer::BitField(a) => a.accepts(s),
            AnyAnalyzer::CommentStruct(a) => a.accepts(s),
        }
    }

    open spec fn analysis(&self, s: Seq<char>) -> Option<Seq<Column>> {
        match self {
            AnyAnalyzer::Sep(a) => a.analysis(s),
            AnyAnalyzer::Assignment(a) => a.analysis(s),
            AnyAnalyzer::VarAssignment(a) => a.analysis(s),
            AnyAnalyzer::FuncDecl(a) => a.analysis(s),
            AnyAnalyzer::FuncCall(a) => a.analysis(s),
            AnyAnalyzer::VarDecl(a) => a.analysis(s),
            AnyAnalyzer::Xml(a) => a.analysis(s),
            AnyAnalyzer::BitField(a) => a.analysis(s),
            AnyAnalyzer::CommentStruct(a) => a.analysis(s),
        }
    }

    fn clear(&mut self) {
        match self {
            AnyAnalyzer::Sep(a) => a.clear(),
            AnyAnalyzer::Assignment(a) => a.clear(),
            AnyAnalyzer::VarAssignment(a) => a.clear(),
            AnyAnalyzer::FuncDecl(a) => a.clear(),
            AnyAnalyzer::FuncCall(a) => a.clear(),
            AnyAnalyzer::VarDecl(a) => a.clear(),
            AnyAnalyzer::Xml(a) => a.clear(),
            AnyAnalyzer::BitField(a) => a.clear(),
            AnyAnalyzer::CommentStruct(a) => a.clear(),
        }
    }

    fn can_accept(&self, s: &Vec<char>) -> (r: Result<(), AnalyzeErr>) {
        match self {
            AnyAnalyzer::Sep(a) => a.can_accept(s),
            AnyAnalyzer::Assignment(a) => a.can_accept(s),
            AnyAnalyzer::VarAssignment(a) => a.can_accept(s),
            AnyAnalyzer::FuncDecl(a) => a.can_accept(s),
            AnyAnalyzer::FuncCall(a) => a.can_accept(s),
            AnyAnalyzer::VarDecl(a) => a.can_accept(s),
            AnyAnalyzer::Xml(a) => a.can_accept(s),
            AnyAnalyzer::BitField(a) => a.can_accept(s),
            AnyAnalyzer::CommentStruct(a) => a.can_accept(s),
        }
    }

    fn analyze_line(&mut self, fmt: &mut Formatter, l: &mut LineDescr) -> (r: Result<(), AnalyzeErr>) {
        match self {
            AnyAnalyzer::Sep(a) => a.analyze_line(fmt, l),
            AnyAnalyzer::Assignment(a) => a.analyze_line(fmt, l),
            AnyAnalyzer::VarAssignment(a) => a.analyze_line(fmt, l),
            AnyAnalyzer::FuncDecl(a) => a.analyze_line(fmt, l),
            AnyAnalyzer::FuncCall(a) => a.analyze_line(fmt, l),
            AnyAnalyzer::VarDecl(a) => a.analyze_line(fmt, l),
            AnyAnalyzer::Xml(a) => a.analyze_line(fmt, l),
            AnyAnalyzer::BitField(a) => a.analyze_line(fmt, l),
            AnyAnalyzer::CommentStruct(a) => a.analyze_line(fmt, l),
        }
    }
}

/// The bracket shape of a line whose first non-whitespace character is `{` or `(`.
pub open spec fn bracket_mode(s: Seq<char>) -> Option<AutoMode> {
    match find_first(s, 0, s.len() as int, Probe::NonWhite) {
        Some(i) => if s[i] == '{' {
            Some(AutoMode::CLike(Some('{'), Some('}')))
        } else if s[i] == '(' {
            Some(AutoMode::CLike(Some('('), Some(')')))
        } else {
            None
        },
        None => None,
    }
}

/// The kind of a batch whose first line is `s`: the first of these shapes
/// the line has, in this order.
pub open spec fn auto_mode(s: Seq<char>) -> AutoMode {
    if xml_analysis(s) is Some {
        AutoMode::Xml
    } else if bit_field_points(s) is Some {
        AutoMode::BitField
    } else if type_var_points(s) is Some {
        AutoMode::SimpleAssignment
    } else if func_decl_points(s) is Some {
        AutoMode::FnDecl
    } else if var_points(s) is Some {
        AutoMode::SimpleVarAssignment
    } else if cmnt_struct_points(s) is Some {
        AutoMode::CommentWithStruct
    } else if var_decl_points(s) is Some {
        AutoMode::VarDecl
    } else if bracket_mode(s) is Some {
        bracket_mode(s)->Some_0
    } else if s.contains(',') {
        AutoMode::SimpleComma
    } else {
        AutoMode::SimpleSpace
    }
}

fn auto_analyze_cpp(s: &Vec<char>) -> (r: Option<AutoMode>)
    ensures
        r == bracket_mode(s@),
{
    match s.find_nwhite(0, s.len()) {
        Ok(nonwhite) => {
            if s[nonwhite] == '{' {
                Some(AutoMode::CLike(Some('{'), Some('}')))
            } else if s[nonwhite] == '(' {
                Some(AutoMode::CLike(Some('('), Some(')')))
            } else {
                None
            }
        },
        Err(_) => None,
    }
}

fn try_accept<T: LineAnalyzer>(la: T, s: &Vec<char>) -> (r: Result<(), AnalyzeErr>)
    requires
        la.wf(),
    ensures
        r is Ok <==> la.accepts(s@),
{
    la.can_accept(s)
}

/// Picks the kind of a batch from its first line.
pub fn auto_analyze(s: &str) -> (r: AutoMode)
    ensures
        r == auto_mode(s@),
{
    let v = chars_of(s);
    if let Ok(_) = try_accept(XmlAttrAnalyzer {}, &v) {
        AutoMode::Xml
    } else if let Ok(_) = try_accept(BitFieldAnalyzer {}, &v) {
        AutoMode::BitField
    } else if let Ok(_) = try_accept(AssignmentAnalyzer {}, &v) {
        AutoMode::SimpleAssignment
    } else if let Ok(_) = try_accept(FuncDeclAnalyzer {}, &v) {
        AutoMode::FnDecl
    } else if let Ok(_) = try_accept(AssignmentVarAnalyzer {}, &v) {
        AutoMode::SimpleVarAssignment
    } else if let Ok(_) = try_accept(CommentStructAnalyzer::new(), &v) {
        AutoMode::CommentWithStruct
    } else if let Ok(_) = try_accept(VarDeclAnalyzer {}, &v) {
        AutoMode::VarDecl
    } else if let Some(mode) = auto_analyze_cpp(&v) {
        mode
    } else if let Ok(_) = v.sym(0, v.len(), ',') {
        proof {
            lemma_find_first_facts(v@, 0, v@.len() as int, Probe::Sym(','));
        }
        AutoMode::SimpleComma
    } else {
        proof {
            lemma_find_first_facts(v@, 0, v@.len() as int, Probe::Sym(','));
        }
        AutoMode::SimpleSpace
    }
}

/// An analyzer with the settings a batch of its kind is analyzed with, the
/// formatter and the printer to go with it.
pub struct AutoConfigResult {
    pub printer: Printer,
    pub formatter: Formatter,
    pub analyzer: AnyAnalyzer,
}

/// The prefix of the lines a batch of this kind leaves alone.
pub open spec fn mode_ignores(m: AutoMode) -> Seq<Seq<char>> {
    match m {
        AutoMode::CommentWithStruct | AutoMode::CLike(_, _) => seq![seq!['/', '/']],
        _ => Seq::empty(),
    }
}

/// What a batch of this kind puts between columns in place of their separators.
pub open spec fn mode_join(m: AutoMode) -> Seq<char> {
    match m {
        AutoMode::SimpleComma => seq![',', ' '],
        _ => Seq::empty(),
    }
}

/// A batch of this kind prints lines of another column count as they are.
pub open spec fn mode_passes_through(m: AutoMode) -> bool {
    match m {
        AutoMode::SimpleSpace | AutoMode::SimpleComma | AutoMode::BitField | AutoMode::Xml => false,
        _ => true,
    }
}

/// How a batch of this kind prints separators: the separator, the fill,
/// its count and its alignment.
pub open spec fn mode_sep_configs(m: AutoMode) -> Seq<(char, char, u8, Align)> {
    match m {
        AutoMode::SimpleAssignment | AutoMode::SimpleVarAssignment => seq![('=', ' ', 2u8, Align::Center)],
        AutoMode::BitField => seq![(':', ' ', 2u8, Align::Center)],
        AutoMode::CommentWithStruct | AutoMode::FnCall | AutoMode::CLike(_, _) => seq![(',', ' ', 1u8, Align::Left)],
        _ => Seq::empty(),
    }
}

pub open spec fn cfg_of(c: SeparatorConfig) -> (char, char, u8, Align) {
    (c.sep, c.fill, c.count, c.align)
}

pub open spec fn sym_bound(c: char) -> Boundary {
    Boundary { open: c, close: None, lim: 1, lim_orig: 1 }
}

pub open spec fn asym_bound(o: char, c: char) -> Boundary {
    Boundary { open: o, close: Some(c), lim: 1, lim_orig: 1 }
}

/// The analyzer a batch of this kind is analyzed with.
pub open spec fn mode_analyzer(m: AutoMode, a: AnyAnalyzer) -> bool {
    match m {
        AutoMode::SimpleSpace => a is Sep && {
            let t = a->Sep_0;
            holds_chars(t.seps@, seq![' ']) && t.seps_new_column@.len() == 0 && t.includes@.len() == 0 && t.excludes@.len() == 0
        },
        AutoMode::SimpleComma => a is Sep && {
            let t = a->Sep_0;
            holds_chars(t.seps@, seq![',']) && holds_chars(t.seps_new_column@, seq![',', ' ']) && t.includes@.len() == 0 && t.excludes@.len() == 0
        },
        AutoMode::SimpleAssignment => a is Assignment,
        AutoMode::SimpleVarAssignment => a is VarAssignment,
        AutoMode::FnDecl => a is FuncDecl,
        AutoMode::FnCall => a is FuncCall && call_tracker(&a->FuncCall_0.sepa),
        AutoMode::VarDecl => a is VarDecl,
        AutoMode::Xml => a is Xml,
        AutoMode::BitField => a is BitField,
        AutoMode::CommentWithStruct => a is CommentStruct && struct_tracker(&a->CommentStruct_0.sepa),
        AutoMode::CLike(open, close) => a is Sep && {
            let t = a->Sep_0;
            &&& holds_chars(t.seps_new_column@, seq![',', ' '])
            &&& t.excludes@ == seq![sym_bound('"')]
            &&& match (open, close) {
                (Some(o), Some(c)) => holds_chars(t.seps@, seq![',', c]) && t.includes@ == seq![asym_bound(o, c)],
                (Some(o), None) => holds_chars(t.seps@, seq![',']) && t.includes@ == seq![sym_bound(o)],
                _ => holds_chars(t.seps@, seq![',']) && t.includes@.len() == 0,
            }
        },
    }
}

/// The `//` prefix, as a string.
fn comment_start() -> (r: String)
    ensures
        r@ == seq!['/', '/'],
{
    let mut r = String::new();
    r.push('/');
    r.push('/');
    assert(r@ =~= seq!['/', '/']);
    r
}

/// The analyzer, formatter and printer for a batch of kind `m`. Every kind
/// aligns to the left, keeps the text before the first field as a column,
/// and fills with spaces.
pub fn do_auto_config(m: AutoMode) -> (r: AutoConfigResult)
    ensures
        mode_analyzer(m, r.analyzer),
        r.analyzer.wf(),
        r.formatter.columns@.len() == 0,
        r.formatter.total_size == 0,
        r.formatter.add_pre_start,
        r.formatter.ignores() == mode_ignores(m),
        r.printer.align == Align::Left,
        r.printer.fill == ' ',
        r.printer.fill_count == 0,
        r.printer.join@ == mode_join(m),
        r.printer.non_matched_as_is == mode_passes_through(m),
        r.printer.fmt is None,
        r.printer.wf(),
        r.printer.sep_joins@.map_values(|c: SeparatorConfig| cfg_of(c)) == mode_sep_configs(m),
{
    let mut print_join = String::new();
    let analyzer: AnyAnalyzer;
    let mut non_matched_as_is = false;
    let mut sep_cfgs: Vec<SeparatorConfig> = Vec::new();
    let mut fmtr: Formatter = Formatter::new();
    let align = Align::Left;
    let print_fill = ' ';
    let print_fill_count: u8 = 0;
    fmtr.clear();
    fmtr.set_add_pre_start(true);
    match m {
        AutoMode::SimpleSpace => {
            let mut sa = SepLineAnalyzer::new();
            let seps = vec![' '];
            assert(seps@ =~= seq![' ']);
            sa.set_separators(seps);
            analyzer = AnyAnalyzer::Sep(sa);
        },
        AutoMode::SimpleComma => {
            let mut sa = SepLineAnalyzer::new();
            let seps = vec![','];
            assert(seps@ =~= seq![',']);
            sa.set_separators(seps);
            let ncs = vec![',', ' '];
            assert(ncs@ =~= seq![',', ' ']);
            sa.set_new_column_separators(ncs);
            print_join.push(',');
            print_join.push(' ');
            analyzer = AnyAnalyzer::Sep(sa);
        },
        AutoMode::SimpleAssignment => {
            non_matched_as_is = true;
            sep_cfgs.push(SeparatorConfig::new('=', ' ', 2, Align::Center));
            analyzer = AnyAnalyzer::Assignment(AssignmentAnalyzer {});
        },
        AutoMode::SimpleVarAssignment => {
            non_matched_as_is = true;
            sep_cfgs.push(SeparatorConfig::new('=', ' ', 2, Align::Center));
            analyzer = AnyAnalyzer::VarAssignment(AssignmentVarAnalyzer {});
        },
        AutoMode::FnDecl => {
            non_matched_as_is = true;
            analyzer = AnyAnalyzer::FuncDecl(FuncDeclAnalyzer {});
        },
        AutoMode::FnCall => {
            non_matched_as_is = true;
            sep_cfgs.push(SeparatorConfig::new(',', ' ', 1, Align::Left));
            analyzer = AnyAnalyzer::FuncCall(FuncCallAnalyzer::configured());
        },
        AutoMode::VarDecl => {
            non_matched_as_is = true;
            analyzer = AnyAnalyzer::VarDecl(VarDeclAnalyzer {});
        },
        AutoMode::BitField => {
            sep_cfgs.push(SeparatorConfig::new(':', ' ', 2, Align::Center));
            analyzer = AnyAnalyzer::BitField(BitFieldAnalyzer {});
        },
        AutoMode::Xml => {
            analyzer = AnyAnalyzer::Xml(XmlAttrAnalyzer {});
        },
        AutoMode::CommentWithStruct => {
            fmtr.set_line_starts_to_ignore(vec![comment_start()]);
            sep_cfgs.push(SeparatorConfig::new(',', ' ', 1, Align::Left));
            non_matched_as_is = true;
            analyzer = AnyAnalyzer::CommentStruct(CommentStructAnalyzer::configured());
        },
        AutoMode::CLike(open, close) => {
            let mut seps: Vec<char> = Vec::new();
            seps.push(',');
            fmtr.set_line_starts_to_ignore(vec![comment_start()]);
            let mut sa = SepLineAnalyzer::new();
            let ncs = vec![',', ' '];
            assert(ncs@ =~= seq![',', ' ']);
            sa.set_new_column_separators(ncs);
            sa.add_boundary(Boundary::new_sym('"', 1), BoundType::Exclude);
            if let Some(o) = open {
                if let Some(c) = close {
                    seps.push(c);
                    sa.add_boundary(Boundary::new_asym(o, c, 1), BoundType::Include);
                } else {
                    sa.add_boundary(Boundary::new_sym(o, 1), BoundType::Include);
                }
            }
            let ghost sv = seps@;
            sa.set_separators(seps);
            sep_cfgs.push(SeparatorConfig::new(',', ' ', 1, Align::Left));
            non_matched_as_is = true;
            analyzer = AnyAnalyzer::Sep(sa);
            proof {
                let t = analyzer->Sep_0;
                assert(t.excludes@ =~= seq![sym_bound('"')]);
                match (open, close) {
                    (Some(o), Some(c)) => {
                        assert(sv =~= seq![',', c]);
                        assert(t.includes@ =~= seq![asym_bound(o, c)]);
                    },
                    (Some(o), None) => {
                        assert(sv =~= seq![',']);
                        assert(t.includes@ =~= seq![sym_bound(o)]);
                    },
                    _ => {
                        assert(sv =~= seq![',']);
                    },
                }
            }
        },
    }
    proof {
        assert(print_join@ =~= mode_join(m));
        assert(fmtr.ignores() =~= mode_ignores(m));
        assert(sep_cfgs@.map_values(|c: SeparatorConfig| cfg_of(c)) =~= mode_sep_configs(m));
    }
    let mut printer = Printer::new(align, print_fill, print_fill_count, print_join, non_matched_as_is);
    printer.set_separator_configs(sep_cfgs);
    AutoConfigResult { printer, formatter: fmtr, analyzer }
}

/// A line that an analyzer's `can_accept` takes is one its `analyze_line`
/// recognizes, and cuts into at least one column.
pub proof fn lemma_accepted_line_is_analyzed(a: AnyAnalyzer, s: Seq<char>)
    requires
        a.accepts(s),
        s.len() + 8 < usize::MAX,
    ensures
        a.analysis(s) is Some,
        a.analysis(s)->Some_0.len() > 0,
{
    match a {
        AnyAnalyzer::Sep(t) => lemma_columns_from(t, s, 0),
        AnyAnalyzer::Xml(_) => lemma_xml_nonempty(s),
        _ => {},
    }
}

proof fn lemma_xml_nonempty(s: Seq<char>)
    requires
        xml_analysis(s) is Some,
    ensures
        xml_analysis(s)->Some_0.len() > 0,
{
    let f = xml_frame(s)->Some_0;
    let attrs = last_unseparated(xml_attrs(s, f.3, f.2)->Some_0);
    let head = seq![Column { begin: f.0 as usize, end: f.2 as usize, sep: Some(' ') }];
    let tail = seq![Column { begin: f.3 as usize, end: (f.1 + 1) as usize, sep: None }];
    assert(xml_analysis(s)->Some_0 == head + attrs + tail);
}

proof fn lemma_type_var_ordered(s: Seq<char>)
    requires
        type_var_points(s) is Some,
        s.len() + 8 < usize::MAX,
    ensures
        spans_ordered(type_var_columns(type_var_points(s)->Some_0, s.len() as int), 0, s.len() as int),
{
    lemma_type_var_points(s);
    let c = type_var_columns(type_var_points(s)->Some_0, s.len() as int);
    assert(c[0].begin < c[1].begin && c[1].begin < c[2].begin);
}

proof fn lemma_func_decl_ordered(s: Seq<char>)
    requires
        func_decl_points(s) is Some,
        s.len() + 8 < usize::MAX,
    ensures
        spans_ordered(func_decl_columns(func_decl_points(s)->Some_0, s.len() as int), 0, s.len() as int),
{
    lemma_func_decl_points(s);
    let c = func_decl_columns(func_decl_points(s)->Some_0, s.len() as int);
    assert(c[0].begin < c[1].begin && c[1].begin < c[2].begin);
}

proof fn lemma_bit_field_ordered(s: Seq<char>)
    requires
        bit_field_points(s) is Some,
        s.len() + 8 < usize::MAX,
    ensures
        spans_ordered(bit_field_columns(bit_field_points(s)->Some_0, s.len() as int), 0, s.len() as int),
{
    lemma_bit_field_points(s);
    let c = bit_field_columns(bit_field_points(s)->Some_0, s.len() as int);
    assert(c[0].begin < c[1].begin && c[1].begin < c[2].begin);
}

proof fn lemma_func_call_ordered(t: SepLineAnalyzer, s: Seq<char>)
    requires
        func_call_points(s) is Some,
        s.len() + 8 < usize::MAX,
    ensures
        ({
            let k = func_call_points(s)->Some_0;
            spans_ordered(
                seq![Column { begin: k.fn_begin, end: (k.fn_end + 1) as usize, sep: None }] + t.columns_from(
                    s,
                    k.paren_pos as int,
                ),
                0,
                s.len() as int,
            )
        }),
{
    lemma_func_call_points(s);
    let k = func_call_points(s)->Some_0;
    lemma_columns_from(t, s, k.paren_pos as int);
    let head = seq![Column { begin: k.fn_begin, end: (k.fn_end + 1) as usize, sep: None }];
    lemma_ordered_concat(head, t.columns_from(s, k.paren_pos as int), 0, k.paren_pos as int, s.len() as int);
}

proof fn lemma_cmnt_struct_ordered(t: SepLineAnalyzer, s: Seq<char>)
    requires
        cmnt_struct_points(s) is Some,
        s.len() + 8 < usize::MAX,
    ensures
        ({
            let k = cmnt_struct_points(s)->Some_0;
            spans_ordered(comment_columns(k) + t.columns_from(s, k.block_begin as int), 0, s.len() as int)
        }),
{
    lemma_cmnt_struct_points(s);
    let k = cmnt_struct_points(s)->Some_0;
    lemma_columns_from(t, s, k.block_begin as int);
    lemma_ordered_concat(comment_columns(k), t.columns_from(s, k.block_begin as int), 0, k.block_begin as int, s.len() as int);
}

proof fn lemma_xml_ordered(s: Seq<char>)
    requires
        xml_analysis(s) is Some,
        s.len() + 8 < usize::MAX,
    ensures
        spans_ordered(xml_analysis(s)->Some_0, 0, s.len() as int),
{
    lemma_xml_frame(s);
    let f = xml_frame(s)->Some_0;
    lemma_xml_attrs(s, f.3, f.2);
    let attrs0 = xml_attrs(s, f.3, f.2)->Some_0;
    lemma_last_unseparated(attrs0, f.2, f.3);
    let attrs = last_unseparated(attrs0);
    assert forall|i: int| 0 <= i < attrs.len() implies #[trigger] attrs[i].begin < f.3 by {
        assert(attrs[i].begin == attrs0[i].begin);
    }
    let head = seq![Column { begin: f.0 as usize, end: f.2 as usize, sep: Some(' ') }];
    let tail = seq![Column { begin: f.3 as usize, end: (f.1 + 1) as usize, sep: None }];
    lemma_ordered_concat(head, attrs, 0, f.2, f.3);
    assert forall|i: int| 0 <= i < (head + attrs).len() implies #[trigger] (head + attrs)[i].begin < f.3 by {
        if i > 0 {
            assert((head + attrs)[i] == attrs[i - 1]);
        }
    }
    lemma_ordered_concat(head + attrs, tail, 0, f.3, s.len() as int);
}

/// The columns an analysis finds lie in order in the line: each within the
/// line, each ending before the next begins, and each beginning after the
/// one before.
pub proof fn lemma_columns_in_order(a: AnyAnalyzer, s: Seq<char>)
    requires
        a.analysis(s) is Some,
        s.len() + 8 < usize::MAX,
    ensures
        spans_ordered(a.analysis(s)->Some_0, 0, s.len() as int),
{
    match a {
        AnyAnalyzer::Sep(t) => lemma_columns_from(t, s, 0),
        AnyAnalyzer::Assignment(_) => lemma_type_var_ordered(s),
        AnyAnalyzer::VarAssignment(_) => lemma_var_points(s),
        AnyAnalyzer::FuncDecl(_) => lemma_func_decl_ordered(s),
        AnyAnalyzer::FuncCall(t) => lemma_func_call_ordered(t.sepa, s),
        AnyAnalyzer::VarDecl(_) => lemma_var_decl_points(s),
        AnyAnalyzer::Xml(_) => lemma_xml_ordered(s),
        AnyAnalyzer::BitField(_) => lemma_bit_field_ordered(s),
        AnyAnalyzer::CommentStruct(t) => lemma_cmnt_struct_ordered(t.sepa, s),
    }
}

} // verus!
