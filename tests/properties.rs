use column_align::analyzers::assignment::TypeVarAnalyzer;
use column_align::analyzers::assignment::VarAnalyzer;
use column_align::analyzers::func_decl::Analyzer as FuncDeclAnalyzer;
use column_align::analyzers::var_decl::Analyzer as VarDeclAnalyzer;
use column_align::analyzers::bit_field::Analyzer as BitFieldAnalyzer;
use column_align::analyzers::separators::Analyzer as SepAnalyzer;
use column_align::analyzers::separators::BoundType;
use column_align::analyzers::separators::Boundary;
use column_align::analyzers::xml_attr::Analyzer as XmlAnalyzer;
use column_align::analyzers::LineAnalyzer;
use column_align::auto_config::auto_analyze;
use column_align::auto_config::do_auto_config;
use column_align::auto_config::AutoMode;
use column_align::column_tools::process;
use column_align::column_tools::write_lines_into;
use column_align::column_tools::Align;
use column_align::column_tools::Column;
use column_align::column_tools::Formatter;
use column_align::column_tools::LineDescr;
use column_align::column_tools::Printer;
use column_align::column_tools::SeparatorConfig;

fn field(l: &LineDescr, c: &Column) -> String {
    l.s[c.begin..c.end].iter().collect()
}

fn fields_and_seps(l: &LineDescr) -> Vec<(String, Option<char>)> {
    l.columns.iter().map(|c| (field(l, c), c.sep)).collect()
}

fn texts(v: &[&str]) -> Vec<String> {
    v.iter().map(|s| s.to_string()).collect()
}

#[test]
fn bit_field_example_columns() {
    let mut a = BitFieldAnalyzer {};
    let mut fmt = Formatter::new();
    let mut l = LineDescr::new("uint64_t verylongbi : 4; //and here's a comment");
    fmt.analyze_line(&mut a, &mut l);
    assert_eq!(
        fields_and_seps(&l),
        vec![
            ("uint64_t".to_string(), Some(' ')),
            ("verylongbi".to_string(), Some(':')),
            ("4;".to_string(), Some(' ')),
            ("//and here's a comment".to_string(), None),
        ]
    );
    assert_eq!(fmt.columns, vec![8, 10, 2, 22]);
}

#[test]
fn bit_field_batch_pads_short_lines() {
    let mut cfg = do_auto_config(AutoMode::BitField);
    let out = process(
        &texts(&["uint64_t verylongbi : 4; //and here's a comment", "uint64_t b : 15;"]),
        &mut cfg.analyzer,
        cfg.formatter,
        cfg.printer,
    );
    assert_eq!(out[0], "uint64_t verylongbi : 4;  //and here's a comment");
    assert_eq!(out[1], "uint64_t b          : 15;");
}

#[test]
fn comma_mode_pads_first_column() {
    let mut cfg = do_auto_config(AutoMode::SimpleComma);
    let out = process(&texts(&["some weird, data", "in, columns"]), &mut cfg.analyzer, cfg.formatter, cfg.printer);
    assert_eq!(out, vec!["some weird, data   ".to_string(), "in        , columns".to_string()]);
}

#[test]
fn xml_attribute_columns() {
    let mut a = XmlAnalyzer {};
    let mut fmt = Formatter::new();
    let mut l = LineDescr::new(r#"<a b="1" c="22"/>"#);
    fmt.analyze_line(&mut a, &mut l);
    assert_eq!(
        fields_and_seps(&l),
        vec![
            ("<a".to_string(), Some(' ')),
            ("b".to_string(), Some('=')),
            ("\"1\"".to_string(), Some(' ')),
            ("c".to_string(), Some('=')),
            ("\"22\"".to_string(), None),
            ("/>".to_string(), None),
        ]
    );
}

#[test]
fn xml_accepts_only_what_it_recognizes() {
    let mut a = XmlAnalyzer {};
    for line in ["<a>", "</sometag>", "<a b c>", "<a b=\"1>"] {
        let v: Vec<char> = line.chars().collect();
        assert!(a.can_accept(&v).is_err());
        let mut fmt = Formatter::new();
        let mut l = LineDescr::new(line);
        assert!(a.analyze_line(&mut fmt, &mut l).is_err());
        assert!(l.columns.is_empty());
    }
    let v: Vec<char> = "<a b=\"1\">".chars().collect();
    assert!(a.can_accept(&v).is_ok());
}

#[test]
fn tracker_accepts_lines_with_text() {
    let mut a = SepAnalyzer::new();
    a.set_separators(vec![' ']);
    let empty: Vec<char> = Vec::new();
    assert!(a.can_accept(&empty).is_err());
    let blank: Vec<char> = "   ".chars().collect();
    assert!(a.can_accept(&blank).is_ok());
    let mut fmt = Formatter::new();
    let mut l = LineDescr::new("   ");
    assert!(a.analyze_line(&mut fmt, &mut l).is_ok());
    assert_eq!(l.columns.len(), 1);
}

#[test]
fn separator_sets_are_sorted() {
    let mut a = SepAnalyzer::new();
    a.set_separators(vec!['}', ',', '}', ' ']);
    assert_eq!(a.seps, vec![' ', ',', '}']);
    a.set_new_column_separators(vec![',', ' ']);
    assert_eq!(a.seps_new_column, vec![' ', ',']);
}

#[test]
fn ignored_lines_get_no_columns() {
    let mut cfg = do_auto_config(AutoMode::CommentWithStruct);
    let mut l = LineDescr::new("// /*x*/ {a}");
    cfg.formatter.analyze_line(&mut cfg.analyzer, &mut l);
    assert!(l.columns.is_empty());
    assert!(cfg.formatter.columns.is_empty());

    let mut a = SepAnalyzer::new();
    a.set_separators(vec![' ']);
    a.set_new_column_separators(vec![',']);
    let mut fmt = Formatter::new();
    fmt.set_line_starts_to_ignore(vec!["//".to_string()]);
    let mut l = LineDescr::new("  //x");
    fmt.analyze_line(&mut a, &mut l);
    assert!(l.columns.is_empty());
    assert!(fmt.columns.is_empty());
}

#[test]
fn fields_start_at_their_first_character() {
    let mut fmt = Formatter::new();
    let mut l = LineDescr::new("MyClass = 12;");
    fmt.analyze_line(&mut VarAnalyzer {}, &mut l);
    assert_eq!(fields_and_seps(&l), vec![("MyClass".to_string(), Some('=')), ("12;".to_string(), None)]);

    let mut fmt = Formatter::new();
    let mut l = LineDescr::new("int some_func(int);");
    fmt.analyze_line(&mut FuncDeclAnalyzer {}, &mut l);
    assert_eq!(
        fields_and_seps(&l),
        vec![("int".to_string(), Some(' ')), ("some_func".to_string(), None), ("(int);".to_string(), None)]
    );

    let mut fmt = Formatter::new();
    let mut l = LineDescr::new("int verylongbi; //and here's a comment");
    fmt.analyze_line(&mut VarDeclAnalyzer {}, &mut l);
    assert_eq!(fields_and_seps(&l), vec![("int".to_string(), Some(' ')), ("verylongbi".to_string(), Some(';'))]);
}

#[test]
fn accepted_line_is_analyzed() {
    let mut a = TypeVarAnalyzer {};
    let line = "int x = 5;";
    let v: Vec<char> = line.chars().collect();
    assert!(a.can_accept(&v).is_ok());
    let mut fmt = Formatter::new();
    let mut l = LineDescr::new(line);
    assert!(a.analyze_line(&mut fmt, &mut l).is_ok());
    assert_eq!(
        fields_and_seps(&l),
        vec![("int".to_string(), Some(' ')), ("x".to_string(), Some('=')), ("5;".to_string(), None)]
    );
}

#[test]
fn rejected_assignment_is_an_error() {
    let a = TypeVarAnalyzer {};
    let v: Vec<char> = "no equals here".chars().collect();
    assert!(a.can_accept(&v).is_err());
    let v: Vec<char> = "x =".chars().collect();
    assert!(a.can_accept(&v).is_err());
}

#[test]
fn tracker_spans_are_ordered_and_followed_by_their_separator() {
    let mut a = SepAnalyzer::new();
    a.set_separators(vec![',']);
    a.set_new_column_separators(vec![',', ' ']);
    let mut fmt = Formatter::new();
    let mut l = LineDescr::new("a, bb,ccc");
    fmt.analyze_line(&mut a, &mut l);
    assert_eq!(
        fields_and_seps(&l),
        vec![("a".to_string(), Some(',')), ("bb".to_string(), Some(',')), ("ccc".to_string(), None)]
    );
    for w in l.columns.windows(2) {
        assert!(w[0].end < w[1].begin);
    }
    for c in l.columns.iter() {
        if let Some(s) = c.sep {
            assert_eq!(l.s[c.end], s);
        }
    }
}

#[test]
fn measuring_twice_keeps_widths() {
    let mut cfg = do_auto_config(AutoMode::SimpleSpace);
    let batch = texts(&["a bb ccc", "dddd e"]);
    let mut fmt = cfg.formatter;
    fmt.analyze_lines(&mut cfg.analyzer, &batch);
    let once = fmt.columns.clone();
    fmt.analyze_lines(&mut cfg.analyzer, &batch);
    assert_eq!(fmt.columns, once);
    assert_eq!(once, vec![0, 4, 2, 3]);
}

#[test]
fn rendering_then_stripping_gives_fields_back() {
    let mut cfg = do_auto_config(AutoMode::SimpleSpace);
    let batch = texts(&["alpha b c", "x yyyy zz"]);
    let out = process(&batch, &mut cfg.analyzer, cfg.formatter, cfg.printer);
    assert_eq!(out, vec!["alpha b    c ".to_string(), "x     yyyy zz".to_string()]);
    for (line, rendered) in batch.iter().zip(out.iter()) {
        let fields: Vec<&str> = line.split(' ').collect();
        let back: Vec<&str> = rendered.split(' ').filter(|f| !f.is_empty()).collect();
        assert_eq!(fields, back);
    }
}

#[test]
fn boundary_reset_restores_depth() {
    let mut b = Boundary::new_asym('(', ')', 1);
    b.check('(');
    b.check('(');
    assert_eq!(b.lim, -1);
    b.reset();
    assert_eq!(b.lim, 1);
    let mut q = Boundary::new_sym('"', 1);
    assert_eq!(q.check('"'), (true, true));
    assert_eq!(q.lim, 0);
    assert_eq!(q.check('"'), (true, true));
    assert_eq!(q.lim, 1);
    q.check('"');
    q.reset();
    assert_eq!(q.lim, q.lim_orig);
}

#[test]
fn boundary_saturates_instead_of_overflowing() {
    let mut b = Boundary::new_asym('(', ')', i16::MIN);
    assert_eq!(b.check('('), (true, true));
    assert_eq!(b.lim, i16::MIN);
}

#[test]
fn empty_and_ignored_lines_pass_through() {
    let mut cfg = do_auto_config(AutoMode::CLike(Some('{'), Some('}')));
    let out = process(
        &texts(&["{a, b},", "", "  // {x, y},", "{ccc, d},"]),
        &mut cfg.analyzer,
        cfg.formatter,
        cfg.printer,
    );
    assert_eq!(out[1], "");
    assert_eq!(out[2], "  // {x, y},");
    assert_eq!(out[0], "{a  , b},");
    assert_eq!(out[3], "{ccc, d},");
}

#[test]
fn explicit_join_replaces_separators() {
    let mut a = SepAnalyzer::new();
    a.set_separators(vec![' ']);
    let printer = Printer::new(Align::Right, '.', 1, " | ".to_string(), false);
    let out = process(&texts(&["a bb", "ccc d"]), &mut a, Formatter::new(), printer);
    assert_eq!(out, vec!["...a | .bb".to_string(), ".ccc | ..d".to_string()]);
}

#[test]
fn center_alignment_puts_odd_fill_after() {
    let mut a = SepAnalyzer::new();
    a.set_separators(vec![' ']);
    let printer = Printer::new(Align::Center, '*', 0, String::new(), false);
    let out = process(&texts(&["a x", "abcd y"]), &mut a, Formatter::new(), printer);
    assert_eq!(out, vec!["*a** x".to_string(), "abcd y".to_string()]);
}

#[test]
fn separator_config_parses() {
    let c = SeparatorConfig::from_str("=: :2:center").unwrap();
    assert_eq!((c.sep, c.fill, c.count, c.align), ('=', ' ', 2, Align::Center));
    assert_eq!(c.sep_str, " = ");
    let c = SeparatorConfig::from_str(",").unwrap();
    assert_eq!((c.sep, c.fill, c.count, c.align), (',', ' ', 1, Align::Left));
    assert_eq!(c.sep_str, ", ");
    let c = SeparatorConfig::from_str("/:-:+3:RIGHT").unwrap();
    assert_eq!(c.sep_str, "---/");
    assert!(SeparatorConfig::from_str(":-:3").is_err());
}

#[test]
fn separator_config_errors() {
    assert!(SeparatorConfig::from_str("ab").is_err());
    assert!(SeparatorConfig::from_str("").is_err());
    assert!(SeparatorConfig::from_str("=: :300").is_err());
    assert!(SeparatorConfig::from_str("=: :2:middle").is_err());
    assert!(SeparatorConfig::from_str("=::2").is_err());
    assert!(SeparatorConfig::from_str("é").is_err());
}

#[test]
fn align_names_in_any_case() {
    assert_eq!(Align::from_str("LEFT"), Ok(Align::Left));
    assert_eq!(Align::from_str("Center"), Ok(Align::Center));
    assert_eq!(Align::from_str("right"), Ok(Align::Right));
    assert!(Align::from_str("middle").is_err());
    assert_eq!(Align::from_lowercase("left"), Ok(Align::Left));
    assert!(Align::from_lowercase("LEFT").is_err());
}

#[test]
fn boundary_parses() {
    let b = Boundary::from_str("1\"").unwrap();
    assert_eq!((b.open, b.close, b.lim, b.lim_orig), ('"', None, 1, 1));
    let b = Boundary::from_str("12{}").unwrap();
    assert_eq!((b.open, b.close, b.lim, b.lim_orig), ('{', Some('}'), 12, 12));
    assert!(Boundary::from_str("12").is_err());
    assert!(Boundary::from_str("{}").is_err());
    assert!(Boundary::from_str("40000(").is_err());
    assert_eq!(BoundType::from_str("include"), Ok(BoundType::Include));
    assert_eq!(BoundType::from_str("exclude"), Ok(BoundType::Exclude));
    assert!(BoundType::from_str("other").is_err());
}

#[test]
fn tracker_options() {
    let mut a = SepAnalyzer::new();
    let args = texts(&["prog", "--seps", ";,", "--include", "1()", "--exclude", "1\"", "--new_column_seps"]);
    assert!(a.parse_args(&args).is_ok());
    assert_eq!(a.seps, vec![',', ';']);
    assert!(a.seps_new_column.is_empty());
    assert_eq!(a.includes.len(), 1);
    assert_eq!(a.excludes.len(), 1);
    assert_eq!(a.includes[0].close, Some(')'));
    let mut d = SepAnalyzer::new();
    assert!(d.parse_args(&texts(&["prog"])).is_ok());
    assert_eq!(d.seps, vec![' ']);
    let mut e = SepAnalyzer::new();
    assert!(e.parse_args(&texts(&["--exclude", "bad"])).is_err());
}

#[test]
fn formatter_options() {
    let mut f = Formatter::new();
    assert!(f.parse_args(&texts(&["--prestart", "--line_start_to_ignore", "#"])).is_ok());
    assert!(f.add_pre_start);
    assert_eq!(f.line_starts_to_ignore, vec![vec!['#']]);
    let v: Vec<char> = "  # x".chars().collect();
    assert!(f.check_line_start_to_ignore(&v, 2));
    assert!(!f.check_line_start_to_ignore(&v, 0));
}

#[test]
fn printer_options() {
    let mut p = Printer::default();
    let args = texts(&["--align", "right", "--fill", "_", "--fill_count", "3", "--join", ";", "--non_matched_as_is", "--sep_config", "=: :1"]);
    assert!(p.parse_args(&args).is_ok());
    assert_eq!(p.align, Align::Right);
    assert_eq!(p.fill, '_');
    assert_eq!(p.fill_count, 3);
    assert_eq!(p.join, ";");
    assert!(p.non_matched_as_is);
    assert_eq!(p.sep_joins.len(), 1);
    for bad in [["--fill", ""], ["--sep_config", "ab"], ["--align", "middle"], ["--fill_count", "x"]] {
        let mut q = Printer::default();
        assert!(q.parse_args(&texts(&bad)).is_err());
    }
}

#[test]
fn write_lines_joins_with_line_feeds() {
    let mut a = SepAnalyzer::new();
    a.set_separators(vec![' ']);
    let mut fmt = Formatter::new();
    let mut lines = Vec::new();
    for t in ["a b", "ccc d"] {
        let mut l = LineDescr::new(t);
        fmt.analyze_line(&mut a, &mut l);
        lines.push(l);
    }
    fmt.finish();
    assert_eq!(fmt.total_size, 4);
    let mut p = Printer::new(Align::Left, ' ', 0, String::new(), false);
    p.set_formatter(fmt);
    let mut out = String::from(">");
    write_lines_into(&lines, &p, &mut out);
    assert_eq!(out, ">a   b\nccc d");
}

#[test]
fn bit_field_width_must_be_a_number() {
    let a = BitFieldAnalyzer {};
    let ok: Vec<char> = "int a : +4;".chars().collect();
    assert!(a.can_accept(&ok).is_ok());
    let bad: Vec<char> = "int a : 4x;".chars().collect();
    assert!(a.can_accept(&bad).is_err());
    let big: Vec<char> = "int a : 4294967296;".chars().collect();
    assert!(a.can_accept(&big).is_err());
}

#[test]
fn auto_detect_brackets_and_comment_struct() {
    assert_eq!(auto_analyze("  (a, b)"), AutoMode::CLike(Some('('), Some(')')));
    assert_eq!(auto_analyze(""), AutoMode::SimpleSpace);
    assert_eq!(auto_analyze("/**/ {a}"), AutoMode::CommentWithStruct);
    assert_eq!(auto_analyze("/*/ {a}"), AutoMode::SimpleSpace);
}

#[test]
fn sub_scanner_leaves_ignored_text_alone() {
    let mut a = SepAnalyzer::new();
    a.set_separators(vec![' ']);
    let mut fmt = Formatter::new();
    fmt.set_line_starts_to_ignore(vec!["//".to_string()]);
    let mut l = LineDescr::new("ab  //x y");
    assert!(a.analyze_substr(&mut fmt, 2, &mut l).is_ok());
    assert!(l.columns.is_empty());
    assert!(fmt.columns.is_empty());
    let mut l = LineDescr::new("ab  x y");
    assert!(a.analyze_substr(&mut fmt, 2, &mut l).is_ok());
    assert_eq!(fields_and_seps(&l), vec![("x".to_string(), Some(' ')), ("y".to_string(), None)]);
}

#[test]
fn empty_comment_has_no_text_column() {
    let mut cfg = do_auto_config(AutoMode::CommentWithStruct);
    let mut fmt = Formatter::new();
    let mut l = LineDescr::new("/**/ {a, b}");
    fmt.analyze_line(&mut cfg.analyzer, &mut l);
    let got = fields_and_seps(&l);
    assert_eq!(got[0], ("/*".to_string(), None));
    assert_eq!(got[1], ("*/".to_string(), Some(' ')));
    for w in l.columns.windows(2) {
        assert!(w[0].begin < w[1].begin && w[0].end <= w[1].begin);
    }
}
