use column_align::analyzers::LineAnalyzer;
use column_align::auto_config::do_auto_config;
use column_align::auto_config::AnyAnalyzer;
use column_align::auto_config::AutoMode;
use column_align::column_tools::write_lines_into;
use column_align::column_tools::Formatter;
use column_align::column_tools::LineDescr;
use column_align::column_tools::Printer;

fn run_analyzer(in_s: &str, la: &mut AnyAnalyzer, fmtr: Formatter, printer: Printer) -> String {
    let mut fmtr = fmtr;
    let mut printer = printer;
    let lines_str: Vec<String> = in_s.lines().map(|x| x.to_string()).collect();
    let mut lines: Vec<LineDescr> = Vec::new();
    for l in lines_str.iter() {
        let mut line = LineDescr::new(l);
        fmtr.analyze_line(la, &mut line);
        lines.push(line);
    }
    fmtr.finish();
    printer.set_formatter(fmtr);
    let mut out = String::new();
    write_lines_into(&lines, &printer, &mut out);
    out
}

fn cmp_str(result: &str, expected: &str) -> isize {
    let mut res_chars = result.chars();
    let mut exp_chars = expected.chars();
    let mut idx: isize = 0;
    loop {
        let rc = res_chars.next();
        let ec = exp_chars.next();
        if rc.is_some() != ec.is_some() {
            break;
        }
        if rc.is_none() {
            idx = -1;
            break;
        }
        if rc.unwrap() != ec.unwrap() {
            break;
        }
        idx += 1;
    }
    idx
}

fn assert_lines_eq(result: &str, expected: &str) {
    assert_eq!(result.lines().count(), expected.lines().count());
    for (line_idx, (res, exp)) in result.lines().zip(expected.lines()).enumerate() {
        let d = cmp_str(res, exp);
        assert!(d == -1, "Diff at line {0}.\nResult:\n{1}|\nExpected:\n{2}|", line_idx, res, exp);
    }
}

#[test]
fn test_var_decl_assign() {
    let mut cfg = do_auto_config(AutoMode::SimpleAssignment);

    let in_str = r##"
   MyClass x = 12;
    int x = 155;
   SomwOtherl vay = SomwOtherl(x);
      const char * x = "xxxxx";
   std::span<int,3> s = 2;
    "##;

    let out_str = r##"
      MyClass          x   = 12;           
      int              x   = 155;          
      SomwOtherl       vay = SomwOtherl(x);
      const char *     x   = "xxxxx";      
      std::span<int,3> s   = 2;            
    "##;

    let result = run_analyzer(in_str, &mut cfg.analyzer, cfg.formatter, cfg.printer);
    assert_lines_eq(&result, out_str);
}

#[test]
fn test_var_assign() {
    let mut cfg = do_auto_config(AutoMode::SimpleVarAssignment);

    let in_str = r##"
MyClass = 12;
int = 155;
SomwOtherl = SomwOtherl(x);
char = "xxxxx";
s = 2;
    "##;

    let out_str = r##"
MyClass    = 12;           
int        = 155;          
SomwOtherl = SomwOtherl(x);
char       = "xxxxx";      
s          = 2;            
    "##;

    let result = run_analyzer(in_str, &mut cfg.analyzer, cfg.formatter, cfg.printer);
    assert_lines_eq(&result, out_str);
}

#[test]
fn test_bit_field() {
    let mut cfg = do_auto_config(AutoMode::BitField);

    let in_str = r##"
    uint64_t somebit : 1;
    uint64_t verylongbi : 4; //and here's a comment
    uint64_t sho : 15;
    uint64_t b : 2;//some other comments
    uint64_t and_another : 10;"##;

    let out_str = r##"
    uint64_t somebit     : 1; 
    uint64_t verylongbi  : 4;  //and here's a comment
    uint64_t sho         : 15;
    uint64_t b           : 2;  //some other comments 
    uint64_t and_another : 10;"##;

    let result = run_analyzer(in_str, &mut cfg.analyzer, cfg.formatter, cfg.printer);
    assert_eq!(result, out_str);
}

#[test]
fn test_cmnt_structs_test() {
    let mut cfg = do_auto_config(AutoMode::CommentWithStruct);

    let in_str = r##"
/* some hint */    {"SomeApi::Func1", &SomeApi::Func1, "{int b[, int : a]}", "result: boolean"},
/* bla */   {"SomeOtherApi::CoolMethod", &SomeOtherApi::CoolMyMethod, "string : nu, int : bla[, {x : all}]", "nothing"},
/* some other longer */  {"JustApi::Boring", &JustApi::Boring, "", "nothing"},
/* empty */ {"OneMore::WhoNeedsThis", &OneMore::WhoNeedsThis, "nothing", ""},
    "##;

    let out_str = r##"
/* some hint         */ {"SomeApi::Func1"          , &SomeApi::Func1            , "{int b[, int : a]}"                 , "result: boolean"},
/* bla               */ {"SomeOtherApi::CoolMethod", &SomeOtherApi::CoolMyMethod, "string : nu, int : bla[, {x : all}]", "nothing"        },
/* some other longer */ {"JustApi::Boring"         , &JustApi::Boring           , ""                                   , "nothing"        },
/* empty             */ {"OneMore::WhoNeedsThis"   , &OneMore::WhoNeedsThis     , "nothing"                            , ""               },
    "##;

    let result = run_analyzer(in_str, &mut cfg.analyzer, cfg.formatter, cfg.printer);
    assert_eq!(result, out_str);
}

#[test]
fn test_func_call_test() {
    let mut cfg = do_auto_config(AutoMode::FnCall);

    let in_str = r##"
some_func(int, float);
Class::Method(char a, SomeStruct{23, 45.5, 22});//other comment
yet_another_func(int, int);//some comment"##;

    let out_str = r##"
some_func       (int   , float                   );               
Class::Method   (char a, SomeStruct{23, 45.5, 22});//other comment
yet_another_func(int   , int                     );//some comment "##;

    let result = run_analyzer(in_str, &mut cfg.analyzer, cfg.formatter, cfg.printer);
    assert_lines_eq(&result, out_str);
}

#[test]
fn test_func_decl_test() {
    let mut cfg = do_auto_config(AutoMode::FnDecl);

    let in_str = r##"
int  some_func(int, float);
char Class::Method(char a, SomeStruct B);

ComplexReturn Class2::AnotherMethod();
int yet_another_func(int, int, int, int, int);
    "##;

    let out_str = r##"
int           some_func            (int, float);             
char          Class::Method        (char a, SomeStruct B);   

ComplexReturn Class2::AnotherMethod();                       
int           yet_another_func     (int, int, int, int, int);
    "##;

    let result = run_analyzer(in_str, &mut cfg.analyzer, cfg.formatter, cfg.printer);
    assert_eq!(result, out_str);
}

#[test]
fn test_space() {
    let mut cfg = do_auto_config(AutoMode::SimpleSpace);

    let in_str = r##"
some weird data
in columns
try to format it correctly
    "##;

    let out_str = r##"
some weird   data  
in   columns
try  to      format it correctly
    "##;

    let result = run_analyzer(in_str, &mut cfg.analyzer, cfg.formatter, cfg.printer);
    assert_eq!(result, out_str);
}

#[test]
fn test_comma() {
    let mut cfg = do_auto_config(AutoMode::SimpleComma);

    let in_str = r##"
some weird, data
in, columns
try to, format it, correctly"##;

    let out_str = r##"
some weird, data     
in        , columns  
try to    , format it, correctly"##;

    let result = run_analyzer(in_str, &mut cfg.analyzer, cfg.formatter, cfg.printer);
    assert_eq!(result, out_str);
}

#[test]
fn test_struct() {
    let mut cfg = do_auto_config(AutoMode::CLike(Some('{'), Some('}')));

    let in_str = r##"
    {"SomeApi::Func1", &SomeApi::Func1, "{int b[, int : a]}", "result: boolean"},
   {"SomeOtherApi::CoolMethod", &SomeOtherApi::CoolMyMethod, "string : nu, int : bla[, {x : all}]", "nothing"},
  {"JustApi::Boring", &JustApi::Boring, "", "nothing"},
 {"OneMore::WhoNeedsThis", &OneMore::WhoNeedsThis, "nothing", ""},
"##;

    let out_str = r##"
    {"SomeApi::Func1"          , &SomeApi::Func1            , "{int b[, int : a]}"                 , "result: boolean"},
    {"SomeOtherApi::CoolMethod", &SomeOtherApi::CoolMyMethod, "string : nu, int : bla[, {x : all}]", "nothing"        },
    {"JustApi::Boring"         , &JustApi::Boring           , ""                                   , "nothing"        },
    {"OneMore::WhoNeedsThis"   , &OneMore::WhoNeedsThis     , "nothing"                            , ""               },"##;

    let result = run_analyzer(in_str, &mut cfg.analyzer, cfg.formatter, cfg.printer);
    assert_eq!(result, out_str);
}

#[test]
fn test_var_decl() {
    let mut cfg = do_auto_config(AutoMode::VarDecl);

    let in_str = r##"
    uint64_t somebit;
    int verylongbi; //and here's a comment
    char sho;
    double b;//some other comments
    SomeTemplate<bla> and_another;
    "##;

    let out_str = r##"
    uint64_t          somebit    ;
    int               verylongbi ;
    char              sho        ;
    double            b          ;
    SomeTemplate<bla> and_another;
    "##;

    let result = run_analyzer(in_str, &mut cfg.analyzer, cfg.formatter, cfg.printer);
    assert_lines_eq(&result, out_str);
}

#[test]
fn test_xml_test() {
    let mut cfg = do_auto_config(AutoMode::Xml);

    let in_str = r##"
<sometag prop1="val1" someotherprop = "some other name" and_some="thing completely different">
</sometag>
<someothertag gggprop1="ddval1" some= "some name" and=" different"/>
<someortag gddddggprop1="ddval1" some= "dd some name" and=" different"/>
<sosdmeothertag gggprop1="ddvaeekdljkwl1" some= "skjldksome name" andeee=" different"/>
    "##;

    let out_str = r##"
<sometag        prop1       ="val1"           someotherprop="some other name" and_some="thing completely different"> 
</sometag>
<someothertag   gggprop1    ="ddval1"         some         ="some name"       and     =" different"                />
<someortag      gddddggprop1="ddval1"         some         ="dd some name"    and     =" different"                />
<sosdmeothertag gggprop1    ="ddvaeekdljkwl1" some         ="skjldksome name" andeee  =" different"                />
    "##;

    let result = run_analyzer(in_str, &mut cfg.analyzer, cfg.formatter, cfg.printer);
    assert_eq!(result, out_str);
}
