use sf_afmt::args::{Args, Mode};
use sf_afmt::doc::pretty_print as print_doc;
use sf_afmt::doc_builder::DocBuilder;
use sf_afmt::fmt_push::{FmtPush, Pushable};
use sf_afmt::formatter::{FormatFileError, FormattedFile, Formatter};
use sf_afmt::notation::NBuilder;
use sf_afmt::print::pretty_print;
use sf_afmt::shape::{Indent, Shape};
use sf_afmt::source_formatter::{try_format_source, try_format_source_with_origin, Config};

const YELLOW: &str = "\x1b[33m";
const RESET: &str = "\x1b[0m";

#[test]
fn notation_choice_takes_first_variant_when_it_fits() {
    let b = NBuilder::new();
    let one_line = b.concat(vec![b.txt("foo("), b.txt("x"), b.txt(")")]);
    let broken = b.concat(vec![b.txt("foo("), b.indent(2, b.concat(vec![b.nl(), b.txt("x")])), b.nl(), b.txt(")")]);
    let n = b.choice(one_line, broken);
    assert_eq!(pretty_print(n, 80), "foo(x)");
    assert_eq!(pretty_print(n, 5), "foo(\n  x\n)");
}

#[test]
fn notation_zero_width_fits_only_empty_texts() {
    let b = NBuilder::new();
    let n = b.choice(b.txt("ab"), b.txt("c"));
    assert_eq!(pretty_print(n, 0), "c");
    let e = b.choice(b.txt(""), b.txt("c"));
    assert_eq!(pretty_print(e, 0), "");
}

#[test]
fn notation_flat_keeps_first_variants() {
    let b = NBuilder::new();
    let inner = b.choice(b.txt("long text"), b.txt("x"));
    let n = b.flat(inner);
    assert_eq!(pretty_print(n, 3), "long text");
}

#[test]
fn notation_newline_writes_indentation_and_text_width_is_bytes() {
    let b = NBuilder::new();
    let n = b.indent(3, b.concat(vec![b.txt("é"), b.nl(), b.txt("z")]));
    assert_eq!(pretty_print(n, 10), "é\n   z");
    // "é" takes two bytes, so a width of one is exceeded and the second variant is taken
    let c = b.choice(b.txt("é"), b.txt("e"));
    assert_eq!(pretty_print(c, 1), "e");
}

#[test]
fn fmt_push_moves_the_offset_by_the_pushed_width() {
    let mut out = String::from("ab");
    let mut shape = Shape::empty();
    out.fmt_push("cd", &mut shape);
    assert_eq!(shape.offset, 2);
    out.fmt_push('é', &mut shape);
    assert_eq!(shape.offset, 3);
    let tail = String::from("éé");
    out.fmt_push(&tail, &mut shape);
    assert_eq!(shape.offset, 7);
    assert_eq!(out, "abcdééé");
    assert_eq!(shape.indent.block_indent, 0);
    let mut s = String::new();
    assert_eq!("xyz".push_to_string(&mut s), 3);
    assert_eq!(s, "xyz");
}

#[test]
fn shape_and_indent_helpers() {
    let config = sf_afmt::config::Config::default();
    let shape = Shape::empty().clone_with_indent_increase().clone_with_indent_increase();
    assert_eq!(shape.indent_len(&config), 4);
    assert_eq!(Indent::new(3).as_string(&config), "      ");
    assert!(Shape::empty().single_line_only(true).single_line_only);
    assert!(!Shape::empty().standalone(false).standalone);
    assert!(!Shape::empty().clone_with_standalone(false).standalone);
    assert_eq!(Indent::default().copy_with_increased_block_indent().block_indent, 1);
}

#[test]
fn config_from_parsed_reports_each_failure() {
    let ok = Config::from_parsed(Ok(Config::default())).unwrap();
    assert_eq!(ok.max_width, 80);
    assert_eq!(
        Config::from_parsed(Err(String::from("bad key"))).unwrap_err(),
        "Failed to parse config file: bad key"
    );
    assert_eq!(
        Config::from_parsed(Ok(Config { indent_size: 0, ..Config::default() })).unwrap_err(),
        "Invalid formatter configuration: indent_size must be at least 1"
    );
    assert_eq!(
        Config::from_parsed(Ok(Config { indent_size: 257, ..Config::default() })).unwrap_err(),
        "Invalid formatter configuration: indent_size must be at most 256"
    );
    assert!(Config::from_parsed(Ok(Config { indent_size: 256, ..Config::default() })).is_ok());
}

#[test]
fn format_file_error_leads_with_the_path_once() {
    let e = FormatFileError { path: String::from("a.cls"), message: String::from("boom") };
    assert_eq!(e.to_string(), "a.cls: boom");
    let located = FormatFileError { path: String::from("a.cls"), message: String::from("a.cls:3:4: parse error") };
    assert_eq!(located.to_string(), "a.cls:3:4: parse error");
    let read = FormatFileError::read_failed("b.cls", "no such file");
    assert_eq!(read.path, "b.cls");
    assert_eq!(read.message, format!("Failed to read file: {}no such file{}", YELLOW, RESET));
}

#[test]
fn formatter_configuration_comes_from_the_loaded_file_or_defaults() {
    let f = Formatter::create_from_config(None, Err(String::from("ignored")), vec![String::from("x.cls")]).unwrap();
    assert_eq!(f.config().max_width, 80);
    assert_eq!(f.source_files, vec![String::from("x.cls")]);
    let loaded = Config { max_width: 100, ..Config::default() };
    let g = Formatter::create_from_config(Some("c.toml"), Ok(loaded), vec![]).unwrap();
    assert_eq!(g.config().max_width, 100);
    let err = Formatter::create_from_config(Some("c.toml"), Err(String::from("bad")), vec![]).err().unwrap();
    assert_eq!(err, format!("{}bad{}: c.toml", YELLOW, RESET));
}

#[test]
fn formatting_contents_reports_changes_and_failures_with_the_path() {
    let formatted = "class A {\n}\n";
    let same = Formatter::try_format_contents("a.cls", formatted, Config::default()).unwrap();
    assert_eq!(same.content, formatted);
    assert!(!same.changed);
    let messy = "class   A{}";
    let changed = Formatter::try_format_contents("a.cls", messy, Config::default()).unwrap();
    assert_eq!(changed.content, formatted);
    assert!(changed.changed);
    let bad = Formatter::try_format_contents("a.cls", formatted, Config { indent_size: 0, ..Config::default() })
        .err()
        .unwrap();
    assert_eq!(bad.path, "a.cls");
    assert_eq!(bad.message, "Invalid formatter configuration: indent_size must be at least 1");
    let broken = Formatter::try_format_contents("b.cls", "class Broken {", Config::default()).err().unwrap();
    assert_eq!(broken.path, "b.cls");
    assert!(broken.message.starts_with("b.cls:"));
    assert!(broken.to_string().starts_with("b.cls:"));
    assert!(!broken.to_string().starts_with("b.cls: b.cls"));
}

#[test]
fn results_keep_order_and_report_errors_as_messages() {
    let outcomes = vec![
        Ok(FormattedFile { content: String::from("one"), changed: false }),
        Err(FormatFileError { path: String::from("p.cls"), message: String::from("bad") }),
        Ok(FormattedFile { content: String::from("three"), changed: true }),
    ];
    let r = Formatter::results(outcomes);
    assert_eq!(r, vec![Ok(String::from("one")), Err(String::from("p.cls: bad")), Ok(String::from("three"))]);
}

#[test]
fn command_line_modes() {
    assert_eq!(Mode::from_flags(true, false), Ok(Mode::Check));
    assert_eq!(Mode::from_flags(false, true), Ok(Mode::Write));
    assert_eq!(Mode::from_flags(false, false), Ok(Mode::Std));
    assert_eq!(Mode::from_flags(true, true).unwrap_err(), "--check cannot be combined with --write");
    let a = Args::new(Mode::Std, vec![String::from("-")], None, false).ok().unwrap();
    assert!(a.reads_stdin());
    let w = Args::new(Mode::Write, vec![String::from("x")], Some(String::from("c.toml")), true).ok().unwrap();
    assert!(!w.reads_stdin());
    assert_eq!(w.paths, vec![String::from("x")]);
    assert_eq!(w.config, Some(String::from("c.toml")));
    assert!(w.time);
    assert_eq!(Args::new(Mode::Std, vec![], None, false).err().unwrap(), "no input path was given");
    assert_eq!(
        Args::new(Mode::Std, vec![String::from("-"), String::from("a.cls")], None, false).err().unwrap(),
        "`-` cannot be combined with another path"
    );
    assert_eq!(
        Args::new(Mode::Check, vec![String::from("-")], None, false).err().unwrap(),
        "`-` cannot be combined with --write or --check"
    );
}

#[test]
fn zero_width_never_breaks_a_long_line() {
    let source = "class T {\n  void m() {\n    callSomethingVeryLong(argumentNumberOne, argumentNumberTwo, argumentNumberThree, argumentNumberFour);\n  }\n}\n";
    let wide = try_format_source(source, Config { max_width: 0, ..Config::default() }).unwrap();
    assert!(wide.contains("callSomethingVeryLong(argumentNumberOne, argumentNumberTwo, argumentNumberThree, argumentNumberFour);"));
    let narrow = try_format_source(source, Config { max_width: 40, ..Config::default() }).unwrap();
    assert!(!narrow.contains("argumentNumberOne, argumentNumberTwo, argumentNumberThree"));
}

#[test]
fn deep_indentation_is_capped() {
    let config = Config { indent_size: 200, ..Config::default() };
    let source = "class T {\n  void m() {\n    if (a) {\n      x();\n    }\n  }\n}\n";
    let out = try_format_source(source, config).unwrap();
    for line in out.lines() {
        let lead = line.len() - line.trim_start().len();
        assert!(lead <= 256, "indentation of {} columns", lead);
    }
    assert!(out.contains(&format!("{}x();", " ".repeat(256))));
}

#[test]
fn javadoc_offset_stars_are_normalized() {
    let source = "class T {\n  /**\n   *    first\n   *\n   */\n  void m() {}\n}\n";
    let out = try_format_source(source, Config::default()).unwrap();
    assert!(out.contains("  /**\n   * first\n   *\n   */\n"), "{}", out);
}

#[test]
fn javadoc_text_on_the_opening_line_moves_to_a_line_of_its_own() {
    let single = "class T {\n  /** Returns one. */\n  void m() {}\n}\n";
    let out = try_format_source(single, Config::default()).unwrap();
    assert!(out.contains("  /**\n   * Returns one.\n   */\n  void m() {"), "{}", out);
    let banner = "class T {\n  /*****\n   * text\n   */\n  void m() {}\n}\n";
    let out = try_format_source(banner, Config::default()).unwrap();
    assert!(out.contains("  /**\n   * **\n   * text\n   */\n"), "{}", out);
    let lead = "class T {\n  /** first\n   * second\n   */\n  void m() {}\n}\n";
    let out = try_format_source(lead, Config::default()).unwrap();
    assert!(out.contains("  /**\n   * first\n   * second\n   */\n"), "{}", out);
}

#[test]
fn soql_queries_stay_on_one_line_when_they_fit_and_break_into_clauses_otherwise() {
    let short = "class T {\n  void m() {\n    List<Account> a = [SELECT Id, Name FROM Account WHERE Name = 'x' LIMIT 10];\n  }\n}\n";
    assert_eq!(try_format_source(short, Config::default()).unwrap(), short);
    let long = "class T {\n  void m() {\n    List<Account> a = [SELECT Id, Name FROM Account WHERE Name = 'x' AND (Id = :y OR Id IN :z) ORDER BY Name DESC LIMIT 10];\n  }\n}\n";
    assert_eq!(
        try_format_source(long, Config::default()).unwrap(),
        "class T {\n  void m() {\n    List<Account> a = [\n      SELECT Id, Name\n      FROM Account\n      WHERE Name = 'x' AND (Id = :y OR Id IN :z)\n      ORDER BY Name DESC\n      LIMIT 10\n    ];\n  }\n}\n"
    );
}

#[test]
fn sosl_queries_are_broken_into_clauses() {
    let source = "class T {\n  void m() {\n    List<List<SObject>> r = [FIND 'abc' IN ALL FIELDS RETURNING Account(Id, Name WHERE Name = 'x' LIMIT 5)];\n  }\n}\n";
    let out = try_format_source(source, Config::default()).unwrap();
    assert!(out.contains("      FIND 'abc'\n      IN ALL FIELDS\n      RETURNING Account(Id, Name WHERE Name = 'x' LIMIT 5)\n"), "{}", out);
}

#[test]
fn parse_errors_carry_the_origin() {
    let err = try_format_source_with_origin("class Broken {", Config::default(), Some("x.cls")).unwrap_err();
    assert!(err.starts_with("x.cls:"), "{}", err);
    assert!(err.contains("Parser encounters an error node in the tree."));
}

#[test]
fn formatted_output_ends_with_a_line_break() {
    for source in ["class A {}", "class A {}\n\n\n", "trigger T on Account (before insert) {}"] {
        let out = try_format_source(source, Config::default()).unwrap();
        assert!(out.ends_with('\n'), "{:?}", out);
    }
}

#[test]
fn long_binary_chains_break_before_operators() {
    let source = "class T {\n  void m() {\n    Boolean b = alphaAlphaAlpha && betaBetaBeta && gammaGammaGamma && deltaDeltaDelta;\n  }\n}\n";
    let out = try_format_source(source, Config { max_width: 40, ..Config::default() }).unwrap();
    assert!(out.contains("\n") && out.contains("&& betaBetaBeta"), "{}", out);
    let wide = try_format_source(source, Config::default()).unwrap();
    assert!(wide.contains("alphaAlphaAlpha && betaBetaBeta && gammaGammaGamma && deltaDeltaDelta;"));
}

#[test]
fn literals_and_date_literals_take_their_canonical_case() {
    let source = "class T {\n  void m() {\n    Boolean b = TRUE;\n    Object o = NULL;\n    List<Account> a = [SELECT Id FROM Account WHERE CreatedDate = last_n_days:3];\n  }\n}\n";
    let out = try_format_source(source, Config::default()).unwrap();
    assert!(out.contains("Boolean b = true;"), "{}", out);
    assert!(out.contains("Object o = null;"), "{}", out);
    assert!(out.contains("LAST_N_DAYS:3"), "{}", out);
}

#[test]
fn a_wider_line_keeps_what_fits_on_one_line() {
    let pc = Config::default().pretty_config();
    let b = DocBuilder::new(pc);
    let one_line = b.concat(vec![b.txt("foo("), b.txt("x"), b.txt(")")]);
    let broken = b.concat(vec![b.txt("foo("), b.indent(b.concat(vec![b.nl(), b.txt("x")])), b.nl(), b.txt(")")]);
    let d = b.choice(one_line, broken);
    assert_eq!(print_doc(d, 6, pc), "foo(x)");
    for width in 6..120 {
        assert_eq!(print_doc(d, width, pc), "foo(x)");
    }
    assert_eq!(print_doc(d, 5, pc), "foo(\n  x\n)");
}

#[test]
fn under_flat_the_width_is_never_consulted() {
    let pc = Config::default().pretty_config();
    let b = DocBuilder::new(pc);
    let one_line = b.concat(vec![b.txt("alpha"), b.softline(), b.txt("beta")]);
    let broken = b.concat(vec![b.txt("alpha"), b.nl(), b.txt("beta")]);
    let d = b.flat(b.choice(one_line, broken));
    for width in [1, 3, 10, 80] {
        assert_eq!(print_doc(d, width, pc), "alpha beta");
    }
}

#[test]
fn dml_statements_keep_operation_mode_and_targets() {
    let source = "class T {\n  void m() {\n    insert as user acc;\n    update acc;\n    merge master duplicate;\n    upsert as system accs Account.Name;\n  }\n}\n";
    let out = try_format_source(source, Config::default()).unwrap();
    assert_eq!(out, source);
}

#[test]
fn nested_blocks_keep_their_statements_in_order() {
    let source = "class T {\n  void m() {\n    {\n      a();\n      b();\n    }\n  }\n}\n";
    let out = try_format_source(source, Config::default()).unwrap();
    assert_eq!(out, source);
}

#[test]
fn plain_declarations_without_comments_always_format() {
    let source = "enum Color { RED, GREEN }\nclass A {}\n";
    let out = try_format_source(source, Config::default()).unwrap();
    assert!(out.contains("enum Color"), "{}", out);
    assert!(out.contains("class A"), "{}", out);
    assert!(out.ends_with('\n'));
}

#[test]
fn statements_nested_in_clauses_keep_their_text() {
    let source = "class T {\n  void m() {\n    if (a) {\n      return x + y;\n    } else {\n      throw e;\n    }\n    for (Integer i = 0; i < n; i++) {\n      i = -i;\n    }\n    while (ok) {\n      break;\n    }\n  }\n}\n";
    let out = try_format_source(source, Config::default()).unwrap();
    assert_eq!(out, source);
}

#[test]
fn declarations_and_calls_keep_names_types_and_values() {
    let source = "class T {\n  Integer count;\n  void m() {\n    Integer x = a + b;\n    String s = label(x, -y);\n    total = x;\n  }\n}\n";
    let out = try_format_source(source, Config::default()).unwrap();
    assert_eq!(out, source);
}

fn node_of_kind(t: &sf_afmt::syntax::SyntaxTree, kind: &str) -> usize {
    t.nodes.iter().position(|n| n.kind == kind).unwrap()
}

#[test]
fn comments_go_before_the_next_code_after_the_last_or_dangle() {
    let t = sf_afmt::syntax::parse_tree("class A {\n  // lead\n  void m() {}\n  // tail\n}\n").unwrap();
    let m = sf_afmt::context::build_comment_map(&t).unwrap();
    let method = node_of_kind(&t, "method_declaration");
    assert_eq!(m.buckets[method].pre_comments.len(), 1);
    assert_eq!(m.buckets[method].pre_comments[0].value, "// lead");
    assert_eq!(m.buckets[method].post_comments.len(), 1);
    assert_eq!(m.buckets[method].post_comments[0].value, "// tail");

    let lone = sf_afmt::syntax::parse_tree("// only a comment\n").unwrap();
    let lm = sf_afmt::context::build_comment_map(&lone).unwrap();
    assert_eq!(lm.buckets[0].dangling_comments.len(), 1);
}

#[test]
fn a_source_of_comments_alone_fails_to_format() {
    let err = try_format_source("// only a comment\n", Config::default()).unwrap_err();
    assert!(err.starts_with("Formatting panicked: comment was not printed: node "), "{}", err);
}

#[test]
fn unexpected_node_messages_name_both_kinds_and_the_source() {
    let t = sf_afmt::syntax::parse_tree("class A {}\n").unwrap();
    let err = sf_afmt::utility::assert_check(&t, 0, "class_declaration").unwrap_err();
    assert_eq!(
        err,
        "## Expected node kind '\x1b[33mclass_declaration\x1b[0m', found '\x1b[31mparser_output\x1b[0m'.\n## Source_code: class A {}\n"
    );
    let u = sf_afmt::utility::panic_unknown_node(&t, 0, "Statement");
    assert_eq!(u, "## unknown node: \x1b[31mparser_output\x1b[0m in Statement\n## Source_code: class A {}\n");
}

#[test]
fn canonical_annotation_names_from_lower_case() {
    assert_eq!(sf_afmt::data_model::canonical_annotation_of_lowercase("istest"), Some("IsTest"));
    assert_eq!(sf_afmt::data_model::canonical_annotation_of_lowercase("auraenabled"), Some("AuraEnabled"));
    assert_eq!(sf_afmt::data_model::canonical_annotation_of_lowercase("IsTest"), None);
    assert_eq!(sf_afmt::data_model::canonical_annotation_of_lowercase("mycustomanno"), None);
}

#[test]
fn classes_with_methods_statements_and_expressions_format() {
    let source = "class T extends B {\n  Integer f = 1;\n  void m(Integer p) {\n    if (a) {\n      x(b[i + 1]);\n    } else {\n      insert acc;\n    }\n    return (p * 2);\n  }\n  class Inner {\n    void n() {}\n  }\n}\n";
    let out = try_format_source(source, Config::default()).unwrap();
    assert_eq!(out, source.replace("void n() {}", "void n() {\n    }"));
}

#[test]
fn loops_creations_and_unary_operators_format() {
    let source = "class T {\n  void m(List<Integer> xs) {\n    for (Integer x : xs) {\n      Foo f = new Foo(-x);\n      System.debug(f.bar);\n    }\n    while (!done) {\n      throw new MyException();\n    }\n  }\n}\n";
    let out = try_format_source(source, Config::default()).unwrap();
    assert_eq!(out, source);
}

#[test]
fn constructors_with_statements_format() {
    let source = "class T {\n  Integer n;\n  T(Integer n) {\n    this.n = n;\n  }\n}\n";
    let out = try_format_source(source, Config::default()).unwrap();
    assert_eq!(out, source);
}

#[test]
fn counting_loops_format() {
    let source = "class T {\n  void m(Integer n) {\n    for (Integer i = 0; i < n; i++) {\n      x(i);\n    }\n  }\n}\n";
    let out = try_format_source(source, Config::default()).unwrap();
    assert_eq!(out, source);
}
