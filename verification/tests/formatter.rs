use sf_afmt::doc::{BraceStyle, IndentStyle, JavadocStarColumn};
use sf_afmt::source_formatter::{try_format_source, Config};

#[test]
fn config_validation_accepts_lower_bound_and_zero_width() {
    let config = Config {
        max_width: 0,
        indent_size: 1,
        ..Config::default()
    };

    assert_eq!(config.validate(), Ok(()));
}

#[test]
fn source_formatting_is_public_idempotent_and_validates_config() {
    let source = "public class VariableDeclaration {\n    public void run() {\n        Integer a = 1, b = 2;\n        String s = 'text';\n        List<Account> accounts = new List<Account>();\n        Map<String, Integer> m = new Map<String, Integer>{ 'a' => 1, 'b' => 2 };\n    }\n}\n";
    let formatted = try_format_source(source, Config::default()).expect("source should format");
    let second = try_format_source(&formatted, Config::default())
        .expect("formatted source should remain valid");

    assert_eq!(formatted, second);
    assert!(try_format_source(
        source,
        Config {
            indent_size: 0,
            ..Config::default()
        }
    )
    .unwrap_err()
    .contains("Invalid formatter configuration: indent_size must be at least 1"));
}

#[test]
fn config_validation_rejects_zero_indent() {
    assert_eq!(
        Config {
            indent_size: 0,
            ..Config::default()
        }
        .validate(),
        Err("indent_size must be at least 1".to_string())
    );
}

#[test]
fn caught_formatter_panics_release_formatting_state() {
    let source = "// dangling comment";
    let result = try_format_source(source, Config::default());

    assert!(result
        .expect_err("a comment with nothing to attach to should panic during formatting")
        .contains("Formatting panicked"));
}

#[test]
fn flush_javadoc_stars_are_indented_and_idempotent() {
    let source = "class T {\n  /**\n   * @param value the input\n   *\n   * @return the result\n   */\n  Integer m(Integer value) { /* keep */ return value; }\n}\n";
    let config = Config {
        brace_style: BraceStyle::Allman,
        indent_style: IndentStyle::Tab,
        javadoc_star_column: JavadocStarColumn::Flush,
        ..Config::default()
    };

    let first = try_format_source(source, config).unwrap();

    assert!(
        first.contains("\t/**\n\t* @param value the input\n\t*\n\t* @return the result\n\t*/"),
        "unexpected output:\n{first}"
    );
    assert!(first.contains("/* keep */"));
    let second = try_format_source(&first, config).unwrap();
    assert_eq!(second, first);
}

#[test]
fn annotation_casing_normalizes_known_names_and_preserves_unknown_names() {
    let source = "@iStEsT(SeeAllData=true)\n@MyCustomAnno\nclass T {\n  // Keep this adjacent comment.\n  @aUrAeNaBlEd\n  static void run() {}\n}\n";
    let config = Config {
        normalize_annotation_casing: true,
        ..Config::default()
    };

    let output = try_format_source(source, config).unwrap();

    assert!(output.contains("@IsTest(SeeAllData=true)"), "unexpected output:\n{output}");
    assert!(output.contains("@MyCustomAnno"));
    assert!(output.contains("// Keep this adjacent comment."));
    assert!(output.contains("@AuraEnabled"));
}

#[test]
fn annotation_casing_covers_every_known_name() {
    let cases = [
        ("iStEsT", "IsTest"),
        ("tEsTsEtUp", "TestSetup"),
        ("tEsTvIsIbLe", "TestVisible"),
        ("aUrAeNaBlEd", "AuraEnabled"),
        ("fUtUrE", "Future"),
        ("iNvOcAbLeMeThOd", "InvocableMethod"),
        ("iNvOcAbLeVaRiAbLe", "InvocableVariable"),
        ("hTtPgEt", "HttpGet"),
        ("hTtPpOsT", "HttpPost"),
        ("hTtPpUt", "HttpPut"),
        ("hTtPpAtCh", "HttpPatch"),
        ("hTtPdElEtE", "HttpDelete"),
        ("rEsTrEsOuRcE", "RestResource"),
        ("rEaDoNlY", "ReadOnly"),
        ("rEmOtEaCtIoN", "RemoteAction"),
        ("dEpReCaTeD", "Deprecated"),
        ("sUpPrEsSwArNiNgS", "SuppressWarnings"),
        ("nAmEsPaCeAcCeSsIbLe", "NamespaceAccessible"),
        ("jSoNaCcEsS", "JsonAccess"),
    ];
    let mut source = cases
        .iter()
        .map(|(input, _)| format!("@{}\n", input))
        .collect::<String>();
    source.push_str("@mYCustomAnno\nclass T {}\n");
    let config = Config {
        normalize_annotation_casing: true,
        ..Config::default()
    };

    let output = try_format_source(&source, config).unwrap();

    for (_, expected) in cases {
        assert!(
            output.lines().any(|line| line == format!("@{}", expected)),
            "missing canonical annotation @{expected} in output:\n{output}"
        );
    }
    assert!(output.lines().any(|line| line == "@mYCustomAnno"));
}

#[test]
fn annotation_name_comments_survive_casing() {
    let source = "@/* Keep this name comment. */iStEsT\nclass T {}\n";
    let config = Config {
        normalize_annotation_casing: true,
        ..Config::default()
    };

    let output = try_format_source(source, config).unwrap();

    assert!(
        output.contains("@/* Keep this name comment. */ IsTest"),
        "unexpected output:\n{output}"
    );
}

#[test]
fn annotation_casing_is_idempotent() {
    let source = "@ISTEST\nclass T {}\n";
    let config = Config {
        normalize_annotation_casing: true,
        ..Config::default()
    };

    let once = try_format_source(source, config).unwrap();
    let twice = try_format_source(&once, config).unwrap();

    assert_eq!(once, twice);
}

#[test]
fn allman_moves_container_and_control_braces_to_their_own_line() {
    let source = "class T {\n  void m() {\n    if (a) { x(); }\n  }\n}\n";
    let config = Config {
        brace_style: BraceStyle::Allman,
        ..Config::default()
    };

    let out = try_format_source(source, config).unwrap();

    assert_eq!(
        out,
        "class T\n{\n  void m()\n  {\n    if (a)\n    {\n      x();\n    }\n  }\n}\n"
    );
}

#[test]
fn wrap_single_statements_adds_braces_to_bare_clause_bodies() {
    let source = "class T {\n  void m() {\n    if (a) x(); else y();\n    for (Account acc : accts) z();\n  }\n}\n";
    let config = Config {
        wrap_single_statements: true,
        ..Config::default()
    };

    let out = try_format_source(source, config).unwrap();

    assert!(
        out.contains("if (a) {\n      x();\n    } else {\n      y();\n    }"),
        "unexpected output:\n{out}"
    );
    assert!(out.contains("for (Account acc : accts) {\n      z();\n    }"));
}

#[test]
fn tab_indentation_is_independent_of_brace_style_and_wrapping() {
    let source = "class T {\n  void m() {\n    if (a) x();\n  }\n}\n";
    let config = Config {
        indent_style: IndentStyle::Tab,
        ..Config::default()
    };

    let out = try_format_source(source, config).unwrap();

    assert_eq!(out, "class T {\n\tvoid m() {\n\t\tif (a)\n\t\t\tx();\n\t}\n}\n");
}

#[test]
fn tab_indentation_counts_configured_width_for_line_wrapping() {
    let source = "class T {\n  void m() {\n    System.debug('12345678901234567890');\n  }\n}\n";
    let config = Config {
        max_width: 40,
        indent_size: 4,
        indent_style: IndentStyle::Tab,
        ..Config::default()
    };
    let max_width = config.max_width;

    let output = try_format_source(source, config).unwrap();

    assert_eq!(
        output,
        "class T {\n\tvoid m() {\n\t\tSystem.debug(\n\t\t\t'12345678901234567890'\n\t\t);\n\t}\n}\n"
    );
    assert!(output.lines().all(|line| {
        line.chars()
            .map(|character| if character == '\t' { 4 } else { 1 })
            .sum::<u32>()
            <= max_width
    }));
}

#[test]
fn indent_size_one_is_idempotent_for_spaces_and_tabs() {
    let source = "class T {\n  void m() {\n    if (a) x();\n  }\n}\n";
    let space_config = Config {
        indent_size: 1,
        ..Config::default()
    };
    let tab_config = Config {
        indent_size: 1,
        indent_style: IndentStyle::Tab,
        ..Config::default()
    };

    let space_once = try_format_source(source, space_config).unwrap();
    let tab_once = try_format_source(source, tab_config).unwrap();

    assert_eq!(space_once, "class T {\n void m() {\n  if (a)\n   x();\n }\n}\n");
    assert_eq!(tab_once, "class T {\n\tvoid m() {\n\t\tif (a)\n\t\t\tx();\n\t}\n}\n");
    assert_eq!(try_format_source(&space_once, space_config).unwrap(), space_once);
    assert_eq!(try_format_source(&tab_once, tab_config).unwrap(), tab_once);
}

#[test]
fn allman_applies_to_properties_and_accessor_bodies() {
    let source = "public class Me {\n  public integer prop {\n    get {\n      return prop;\n    }\n    set {\n      prop = value;\n    }\n  }\n}\n";
    let config = Config {
        brace_style: BraceStyle::Allman,
        ..Config::default()
    };

    let out = try_format_source(source, config).unwrap();

    assert!(out.contains("public integer prop\n  {"), "unexpected output:\n{out}");
    assert!(out.contains("get\n    {"));
    assert!(out.contains("set\n    {"));
}

#[test]
fn wrapped_single_statements_include_empty_loop_bodies() {
    let source = "class T {\n  void m() {\n    for (Integer i = 0; i < 1; i++);\n    for (Account acc : accts);\n    while (true);\n  }\n}\n";
    let config = Config {
        wrap_single_statements: true,
        ..Config::default()
    };

    let out = try_format_source(source, config).unwrap();

    assert_eq!(out.matches("{\n    }").count(), 3, "unexpected output:\n{out}");
}

#[test]
fn wrapped_empty_while_preserves_terminator_comments() {
    let source = "class T {\n  void m() {\n    while (true) /* while empty */ ;\n  }\n}\n";
    let config = Config {
        wrap_single_statements: true,
        ..Config::default()
    };

    let out = try_format_source(source, config).unwrap();

    assert!(out.contains("/* while empty */"), "unexpected output:\n{out}");
    assert!(out.contains("while (true) /* while empty */"));
}

#[test]
fn allman_places_catch_and_finally_on_new_lines() {
    let source = "class T {\n  void m() {\n    try {\n      work();\n    } catch (Exception e) {\n      recover();\n    } finally {\n      finish();\n    }\n  }\n}\n";
    let config = Config {
        brace_style: BraceStyle::Allman,
        ..Config::default()
    };

    let out = try_format_source(source, config).unwrap();

    assert!(out.contains("    }\n    catch (Exception e)\n    {"), "unexpected output:\n{out}");
    assert!(out.contains("    }\n    finally\n    {"));
}

#[test]
fn default_config_keeps_k_and_r_and_bare_bodies() {
    let source = "class T {\n  void m() {\n    if (a) x();\n  }\n}\n";

    let out = try_format_source(source, Config::default()).unwrap();

    assert_eq!(out, "class T {\n  void m() {\n    if (a)\n      x();\n  }\n}\n");
}
