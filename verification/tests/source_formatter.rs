use sf_afmt::source_formatter::{try_format_source, try_format_source_with_origin, Config};

const VALID_SOURCE: &str = "class T { void m() {} }\n";

#[test]
fn source_core_formats_valid_source_without_file_setup() {
    let formatted = try_format_source(VALID_SOURCE, Config::default()).expect("source formats");

    assert!(formatted.contains("class T"));
    assert!(formatted.contains("void m()"));
}

#[test]
fn source_core_reports_parse_failures_without_path_decoration() {
    let error = try_format_source("class Broken {", Config::default())
        .expect_err("invalid source should fail");

    assert!(error.contains("Parser encounters an error node"));
    assert!(!error.contains(".cls:"));
}

#[test]
fn parse_failures_lead_with_the_error_node_location() {
    let error = try_format_source_with_origin(
        "class Broken {\n    void run() {\n        Integer x = ;\n    }\n}\n",
        Config::default(),
        Some("Broken.cls"),
    )
    .expect_err("invalid source should fail");

    assert!(
        error.starts_with("Broken.cls:3:19:"),
        "diagnostic should lead with its location: {error}"
    );
    assert!(error.contains("byte range"));
}

#[test]
fn parse_failures_locate_stdin_when_no_path_exists() {
    let error = try_format_source_with_origin(
        "class Broken {\n    void run() {\n        Integer x = ;\n    }\n}\n",
        Config::default(),
        Some("<stdin>"),
    )
    .expect_err("invalid source should fail");

    assert!(
        error.starts_with("<stdin>:3:"),
        "stdin diagnostic should carry the stdin origin: {error}"
    );
}

#[test]
fn parse_failures_report_bare_line_and_column_without_an_origin() {
    let error = try_format_source(
        "class Broken {\n    void run() {\n        Integer x = ;\n    }\n}\n",
        Config::default(),
    )
    .expect_err("invalid source should fail");

    assert!(
        error.starts_with("3:"),
        "library diagnostic should still locate the error: {error}"
    );
}

#[test]
fn source_core_reports_config_validation_errors() {
    let error = try_format_source(
        VALID_SOURCE,
        Config {
            indent_size: 0,
            ..Config::default()
        },
    )
    .expect_err("invalid configuration should fail");

    assert_eq!(
        error,
        "Invalid formatter configuration: indent_size must be at least 1"
    );
}

#[test]
fn source_core_formatting_is_idempotent() {
    let first = try_format_source(VALID_SOURCE, Config::default()).expect("source formats");
    let second = try_format_source(&first, Config::default()).expect("formatted source formats");

    assert_eq!(first, second);
}
