use std::str::FromStr;

use jwt_codec::cli::{is_dash, same_text, ColorMode, Input, JsonFormat, Output};

#[test]
fn test_color_mode() {
    for variant in &ColorMode::variants() {
        assert_eq!(
            format!("{}", ColorMode::from_str(variant).unwrap().name()),
            *variant
        );
    }
}

#[test]
fn test_json_format() {
    for variant in &JsonFormat::variants() {
        assert_eq!(
            format!("{}", JsonFormat::from_str(variant).unwrap().name()),
            *variant
        );
    }
}

#[test]
fn test_input_from() {
    assert_eq!(Input::from_arg("-"), Input::Stdin);
    for path in &["--", "/tmp/foo"] {
        assert_eq!(Input::from_arg(path), Input::Path((*path).to_owned()));
    }
}

#[test]
fn test_output_from() {
    assert_eq!(Output::from_arg("-"), Output::Stdout);
    for path in &["--", "/tmp/foo"] {
        assert_eq!(Output::from_arg(path), Output::Path((*path).to_owned()));
    }
}

#[test]
fn color_mode_variants_are_listed_in_order() {
    assert_eq!(ColorMode::variants(), ["always", "never", "auto"]);
}

#[test]
fn json_format_variants_are_listed_in_order() {
    assert_eq!(JsonFormat::variants(), ["pretty", "compact"]);
}

#[test]
fn color_mode_parses_each_name() {
    assert_eq!(ColorMode::parse("always"), Ok(ColorMode::Always));
    assert_eq!(ColorMode::parse("never"), Ok(ColorMode::Never));
    assert_eq!(ColorMode::parse("auto"), Ok(ColorMode::Auto));
}

#[test]
fn color_mode_refuses_other_text() {
    for value in &["", "Always", "auto ", "on", "autox"] {
        assert_eq!(
            ColorMode::from_str(value),
            Err("valid values: always, never, auto")
        );
    }
}

#[test]
fn json_format_parses_each_name() {
    assert_eq!(JsonFormat::parse("pretty"), Ok(JsonFormat::Pretty));
    assert_eq!(JsonFormat::parse("compact"), Ok(JsonFormat::Compact));
}

#[test]
fn json_format_refuses_other_text() {
    for value in &["", "Pretty", "compact\n", "json"] {
        assert_eq!(
            JsonFormat::from_str(value),
            Err("valid values: pretty, compact")
        );
    }
}

#[test]
fn color_mode_defaults_to_auto() {
    assert_eq!(ColorMode::default(), ColorMode::Auto);
}

#[test]
fn use_color_follows_the_mode() {
    let stdout = Output::Stdout;
    let file = Output::Path("out.json".to_owned());
    for interactive in [false, true] {
        assert!(ColorMode::Always.use_color(&stdout, interactive));
        assert!(ColorMode::Always.use_color(&file, interactive));
        assert!(!ColorMode::Never.use_color(&stdout, interactive));
        assert!(!ColorMode::Never.use_color(&file, interactive));
        assert!(!ColorMode::Auto.use_color(&file, interactive));
    }
    assert!(ColorMode::Auto.use_color(&stdout, true));
    assert!(!ColorMode::Auto.use_color(&stdout, false));
}

#[test]
fn dash_is_only_the_single_dash() {
    assert!(is_dash("-"));
    for value in &["", "--", "- ", " -", "/tmp/-", "\u{2212}"] {
        assert!(!is_dash(value));
    }
}

#[test]
fn same_text_compares_whole_strings() {
    assert!(same_text("", ""));
    assert!(same_text("auto", "auto"));
    assert!(same_text("h\u{e9}llo", "h\u{e9}llo"));
    assert!(!same_text("auto", "auto "));
    assert!(!same_text("auto", "aut"));
    assert!(!same_text("auto", "autO"));
    assert!(!same_text("h\u{e9}llo", "h\u{e8}llo"));
}

#[test]
fn streams_are_named_for_messages() {
    assert_eq!(Input::Stdin.name(), "<stdin>");
    assert_eq!(Input::Path("/tmp/foo".to_owned()).name(), "/tmp/foo");
    assert_eq!(Output::Stdout.name(), "<stdout>");
    assert_eq!(Output::Path("/tmp/foo".to_owned()).name(), "/tmp/foo");
}
