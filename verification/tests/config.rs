use memex::config::{
    is_known_theme, load_config, replace_span, theme_literal, themed_config_text, ConfigFile,
    MemexConfig, ThemeTextError,
};

#[test]
fn defaults_are_powerful_without_a_config_file() {
    assert_eq!(MemexConfig::default().theme, "solarized-light");
}

#[test]
fn known_theme_is_applied() {
    let mut config = MemexConfig::default();
    let file = ConfigFile { theme: Some("nord".to_string()) };
    assert!(file.apply(&mut config).is_ok());
    assert_eq!(config.theme, "nord");
}

#[test]
fn unknown_theme_is_rejected_with_list() {
    let mut config = MemexConfig::default();
    let file = ConfigFile { theme: Some("missing".to_string()) };
    let err = file.apply(&mut config).unwrap_err();
    assert_eq!(
        err,
        "unknown theme 'missing'; available themes: solarized-light, solarized-dark, nord, gruvbox-dark"
    );
    assert_eq!(config.theme, "solarized-light");
}

#[test]
fn load_config_without_file_gives_defaults() {
    let (config, err) = load_config(None);
    assert_eq!(config.theme, "solarized-light");
    assert!(err.is_none());
    let (config, err) = load_config(Some(ConfigFile { theme: None }));
    assert_eq!(config.theme, "solarized-light");
    assert!(err.is_none());
    let (config, err) = load_config(Some(ConfigFile { theme: Some("gruvbox-dark".into()) }));
    assert_eq!(config.theme, "gruvbox-dark");
    assert!(err.is_none());
    let (config, err) = load_config(Some(ConfigFile { theme: Some("x".into()) }));
    assert_eq!(config.theme, "solarized-light");
    assert!(err.unwrap().starts_with("unknown theme 'x'"));
}

#[test]
fn theme_value_keeps_its_quoting_style() {
    assert_eq!(theme_literal("'nord'", "solarized-dark"), "'solarized-dark'");
    assert_eq!(theme_literal("'''nord'''", "nord"), "'''nord'''");
    assert_eq!(theme_literal("\"\"\"nord\"\"\"", "nord"), "\"\"\"nord\"\"\"");
    assert_eq!(theme_literal("\"nord\"", "gruvbox-dark"), "\"gruvbox-dark\"");
}

#[test]
fn replacing_the_theme_value_keeps_the_rest_of_the_file() {
    let source = "# Memex settings\nfuture_option = 42\n\ntheme=\"nord\" # keep this comment\nanother_option = true\n";
    let start = source.find("\"nord\"").unwrap();
    let end = start + "\"nord\"".len();
    let replacement = theme_literal(&source[start..end], "gruvbox-dark");
    assert_eq!(
        replace_span(source, start, end, &replacement),
        source.replace("\"nord\"", "\"gruvbox-dark\"")
    );
    let source = "theme = 'nord' # literal string\n";
    let start = source.find("'nord'").unwrap();
    let replacement = theme_literal(&source[start..start + 6], "solarized-dark");
    assert_eq!(
        replace_span(source, start, start + 6, &replacement),
        "theme = 'solarized-dark' # literal string\n"
    );
}

#[test]
fn refuses_to_save_unknown_theme() {
    assert!(!is_known_theme("missing"));
}

#[test]
fn updating_theme_preserves_comments_order_and_style() {
    let source = "# Memex settings\nfuture_option = 42\n\ntheme=\"nord\" # keep this comment\nanother_option = true\n";
    let text = themed_config_text(source, "gruvbox-dark").unwrap();
    assert_eq!(text, source.replace("\"nord\"", "\"gruvbox-dark\""));
}

#[test]
fn adding_theme_preserves_existing_document() {
    let source = "# Memex settings\nfuture_option = 42\n";
    let text = themed_config_text(source, "nord").unwrap();
    assert_eq!(text, format!("{source}theme = \"nord\"\n"));
}

#[test]
fn updating_theme_preserves_quote_style() {
    let source = "theme = 'nord' # literal string\n";
    let text = themed_config_text(source, "solarized-dark").unwrap();
    assert_eq!(text, "theme = 'solarized-dark' # literal string\n");
}

#[test]
fn theme_of_another_type_is_refused() {
    assert_eq!(themed_config_text("theme = 3\n", "nord"), Err(ThemeTextError::NotAString));
}

#[test]
fn text_that_is_not_toml_is_refused() {
    assert!(matches!(
        themed_config_text("theme = = \"nord\"\n", "nord"),
        Err(ThemeTextError::InvalidToml(_))
    ));
}

#[test]
fn triple_quoted_theme_keeps_its_quotes() {
    let text = themed_config_text("theme = \"\"\"nord\"\"\"\n", "solarized-dark").unwrap();
    assert_eq!(text, "theme = \"\"\"solarized-dark\"\"\"\n");
}
