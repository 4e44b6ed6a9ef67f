use env_yoink::presets::{get_preset_regex_pattern, ConfigError, PatternSource, Preset};

#[test]
fn js_preset_has_its_two_patterns() {
    assert_eq!(
        get_preset_regex_pattern(Preset::JS),
        vec![
            "process\\.env\\.([a-zA-Z_][a-zA-Z0-9_]*)\\b".to_string(),
            "process\\.env\\[['\"]([^'\"]+)['\"]\\]".to_string(),
        ]
    );
}

#[test]
fn python_preset_has_its_two_patterns() {
    assert_eq!(
        get_preset_regex_pattern(Preset::Python),
        vec![
            "os\\.environ\\[['\"]([^'\"]+)['\"]\\]".to_string(),
            "os\\.environ\\.get\\(['\"]([^'\"]+)['\"]\\)".to_string(),
        ]
    );
}

#[test]
fn rust_preset_has_its_pattern() {
    assert_eq!(
        get_preset_regex_pattern(Preset::Rust),
        vec!["env::var\\([\"']([^\"']+)[\"']\\)".to_string()]
    );
}

#[test]
fn go_preset_has_its_pattern() {
    assert_eq!(
        get_preset_regex_pattern(Preset::Go),
        vec!["os\\.Getenv\\([\"']([^\"']+)[\"']\\)".to_string()]
    );
}

#[test]
fn custom_pattern_stands_for_itself() {
    let source = PatternSource::select(Some("X_(\\w+)".to_string()), None);
    assert!(matches!(source, Ok(PatternSource::Custom(_))));
    assert_eq!(source.ok().unwrap().patterns(), vec!["X_(\\w+)".to_string()]);
}

#[test]
fn preset_stands_for_its_patterns() {
    let source = PatternSource::select(None, Some(Preset::Python));
    assert!(matches!(source, Ok(PatternSource::Preset(Preset::Python))));
    assert_eq!(source.ok().unwrap().patterns(), get_preset_regex_pattern(Preset::Python));
}

#[test]
fn no_selection_is_an_error() {
    assert!(matches!(PatternSource::select(None, None), Err(ConfigError::Missing)));
}

#[test]
fn two_selections_are_an_error() {
    assert!(matches!(
        PatternSource::select(Some("(x)".to_string()), Some(Preset::Go)),
        Err(ConfigError::Conflict)
    ));
}
