//! Where the patterns come from: one that the caller wrote, or the patterns
//! of a preset.

use vstd::prelude::*;

verus! {

/// A language whose ways of reading the environment are known.
#[derive(Debug, Clone, Copy, PartialEq, Eq, Structural)]
pub enum Preset {
    JS,
    Python,
    Rust,
    Go,
}

/// Why no pattern could be chosen.
#[derive(Debug, Clone, Copy, PartialEq, Eq, Structural)]
pub enum ConfigError {
    /// Neither a pattern nor a preset was given.
    Missing,
    /// Both a pattern and a preset were given.
    Conflict,
}

/// What the caller chose to search with.
pub enum PatternSource {
    /// A pattern of the caller's own.
    Custom(String),
    /// The patterns of a preset.
    Preset(Preset),
}

/// The patterns of a preset, as text.
pub open spec fn preset_patterns(preset: Preset) -> Seq<Seq<char>> {
    match preset {
        Preset::JS => seq![
            r"process\.env\.([a-zA-Z_][a-zA-Z0-9_]*)\b"@,
            r#"process\.env\[['"]([^'"]+)['"]\]"#@,
        ],
        Preset::Python => seq![
            r#"os\.environ\[['"]([^'"]+)['"]\]"#@,
            r#"os\.environ\.get\(['"]([^'"]+)['"]\)"#@,
        ],
        Preset::Rust => seq![r#"env::var\(["']([^"']+)["']\)"#@],
        Preset::Go => seq![r#"os\.Getenv\(["']([^"']+)["']\)"#@],
    }
}

/// The patterns that a choice stands for.
pub open spec fn source_patterns(source: PatternSource) -> Seq<Seq<char>> {
    match source {
        PatternSource::Custom(pattern) => seq![pattern@],
        PatternSource::Preset(preset) => preset_patterns(preset),
    }
}

/// The choice that a pattern and a preset, each given or not, amount to.
pub open spec fn chosen(custom: Option<Seq<char>>, preset: Option<Preset>) -> Result<
    Seq<Seq<char>>,
    ConfigError,
> {
    match (custom, preset) {
        (Some(pattern), None) => Ok(seq![pattern]),
        (None, Some(preset)) => Ok(preset_patterns(preset)),
        (None, None) => Err(ConfigError::Missing),
        (Some(_), Some(_)) => Err(ConfigError::Conflict),
    }
}

/// The patterns of a preset.
pub fn get_preset_regex_pattern(preset: Preset) -> (patterns: Vec<String>)
    ensures
        patterns.deep_view() == preset_patterns(preset),
{
    let mut patterns: Vec<String> = Vec::new();
    match preset {
        Preset::JS => {
            patterns.push(r"process\.env\.([a-zA-Z_][a-zA-Z0-9_]*)\b".to_owned());
            patterns.push(r#"process\.env\[['"]([^'"]+)['"]\]"#.to_owned());
        },
        Preset::Python => {
            patterns.push(r#"os\.environ\[['"]([^'"]+)['"]\]"#.to_owned());
            patterns.push(r#"os\.environ\.get\(['"]([^'"]+)['"]\)"#.to_owned());
        },
        Preset::Rust => {
            patterns.push(r#"env::var\(["']([^"']+)["']\)"#.to_owned());
        },
        Preset::Go => {
            patterns.push(r#"os\.Getenv\(["']([^"']+)["']\)"#.to_owned());
        },
    }
    assert(patterns.deep_view() == preset_patterns(preset));
    patterns
}

impl PatternSource {
    /// The choice that a pattern and a preset, each given or not, amount to:
    /// exactly one of the two has to be given.
    pub fn select(custom: Option<String>, preset: Option<Preset>) -> (r: Result<
        PatternSource,
        ConfigError,
    >)
        ensures
            match r {
                Ok(source) => Ok::<Seq<Seq<char>>, ConfigError>(source_patterns(source)) == chosen(
                    custom.deep_view(),
                    preset,
                ),
                Err(e) => Err::<Seq<Seq<char>>, ConfigError>(e) == chosen(
                    custom.deep_view(),
                    preset,
                ),
            },
    {
        match (custom, preset) {
            (Some(pattern), None) => Ok(PatternSource::Custom(pattern)),
            (None, Some(preset)) => Ok(PatternSource::Preset(preset)),
            (None, None) => Err(ConfigError::Missing),
            (Some(_), Some(_)) => Err(ConfigError::Conflict),
        }
    }

    /// The patterns that the choice stands for.
    pub fn patterns(self) -> (patterns: Vec<String>)
        ensures
            patterns.deep_view() == source_patterns(self),
    {
        match self {
            PatternSource::Custom(pattern) => {
                let ghost text = pattern@;
                let mut patterns: Vec<String> = Vec::new();
                patterns.push(pattern);
                assert(patterns.deep_view() == seq![text]);
                patterns
            },
            PatternSource::Preset(preset) => get_preset_regex_pattern(preset),
        }
    }
}

} // verus!
