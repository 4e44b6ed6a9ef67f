//! The regular-expression engines that extraction rests on, and the decoder
//! of std.
//!
//! Two engines read every pattern: the line matcher finds the lines of a file
//! that hold a match and the span of the first match in a line; the capture
//! regex reads a group out of a matched span. Neither is verified. What a call
//! returns is given a name, a function of the pattern and the text, and the
//! rest of the library is proved over those names.

use grep::matcher::Matcher;
use grep::regex::RegexMatcher;
use grep::searcher::sinks::UTF8;
use grep::searcher::Searcher;
use regex::Regex;
use vstd::prelude::*;
use vstd::string::StringSliceAdditionalSpecFns;
use vstd::utf8::valid_utf8;

verus! {

/// `RegexMatcher` of grep, a compiled line matcher. Nothing is known of what
/// is inside one.
#[verifier::external_type_specification]
#[verifier::external_body]
pub struct ExRegexMatcher(RegexMatcher);

/// `Error` of grep's regex matcher: why a pattern was refused.
#[verifier::external_type_specification]
#[verifier::external_body]
pub struct ExMatcherError(grep::regex::Error);

/// `Regex` of regex, a compiled regular expression. Nothing is known of what
/// is inside one.
#[verifier::external_type_specification]
#[verifier::external_body]
pub struct ExRegex(Regex);

/// `Error` of regex: why a pattern was refused.
#[verifier::external_type_specification]
#[verifier::external_body]
pub struct ExRegexError(regex::Error);

/// `std::io::Error`: why a search failed.
#[verifier::external_type_specification]
#[verifier::external_body]
pub struct ExIoError(std::io::Error);

/// `Utf8Error` of std: why bytes are no text.
#[verifier::external_type_specification]
#[verifier::external_body]
pub struct ExUtf8Error(std::str::Utf8Error);

/// The line matcher that `pattern` compiles to, `None` where it is refused.
pub uninterp spec fn line_matcher(pattern: Seq<char>) -> Option<RegexMatcher>;

/// The capture regex that `pattern` compiles to, `None` where it is refused.
pub uninterp spec fn capture_regex(pattern: Seq<char>) -> Option<Regex>;

/// The lines in which the line matcher of `pattern` finds a match, in file
/// order. Where `content` begins with a byte-order mark, it is first decoded
/// as the mark asks and the mark is dropped. A line is tested without the
/// line feed that ends it and handed on with it. `None` where the search
/// fails, which it does on a matching line that is not UTF-8.
pub uninterp spec fn matching_lines(pattern: Seq<char>, content: Seq<u8>) -> Option<
    Seq<Seq<char>>,
>;

/// The byte offsets at which the first match of `pattern` in `haystack` starts
/// and ends, `None` where there is no match.
pub uninterp spec fn first_match(pattern: Seq<char>, haystack: Seq<u8>) -> Option<(int, int)>;

/// What group number `group` of `pattern` holds in the first match of the
/// pattern in `text`: `None` where `text` has no match, `Some(None)` where it
/// has one in which no such group takes part, else the group's text.
pub uninterp spec fn captured_group(pattern: Seq<char>, text: Seq<char>, group: int) -> Option<
    Option<Seq<char>>,
>;

/// `RegexMatcher::new` of grep: compiles `pattern` with the default
/// configuration. The result depends on the pattern alone; its value is
/// `line_matcher(pattern)`, an error standing for `None`.
#[verifier::external_body]
pub(crate) fn new_matcher(pattern: &str) -> (r: Result<RegexMatcher, grep::regex::Error>)
    ensures
        match r {
            Ok(m) => line_matcher(pattern@) == Some(m),
            Err(_) => line_matcher(pattern@) is None,
        },
{
    RegexMatcher::new(pattern)
}

/// `Regex::new` of regex: compiles `pattern` with the default configuration.
/// The result depends on the pattern alone; its value is
/// `capture_regex(pattern)`, an error standing for `None`.
#[verifier::external_body]
pub(crate) fn new_regex(pattern: &str) -> (r: Result<Regex, regex::Error>)
    ensures
        match r {
            Ok(re) => capture_regex(pattern@) == Some(re),
            Err(_) => capture_regex(pattern@) is None,
        },
{
    Regex::new(pattern)
}

/// `Searcher::search_slice` of grep with a default searcher and the `UTF8`
/// sink: hands back, in order, each line that the sink is given. For a matcher
/// compiled from a pattern `p` the outcome is `matching_lines(p, content)`, an
/// error standing for `None`.
#[verifier::external_body]
pub(crate) fn search_lines(matcher: &RegexMatcher, content: &[u8]) -> (r: Result<
    Vec<String>,
    std::io::Error,
>)
    ensures
        forall|p: Seq<char>| #[trigger]
            line_matcher(p) == Some(*matcher) ==> match r {
                Ok(lines) => matching_lines(p, content@) == Some(lines.deep_view()),
                Err(_) => matching_lines(p, content@) is None,
            },
{
    let mut lines = Vec::new();
    Searcher::new().search_slice(matcher, content, UTF8(|_, line| Ok(keep_line(&mut lines, line))))?;
    Ok(lines)
}

/// Takes `line` into `lines` and asks for the next one.
pub(crate) fn keep_line(lines: &mut Vec<String>, line: &str) -> (more: bool)
    ensures
        more,
        final(lines).deep_view() == old(lines).deep_view().push(line@),
{
    lines.push(line.to_owned());
    assert(lines.deep_view() == old(lines).deep_view().push(line@));
    true
}

/// `Matcher::find` of grep on the bytes of `line`: the offsets of the first
/// match. For a matcher compiled from a pattern `p` they are
/// `first_match(p, bytes of line)`.
#[verifier::external_body]
pub(crate) fn find_first(matcher: &RegexMatcher, line: &str) -> (r: Option<(usize, usize)>)
    ensures
        forall|p: Seq<char>| #[trigger]
            line_matcher(p) == Some(*matcher) ==> match r {
                Some((start, end)) => first_match(p, line.spec_bytes()) == Some(
                    (start as int, end as int),
                ),
                None => first_match(p, line.spec_bytes()) is None,
            },
{
    match matcher.find(line.as_bytes()) {
        Ok(Some(found)) => Some((found.start(), found.end())),
        _ => None,
    }
}

/// `Regex::captures` of regex on `text`, read by `Captures::get` at `group`.
/// For a regex compiled from a pattern `p` the outcome is
/// `captured_group(p, text, group)`.
#[verifier::external_body]
pub(crate) fn capture_group<'a>(regex: &Regex, text: &'a str, group: usize) -> (r: Option<
    Option<&'a str>,
>)
    ensures
        forall|p: Seq<char>| #[trigger]
            capture_regex(p) == Some(*regex) ==> captured_group(p, text@, group as int)
                == r.deep_view(),
{
    match regex.captures(text) {
        None => None,
        Some(captures) => match captures.get(group) {
            None => Some(None),
            Some(group) => Some(Some(group.as_str())),
        },
    }
}

/// `std::str::from_utf8`: the text that `bytes` encode. It fails exactly
/// where the bytes are not UTF-8.
#[verifier::external_body]
pub(crate) fn decode(bytes: &[u8]) -> (r: Result<&str, std::str::Utf8Error>)
    ensures
        match r {
            Ok(text) => valid_utf8(bytes@) && text.spec_bytes() == bytes@,
            Err(_) => !valid_utf8(bytes@),
        },
{
    std::str::from_utf8(bytes)
}

} // verus!
