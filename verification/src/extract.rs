//! Extraction: from the bytes of a file and a pattern to the names that the
//! first group of the pattern captures, one name at most for each matching
//! line.

use crate::engine::{
    capture_group, capture_regex, captured_group, decode, find_first, first_match, line_matcher,
    matching_lines, new_matcher, new_regex, search_lines,
};
use crate::text::{slice_span, span_text, strip_terminator, trim, trimmed, without_terminator};
use grep::regex::RegexMatcher;
use regex::Regex;
use vstd::prelude::*;
use vstd::string::StringSliceAdditionalSpecFns;
use vstd::utf8::{encode_utf8, valid_utf8};

verus! {

/// Why no names could be extracted.
#[derive(Debug, Clone, Copy, PartialEq, Eq, Structural)]
pub enum ExtractError {
    /// The pattern does not compile.
    BadPattern,
    /// The file could not be opened or read.
    Unreadable,
    /// The file, or the match in a line of it, is not UTF-8 text.
    NotText,
    /// A line was found to match, and the match was not found in it again.
    NoMatch,
    /// The pattern matched, and no first group took part in the match.
    NoCaptureGroup,
}

/// The number of the group that holds the name.
pub const NAME_GROUP: usize = 1;

/// Whether both engines accept `pattern`.
pub open spec fn compiles(pattern: Seq<char>) -> bool {
    line_matcher(pattern) is Some && capture_regex(pattern) is Some
}

/// The name that a capture yields: the group's text without the white space
/// around it. A group that holds nothing but white space yields the empty
/// name, which is a name like any other. A text without a match yields
/// nothing, a match without the group is an error.
pub open spec fn name_of(capture: Option<Option<Seq<char>>>) -> Result<
    Option<Seq<char>>,
    ExtractError,
> {
    match capture {
        None => Ok(None),
        Some(None) => Err(ExtractError::NoCaptureGroup),
        Some(Some(group)) => Ok(Some(trimmed(group))),
    }
}

/// The name that a matching line yields under `pattern`: the first match is
/// located in the line without its terminator, and the first group is read
/// out of the matched text alone. A line in which no match is found is an
/// error.
pub open spec fn name_in_line(pattern: Seq<char>, line: Seq<char>) -> Result<
    Option<Seq<char>>,
    ExtractError,
> {
    let body = without_terminator(line);
    match first_match(pattern, encode_utf8(body)) {
        None => Err(ExtractError::NoMatch),
        Some((start, end)) => match span_text(body, start, end) {
            None => Err(ExtractError::NotText),
            Some(text) => name_of(captured_group(pattern, text, NAME_GROUP as int)),
        },
    }
}

/// The names that `lines` yield under `pattern`, in the order of the lines.
/// The first line that fails decides the error.
pub open spec fn names_in_lines(pattern: Seq<char>, lines: Seq<Seq<char>>) -> Result<
    Seq<Seq<char>>,
    ExtractError,
>
    decreases lines.len(),
{
    if lines.len() == 0 {
        Ok(Seq::empty())
    } else {
        match names_in_lines(pattern, lines.drop_last()) {
            Err(e) => Err(e),
            Ok(names) => match name_in_line(pattern, lines.last()) {
                Err(e) => Err(e),
                Ok(None) => Ok(names),
                Ok(Some(name)) => Ok(names.push(name)),
            },
        }
    }
}

/// The names that a file of the given content yields under `pattern`: those
/// of its matching lines. A content that is not UTF-8 is an error, wherever
/// the bytes that spoil it stand.
pub open spec fn names_in_file(pattern: Seq<char>, content: Seq<u8>) -> Result<
    Seq<Seq<char>>,
    ExtractError,
> {
    if !valid_utf8(content) {
        Err(ExtractError::NotText)
    } else {
        match matching_lines(pattern, content) {
            None => Err(ExtractError::NotText),
            Some(lines) => names_in_lines(pattern, lines),
        }
    }
}

/// The names that a file yields under `pattern`, where `None` stands for a
/// file that could not be read.
pub open spec fn names_in_source(pattern: Seq<char>, source: Option<Seq<u8>>) -> Result<
    Seq<Seq<char>>,
    ExtractError,
> {
    match source {
        None => Err(ExtractError::Unreadable),
        Some(content) => names_in_file(pattern, content),
    }
}

/// The names that the files yield under `pattern`, file after file. The first
/// file that fails decides the error.
pub open spec fn names_in_files(pattern: Seq<char>, files: Seq<Option<Seq<u8>>>) -> Result<
    Seq<Seq<char>>,
    ExtractError,
>
    decreases files.len(),
{
    if files.len() == 0 {
        Ok(Seq::empty())
    } else {
        match names_in_files(pattern, files.drop_last()) {
            Err(e) => Err(e),
            Ok(names) => match names_in_source(pattern, files.last()) {
                Err(e) => Err(e),
                Ok(more) => Ok(names + more),
            },
        }
    }
}

/// What extraction from one file gives for a pattern as it was written.
pub open spec fn extraction(pattern: Seq<char>, content: Seq<u8>) -> Result<
    Seq<Seq<char>>,
    ExtractError,
> {
    if compiles(pattern) {
        names_in_file(pattern, content)
    } else {
        Err(ExtractError::BadPattern)
    }
}

/// What extraction from a list of files gives for a pattern as it was written.
pub open spec fn fetched(pattern: Seq<char>, files: Seq<Option<Seq<u8>>>) -> Result<
    Seq<Seq<char>>,
    ExtractError,
> {
    if compiles(pattern) {
        names_in_files(pattern, files)
    } else {
        Err(ExtractError::BadPattern)
    }
}

/// The outcome for one line, its name taken by its characters.
pub open spec fn name_view(r: Result<Option<String>, ExtractError>) -> Result<
    Option<Seq<char>>,
    ExtractError,
> {
    match r {
        Ok(name) => Ok(name.deep_view()),
        Err(e) => Err(e),
    }
}

/// The outcome of an extraction, its names taken by their characters.
pub open spec fn names_view(r: Result<Vec<String>, ExtractError>) -> Result<
    Seq<Seq<char>>,
    ExtractError,
> {
    match r {
        Ok(names) => Ok(names.deep_view()),
        Err(e) => Err(e),
    }
}

/// A pattern that both engines have compiled.
pub struct Pattern {
    source: String,
    matcher: RegexMatcher,
    regex: Regex,
}

impl View for Pattern {
    type V = Seq<char>;

    /// The pattern as it was written.
    closed spec fn view(&self) -> Seq<char> {
        self.source@
    }
}

/// The name that a capture yields: see `name_of`.
pub fn name_of_capture(capture: Option<Option<&str>>) -> (r: Result<Option<String>, ExtractError>)
    ensures
        name_view(r) == name_of(capture.deep_view()),
{
    match capture {
        None => Ok(None),
        Some(None) => Err(ExtractError::NoCaptureGroup),
        Some(Some(group)) => Ok(Some(trim(group).to_owned())),
    }
}

impl Pattern {
    #[verifier::type_invariant]
    spec fn compiled(&self) -> bool {
        &&& line_matcher(self.source@) == Some(self.matcher)
        &&& capture_regex(self.source@) == Some(self.regex)
    }

    /// Compiles `pattern` for both engines. It fails where either refuses it.
    pub fn compile(pattern: &str) -> (r: Result<Pattern, ExtractError>)
        ensures
            match r {
                Ok(p) => compiles(pattern@) && p@ == pattern@,
                Err(e) => !compiles(pattern@) && e == ExtractError::BadPattern,
            },
    {
        let matcher = match new_matcher(pattern) {
            Ok(matcher) => matcher,
            Err(_) => {
                return Err(ExtractError::BadPattern);
            },
        };
        let regex = match new_regex(pattern) {
            Ok(regex) => regex,
            Err(_) => {
                return Err(ExtractError::BadPattern);
            },
        };
        Ok(Pattern { source: pattern.to_owned(), matcher, regex })
    }

    /// The pattern as it was written.
    pub fn source(&self) -> (r: &str)
        ensures
            r@ == self@,
    {
        self.source.as_str()
    }

    /// The name that a matching line yields, if it yields one. A line in
    /// which no match is found is an error.
    pub fn name_in_line(&self, line: &str) -> (r: Result<Option<String>, ExtractError>)
        ensures
            name_view(r) == name_in_line(self@, line@),
    {
        proof {
            use_type_invariant(self);
        }
        let body = strip_terminator(line);
        match find_first(&self.matcher, body) {
            None => Err(ExtractError::NoMatch),
            Some((start, end)) => match slice_span(body, start, end) {
                None => Err(ExtractError::NotText),
                Some(text) => name_of_capture(capture_group(&self.regex, text, NAME_GROUP)),
            },
        }
    }

    /// The names that matching lines yield, in the order of the lines.
    pub fn names_in_lines(&self, lines: &Vec<String>) -> (r: Result<Vec<String>, ExtractError>)
        ensures
            names_view(r) == names_in_lines(self@, lines.deep_view()),
    {
        let mut names: Vec<String> = Vec::new();
        let mut i: usize = 0;
        assert(names.deep_view() == Seq::<Seq<char>>::empty());
        while i < lines.len()
            invariant
                i <= lines.len(),
                names_in_lines(self@, lines.deep_view().take(i as int)) == Ok::<
                    Seq<Seq<char>>,
                    ExtractError,
                >(names.deep_view()),
            decreases lines.len() - i,
        {
            proof {
                let upto = lines.deep_view().take(i + 1);
                assert(upto.drop_last() == lines.deep_view().take(i as int));
                assert(upto.last() == lines[i as int]@);
            }
            let ghost before = names.deep_view();
            match self.name_in_line(lines[i].as_str()) {
                Err(e) => {
                    proof {
                        lemma_first_failure_decides(self@, lines.deep_view(), i + 1);
                    }
                    return Err(e);
                },
                Ok(None) => {},
                Ok(Some(name)) => {
                    names.push(name);
                    assert(names.deep_view() == before.push(name@));
                },
            }
            i += 1;
        }
        proof {
            assert(lines.deep_view().take(i as int) == lines.deep_view());
        }
        Ok(names)
    }

    /// The names that a file of the given content yields. A content that is
    /// not UTF-8 is an error.
    pub fn extract(&self, content: &[u8]) -> (r: Result<Vec<String>, ExtractError>)
        ensures
            names_view(r) == names_in_file(self@, content@),
            !valid_utf8(content@) ==> r == Err::<Vec<String>, ExtractError>(ExtractError::NotText),
    {
        proof {
            use_type_invariant(self);
        }
        match decode(content) {
            Err(_) => Err(ExtractError::NotText),
            Ok(text) => match search_lines(&self.matcher, text.as_bytes()) {
                Err(_) => Err(ExtractError::NotText),
                Ok(lines) => self.names_in_lines(&lines),
            },
        }
    }

    /// The names that the files yield, file after file. `None` stands for a
    /// file that could not be read, and is an error.
    pub fn fetch(&self, files: &Vec<Option<Vec<u8>>>) -> (r: Result<Vec<String>, ExtractError>)
        ensures
            names_view(r) == names_in_files(self@, files.deep_view()),
    {
        let mut names: Vec<String> = Vec::new();
        let mut i: usize = 0;
        assert(names.deep_view() == Seq::<Seq<char>>::empty());
        while i < files.len()
            invariant
                i <= files.len(),
                names_in_files(self@, files.deep_view().take(i as int)) == Ok::<
                    Seq<Seq<char>>,
                    ExtractError,
                >(names.deep_view()),
            decreases files.len() - i,
        {
            proof {
                let upto = files.deep_view().take(i + 1);
                assert(upto.drop_last() == files.deep_view().take(i as int));
                assert(upto.last() == files[i as int].deep_view());
                if let Some(content) = files[i as int] {
                    assert(content.deep_view() == content@);
                }
            }
            let ghost before = names.deep_view();
            let found = match &files[i] {
                None => Err(ExtractError::Unreadable),
                Some(content) => self.extract(content.as_slice()),
            };
            match found {
                Err(e) => {
                    proof {
                        lemma_first_failed_file_decides(self@, files.deep_view(), i + 1);
                    }
                    return Err(e);
                },
                Ok(mut more) => {
                    let ghost added = more.deep_view();
                    names.append(&mut more);
                    assert(names.deep_view() == before + added);
                },
            }
            i += 1;
        }
        proof {
            assert(files.deep_view().take(i as int) == files.deep_view());
        }
        Ok(names)
    }
}

/// Once the first `n` lines fail, so do all the lines, with the same error.
pub proof fn lemma_first_failure_decides(pattern: Seq<char>, lines: Seq<Seq<char>>, n: int)
    requires
        0 <= n <= lines.len(),
        names_in_lines(pattern, lines.take(n)) is Err,
    ensures
        names_in_lines(pattern, lines) == names_in_lines(pattern, lines.take(n)),
    decreases lines.len(),
{
    if n == lines.len() {
        assert(lines.take(n) == lines);
    } else {
        assert(lines.drop_last().take(n) == lines.take(n));
        lemma_first_failure_decides(pattern, lines.drop_last(), n);
    }
}

/// Once the first `n` files fail, so do all the files, with the same error.
pub proof fn lemma_first_failed_file_decides(
    pattern: Seq<char>,
    files: Seq<Option<Seq<u8>>>,
    n: int,
)
    requires
        0 <= n <= files.len(),
        names_in_files(pattern, files.take(n)) is Err,
    ensures
        names_in_files(pattern, files) == names_in_files(pattern, files.take(n)),
    decreases files.len(),
{
    if n == files.len() {
        assert(files.take(n) == files);
    } else {
        assert(files.drop_last().take(n) == files.take(n));
        lemma_first_failed_file_decides(pattern, files.drop_last(), n);
    }
}

/// The names that a file of the given content yields under `pattern`, in the
/// order of its lines. A pattern that does not compile, a content that is not
/// UTF-8, and a match without a first group are errors.
pub fn extract_env_variables(pattern: &str, content: &[u8]) -> (r: Result<
    Vec<String>,
    ExtractError,
>)
    ensures
        names_view(r) == extraction(pattern@, content@),
        compiles(pattern@) && !valid_utf8(content@) ==> r == Err::<Vec<String>, ExtractError>(
            ExtractError::NotText,
        ),
{
    match Pattern::compile(pattern) {
        Err(e) => Err(e),
        Ok(compiled) => compiled.extract(content),
    }
}

/// The names that the files yield under `pattern`, file after file. Each file
/// is given by its content, `None` standing for a file that could not be
/// read. The first failure ends the run.
pub fn fetch_env_variables(files: &Vec<Option<Vec<u8>>>, pattern: &str) -> (r: Result<
    Vec<String>,
    ExtractError,
>)
    ensures
        names_view(r) == fetched(pattern@, files.deep_view()),
{
    match Pattern::compile(pattern) {
        Err(e) => Err(e),
        Ok(compiled) => compiled.fetch(files),
    }
}

} // verus!
