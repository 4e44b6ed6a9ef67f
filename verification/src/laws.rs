//! What holds of every run.

use crate::aggregate::{
    ascending, lemma_ascending_no_duplicates, lemma_ascending_unique, lemma_listing,
    lemma_precedes_total, lemma_precedes_transitive, line_of, lines_of, listing, precedes,
    rendered,
};
use crate::engine::{captured_group, first_match, matching_lines};
use crate::extract::{
    compiles, extraction, fetched, name_in_line, names_in_files, names_in_lines, names_in_source,
    ExtractError, NAME_GROUP,
};
use crate::scan::{example_text, names_of_patterns};
use crate::text::{span_text, without_terminator};
use crate::walk::{files_among, inside, listed, pruned, FileEntry};
use vstd::prelude::*;
use vstd::utf8::{encode_utf8, valid_utf8};

verus! {

/// `name` put at its place into the ascending `names`.
spec fn put(names: Seq<Seq<char>>, name: Seq<char>) -> Seq<Seq<char>>
    decreases names.len(),
{
    if names.len() == 0 {
        seq![name]
    } else if names.last() == name {
        names
    } else if precedes(names.last(), name) {
        names.push(name)
    } else {
        put(names.drop_last(), name).push(names.last())
    }
}

proof fn lemma_put(names: Seq<Seq<char>>, name: Seq<char>)
    requires
        ascending(names),
    ensures
        ascending(put(names, name)),
        put(names, name).to_set() == names.to_set().insert(name),
    decreases names.len(),
{
    let out = put(names, name);
    if names.len() == 0 {
        assert(names.push(name) == seq![name]);
        names.lemma_push_to_set_commute(name);
    } else if names.last() == name {
        assert(names.contains(name));
        assert(names.to_set().insert(name) == names.to_set());
    } else if precedes(names.last(), name) {
        names.lemma_push_to_set_commute(name);
        assert forall|i: int, j: int| 0 <= i < j < out.len() implies precedes(out[i], out[j]) by {
            if j == names.len() && i < names.len() - 1 {
                assert(precedes(names[i], names[names.len() - 1]));
                lemma_precedes_transitive(names[i], names.last(), name);
            }
        }
    } else {
        let front = names.drop_last();
        let last = names.last();
        let inner = put(front, name);
        lemma_put(front, name);
        lemma_precedes_total(last, name);
        inner.lemma_push_to_set_commute(last);
        front.lemma_push_to_set_commute(last);
        assert(front.push(last) == names);
        assert(out.to_set() == names.to_set().insert(name));
        assert forall|i: int, j: int| 0 <= i < j < out.len() implies precedes(out[i], out[j]) by {
            if j == inner.len() {
                assert(inner.to_set().contains(inner[i]));
                if inner[i] != name {
                    assert(front.contains(inner[i]));
                    let k = choose|k: int| 0 <= k < front.len() && front[k] == inner[i];
                    assert(precedes(names[k], names[names.len() - 1]));
                }
            }
        }
    }
}

/// Every sequence of names has its listing: an ascending sequence of the
/// same names.
pub proof fn lemma_listing_exists(names: Seq<Seq<char>>)
    ensures
        ascending(listing(names)),
        listing(names).to_set() == names.to_set(),
    decreases names.len(),
{
    if names.len() == 0 {
        assert(ascending(names));
    } else {
        let front = names.drop_last();
        lemma_listing_exists(front);
        lemma_put(listing(front), names.last());
        front.lemma_push_to_set_commute(names.last());
        assert(front.push(names.last()) == names);
        let sorted = put(listing(front), names.last());
        assert(ascending(sorted) && sorted.to_set() == names.to_set());
    }
}

/// No name is listed twice. Whatever the files hold and whatever the
/// patterns are, the text of a run is made of the lines of a sequence of
/// names in which no name, and so no line, occurs twice.
pub proof fn lemma_no_line_twice(patterns: Seq<Seq<char>>, files: Seq<Option<Seq<u8>>>)
    requires
        names_of_patterns(patterns, files) is Ok,
    ensures
        example_text(patterns, files) == Ok::<Seq<char>, ExtractError>(
            lines_of(listing(names_of_patterns(patterns, files)->Ok_0)).flatten(),
        ),
        listing(names_of_patterns(patterns, files)->Ok_0).no_duplicates(),
        lines_of(listing(names_of_patterns(patterns, files)->Ok_0)).no_duplicates(),
{
    let names = listing(names_of_patterns(patterns, files)->Ok_0);
    lemma_listing_exists(names_of_patterns(patterns, files)->Ok_0);
    lemma_ascending_no_duplicates(names);
    assert forall|i: int, j: int| 0 <= i < j < names.len() implies lines_of(names)[i] != lines_of(
        names,
    )[j] by {
        assert(names[i] != names[j]);
        assert(lines_of(names)[i] == line_of(names[i]));
        assert(lines_of(names)[j] == line_of(names[j]));
        if line_of(names[i]) == line_of(names[j]) {
            lemma_line_tells_name(names[i], names[j]);
        }
    }
}

/// Two names with the same line are the same name.
pub proof fn lemma_line_tells_name(a: Seq<char>, b: Seq<char>)
    requires
        line_of(a) == line_of(b),
    ensures
        a == b,
{
    assert(a == line_of(a).take(a.len() as int));
    assert(b == line_of(b).take(b.len() as int));
    assert(line_of(a).len() == a.len() + 2);
    assert(line_of(b).len() == b.len() + 2);
}

/// The listing of names forgets their order and how often each occurs: two
/// sequences of the same names have the same listing, and so the same text.
pub proof fn lemma_listing_ignores_order(a: Seq<Seq<char>>, b: Seq<Seq<char>>)
    requires
        a.to_set() == b.to_set(),
    ensures
        listing(a) == listing(b),
        rendered(listing(a)) == rendered(listing(b)),
{
    lemma_listing_exists(a);
    lemma_listing_exists(b);
    lemma_ascending_unique(listing(a), listing(b));
}

/// A run is repeatable: two outcomes on the same patterns and the same
/// contents, each as `env_example` promises it, are the same, character for
/// character.
pub proof fn lemma_run_is_repeatable(
    patterns: Seq<Seq<char>>,
    files: Seq<Option<Seq<u8>>>,
    first: Result<String, ExtractError>,
    second: Result<String, ExtractError>,
)
    requires
        match example_text(patterns, files) {
            Ok(text) => first matches Ok(s) && s@ == text,
            Err(e) => first matches Err(f) && f == e,
        },
        match example_text(patterns, files) {
            Ok(text) => second matches Ok(s) && s@ == text,
            Err(e) => second matches Err(f) && f == e,
        },
    ensures
        match (first, second) {
            (Ok(s), Ok(t)) => s@ == t@,
            (Err(e), Err(f)) => e == f,
            _ => false,
        },
{
}

/// Where every file is read and is text, and no line of any file matches any
/// of the patterns, the text of the run is empty, and the run succeeds.
pub proof fn lemma_no_match_no_output(patterns: Seq<Seq<char>>, files: Seq<Option<Seq<u8>>>)
    requires
        forall|p: int| 0 <= p < patterns.len() ==> compiles(#[trigger] patterns[p]),
        forall|f: int|
            0 <= f < files.len() ==> (#[trigger] files[f]) is Some && valid_utf8(files[f]->0),
        forall|p: int, f: int|
            0 <= p < patterns.len() && 0 <= f < files.len() ==> #[trigger] matching_lines(
                patterns[p],
                files[f]->0,
            ) == Some(Seq::<Seq<char>>::empty()),
    ensures
        names_of_patterns(patterns, files) == Ok::<Seq<Seq<char>>, ExtractError>(Seq::empty()),
        example_text(patterns, files) == Ok::<Seq<char>, ExtractError>(Seq::empty()),
    decreases patterns.len(),
{
    let none = Seq::<Seq<char>>::empty();
    if patterns.len() > 0 {
        lemma_no_match_no_output(patterns.drop_last(), files);
        lemma_no_match_no_names(patterns.last(), files);
        assert(none + none == none);
    }
    assert(ascending(none));
    lemma_listing(none, none);
    assert(lines_of(none) == none);
}

proof fn lemma_no_match_no_names(pattern: Seq<char>, files: Seq<Option<Seq<u8>>>)
    requires
        forall|f: int|
            0 <= f < files.len() ==> (#[trigger] files[f]) is Some && valid_utf8(files[f]->0),
        forall|f: int|
            0 <= f < files.len() ==> #[trigger] matching_lines(pattern, files[f]->0) == Some(
                Seq::<Seq<char>>::empty(),
            ),
    ensures
        names_in_files(pattern, files) == Ok::<Seq<Seq<char>>, ExtractError>(Seq::empty()),
    decreases files.len(),
{
    let none = Seq::<Seq<char>>::empty();
    if files.len() > 0 {
        lemma_no_match_no_names(pattern, files.drop_last());
        assert(files[files.len() - 1] is Some);
        assert(matching_lines(pattern, files[files.len() - 1]->0) == Some(none));
        assert(none + none == none);
    }
}

/// A hidden entry, and every entry in the tree below it, is left out of the
/// files to search.
pub proof fn lemma_hidden_tree_is_left_out(entries: Seq<FileEntry>, top: int, entry: int)
    requires
        0 <= top <= entry < entries.len(),
        entries[top].hidden(),
        forall|k: int| top < k <= entry ==> entries[k].depth > entries[top].depth,
    ensures
        pruned(entries, entry),
        !listed(entries, entry),
{
    assert(inside(entries, top, entry));
}

/// Each of the files to search is a listed entry of the walk: a regular file
/// below the root that is not hidden and lies below no hidden entry.
pub proof fn lemma_files_are_listed(entries: Seq<FileEntry>, n: int, i: int)
    requires
        n <= entries.len(),
        0 <= i < files_among(entries, n).len(),
    ensures
        exists|j: int|
            0 <= j < n && #[trigger] listed(entries, j) && entries[j] == files_among(entries, n)[i],
    decreases n,
{
    if n > 0 {
        let front = files_among(entries, n - 1);
        if i < front.len() {
            lemma_files_are_listed(entries, n - 1, i);
            let j = choose|j: int|
                0 <= j < n - 1 && #[trigger] listed(entries, j) && entries[j] == front[i];
            assert(listed(entries, j) && entries[j] == files_among(entries, n)[i]);
        } else {
            assert(listed(entries, n - 1));
        }
    }
}

/// The root of a walk is never a file to search, whatever it is.
pub proof fn lemma_root_is_not_listed(entries: Seq<FileEntry>, j: int)
    requires
        0 <= j < entries.len(),
        entries[j].depth == 0,
    ensures
        !listed(entries, j),
{
}

/// A file that is not text is reported, wherever the bytes that spoil it
/// stand: the extraction from it fails, and so does every run that it is part
/// of.
pub proof fn lemma_file_that_is_not_text_is_reported(
    patterns: Seq<Seq<char>>,
    files: Seq<Option<Seq<u8>>>,
    p: int,
    f: int,
)
    requires
        0 <= p < patterns.len(),
        0 <= f < files.len(),
        files[f] is Some,
        !valid_utf8(files[f]->0),
    ensures
        extraction(patterns[p], files[f]->0) is Err,
        example_text(patterns, files) is Err,
{
    if compiles(patterns[p]) {
        lemma_failing_file_fails_pattern(patterns[p], files, f);
    }
    lemma_failing_pattern_fails_run(patterns, files, p);
}

/// A line that fails makes its file fail.
pub proof fn lemma_failing_line_fails_file(pattern: Seq<char>, lines: Seq<Seq<char>>, l: int)
    requires
        0 <= l < lines.len(),
        name_in_line(pattern, lines[l]) is Err,
    ensures
        names_in_lines(pattern, lines) is Err,
    decreases lines.len(),
{
    if l < lines.len() - 1 {
        lemma_failing_line_fails_file(pattern, lines.drop_last(), l);
    }
}

/// A file that fails under a pattern makes the pattern fail.
pub proof fn lemma_failing_file_fails_pattern(pattern: Seq<char>, files: Seq<Option<Seq<u8>>>, f: int)
    requires
        0 <= f < files.len(),
        names_in_source(pattern, files[f]) is Err,
    ensures
        names_in_files(pattern, files) is Err,
    decreases files.len(),
{
    if f < files.len() - 1 {
        lemma_failing_file_fails_pattern(pattern, files.drop_last(), f);
    }
}

/// A pattern that fails makes the run fail.
pub proof fn lemma_failing_pattern_fails_run(
    patterns: Seq<Seq<char>>,
    files: Seq<Option<Seq<u8>>>,
    p: int,
)
    requires
        0 <= p < patterns.len(),
        fetched(patterns[p], files) is Err,
    ensures
        names_of_patterns(patterns, files) is Err,
        example_text(patterns, files) is Err,
    decreases patterns.len(),
{
    if p < patterns.len() - 1 {
        lemma_failing_pattern_fails_run(patterns.drop_last(), files, p);
    }
}

/// A match without a first group is reported, never passed over. Where a
/// pattern matches in a line of a file and no first group takes part in the
/// match, the extraction from that file fails, and so does every run that
/// the pattern and the file are part of.
pub proof fn lemma_match_without_group_is_reported(
    patterns: Seq<Seq<char>>,
    files: Seq<Option<Seq<u8>>>,
    p: int,
    f: int,
    l: int,
)
    requires
        0 <= p < patterns.len(),
        0 <= f < files.len(),
        files[f] is Some,
        matching_lines(patterns[p], files[f]->0) is Some,
        0 <= l < matching_lines(patterns[p], files[f]->0)->0.len(),
        ({
            let line = without_terminator(matching_lines(patterns[p], files[f]->0)->0[l]);
            &&& first_match(patterns[p], encode_utf8(line)) matches Some((start, end))
            &&& span_text(line, start, end) matches Some(text)
            &&& captured_group(patterns[p], text, NAME_GROUP as int) == Some(None::<Seq<char>>)
        }),
    ensures
        extraction(patterns[p], files[f]->0) is Err,
        example_text(patterns, files) is Err,
{
    let lines = matching_lines(patterns[p], files[f]->0)->0;
    assert(name_in_line(patterns[p], lines[l]) is Err);
    lemma_failing_line_fails_file(patterns[p], lines, l);
    if compiles(patterns[p]) {
        lemma_failing_file_fails_pattern(patterns[p], files, f);
    }
    lemma_failing_pattern_fails_run(patterns, files, p);
}

} // verus!
