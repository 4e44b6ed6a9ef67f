//! The whole run: from the contents of the files and the patterns to the set
//! of names and the text that lists them. A file is given by its content,
//! `None` standing for a file that could not be read.

use crate::aggregate::{ascending, lemma_listing, listing, render, rendered, ResultSet};
use crate::extract::{fetch_env_variables, fetched, ExtractError};
use vstd::prelude::*;

verus! {

/// The names that the files yield under each of the patterns, pattern after
/// pattern. The first pattern that fails decides the error.
pub open spec fn names_of_patterns(patterns: Seq<Seq<char>>, files: Seq<Option<Seq<u8>>>) -> Result<
    Seq<Seq<char>>,
    ExtractError,
>
    decreases patterns.len(),
{
    if patterns.len() == 0 {
        Ok(Seq::empty())
    } else {
        match names_of_patterns(patterns.drop_last(), files) {
            Err(e) => Err(e),
            Ok(names) => match fetched(patterns.last(), files) {
                Err(e) => Err(e),
                Ok(more) => Ok(names + more),
            },
        }
    }
}

/// The text of the file that a run writes.
pub open spec fn example_text(patterns: Seq<Seq<char>>, files: Seq<Option<Seq<u8>>>) -> Result<
    Seq<char>,
    ExtractError,
> {
    match names_of_patterns(patterns, files) {
        Ok(names) => Ok(rendered(listing(names))),
        Err(e) => Err(e),
    }
}

/// Once the first `n` patterns fail, so do all the patterns, with the same
/// error.
pub proof fn lemma_first_failed_pattern_decides(
    patterns: Seq<Seq<char>>,
    files: Seq<Option<Seq<u8>>>,
    n: int,
)
    requires
        0 <= n <= patterns.len(),
        names_of_patterns(patterns.take(n), files) is Err,
    ensures
        names_of_patterns(patterns, files) == names_of_patterns(patterns.take(n), files),
    decreases patterns.len(),
{
    if n == patterns.len() {
        assert(patterns.take(n) == patterns);
    } else {
        assert(patterns.drop_last().take(n) == patterns.take(n));
        lemma_first_failed_pattern_decides(patterns.drop_last(), files, n);
    }
}

/// The set of the names that the files yield under the patterns. The first
/// failure ends the run.
pub fn collect_names(files: &Vec<Option<Vec<u8>>>, patterns: &Vec<String>) -> (r: Result<
    ResultSet,
    ExtractError,
>)
    ensures
        match names_of_patterns(patterns.deep_view(), files.deep_view()) {
            Ok(names) => r matches Ok(set) && set@ == listing(names),
            Err(e) => r matches Err(f) && f == e,
        },
{
    let mut set = ResultSet::new();
    let ghost mut names: Seq<Seq<char>> = Seq::empty();
    let mut i: usize = 0;
    assert(set@.to_set() =~= names.to_set());
    while i < patterns.len()
        invariant
            i <= patterns.len(),
            names_of_patterns(patterns.deep_view().take(i as int), files.deep_view()) == Ok::<
                Seq<Seq<char>>,
                ExtractError,
            >(names),
            ascending(set@),
            set@.to_set() == names.to_set(),
        decreases patterns.len() - i,
    {
        proof {
            let upto = patterns.deep_view().take(i + 1);
            assert(upto.drop_last() == patterns.deep_view().take(i as int));
            assert(upto.last() == patterns[i as int]@);
        }
        match fetch_env_variables(files, patterns[i].as_str()) {
            Err(e) => {
                proof {
                    lemma_first_failed_pattern_decides(
                        patterns.deep_view(),
                        files.deep_view(),
                        i + 1,
                    );
                }
                return Err(e);
            },
            Ok(more) => {
                proof {
                    vstd::seq_lib::seq_to_set_distributes_over_add(names, more.deep_view());
                    names = names + more.deep_view();
                }
                set.extend(more);
            },
        }
        i += 1;
    }
    proof {
        assert(patterns.deep_view().take(i as int) == patterns.deep_view());
        lemma_listing(set@, names);
    }
    Ok(set)
}

/// The text of the file that a run writes: a line for each name that the
/// files yield under the patterns, each name once, in ascending order.
pub fn env_example(files: &Vec<Option<Vec<u8>>>, patterns: &Vec<String>) -> (r: Result<
    String,
    ExtractError,
>)
    ensures
        match example_text(patterns.deep_view(), files.deep_view()) {
            Ok(text) => r matches Ok(s) && s@ == text,
            Err(e) => r matches Err(f) && f == e,
        },
{
    match collect_names(files, patterns) {
        Ok(set) => Ok(render(&set)),
        Err(e) => Err(e),
    }
}

} // verus!
