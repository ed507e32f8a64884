//! Finding the lines of a text that hold a query.

use crate::chars::chars_of;
use crate::folding::{fold_case, folded};
use crate::lines::split_first_line;
use crate::matching::find;
use crate::text::{contains, lemma_line_end, lines_of};
use vstd::prelude::*;
use vstd::string::*;

verus! {

/// A line is accepted for a query where it holds the query as a contiguous
/// run of characters: as both stand, or, where case is ignored, in their
/// lowercase forms.
pub open spec fn accepts(line: Seq<char>, query: Seq<char>, ignore_case: bool) -> bool {
    if ignore_case {
        contains(folded(line), folded(query))
    } else {
        contains(line, query)
    }
}

/// The lines of `text` that are accepted for `query`, as they stand in
/// `text` and in the order in which they stand there, each as often as it
/// occurs.
pub open spec fn matching_lines(text: Seq<char>, query: Seq<char>, ignore_case: bool) -> Seq<
    Seq<char>,
> {
    lines_of(text).filter(|line: Seq<char>| accepts(line, query, ignore_case))
}

/// Tells whether `line` is accepted for the query whose compared form is
/// `needle`.
fn line_accepted(line: &str, needle: &[char], ignore_case: bool) -> (accepted: bool)
    ensures
        accepted == contains(
            if ignore_case {
                folded(line@)
            } else {
                line@
            },
            needle@,
        ),
{
    if ignore_case {
        let form = fold_case(line);
        let hay = chars_of(form.as_str());
        find(hay.as_slice(), needle)
    } else {
        let hay = chars_of(line);
        find(hay.as_slice(), needle)
    }
}

/// The lines of `contents` that hold `query`, in the chosen mode. Each line
/// returned is a view into `contents`.
pub fn search_with<'a>(query: &str, contents: &'a str, ignore_case: bool) -> (found: Vec<&'a str>)
    ensures
        found.deep_view() == matching_lines(contents@, query@, ignore_case),
{
    let needle = if ignore_case {
        let form = fold_case(query);
        chars_of(form.as_str())
    } else {
        chars_of(query)
    };
    let ghost accepted = |line: Seq<char>| accepts(line, query@, ignore_case);
    let ghost mut seen: Seq<Seq<char>> = Seq::empty();
    let mut found: Vec<&'a str> = Vec::new();
    let mut rest: &'a str = contents;
    proof {
        reveal(Seq::filter);
        assert(found.deep_view() =~= seen.filter(accepted));
        assert(lines_of(contents@) =~= seen + lines_of(rest@));
    }
    while !rest.is_empty()
        invariant
            accepted == |line: Seq<char>| accepts(line, query@, ignore_case),
            needle@ == if ignore_case {
                folded(query@)
            } else {
                query@
            },
            lines_of(contents@) == seen + lines_of(rest@),
            found.deep_view() == seen.filter(accepted),
        decreases rest@.len(),
    {
        let ghost before = found.deep_view();
        let (line, next) = split_first_line(rest);
        proof {
            lemma_line_end(rest@);
            seen.lemma_filter_push(line@, accepted);
            if next is None {
                assert(line@ =~= rest@);
                assert(lines_of(Seq::<char>::empty()) =~= Seq::empty());
            }
            assert(lines_of(contents@) =~= seen.push(line@) + lines_of(
                if next is Some {
                    next->0@
                } else {
                    Seq::empty()
                },
            ));
        }
        if line_accepted(line, needle.as_slice(), ignore_case) {
            found.push(line);
            assert(found.deep_view() =~= before.push(line@));
        }
        proof {
            seen = seen.push(line@);
        }
        match next {
            Some(tail) => {
                rest = tail;
            },
            None => {
                rest = "";
                proof {
                    reveal_strlit("");
                }
            },
        }
    }
    proof {
        assert(lines_of(rest@) =~= Seq::empty());
        assert(seen + lines_of(rest@) =~= seen);
    }
    found
}

/// The lines of `contents` that hold `query` as a contiguous run of
/// characters, compared exactly.
pub fn search<'a>(query: &str, contents: &'a str) -> (found: Vec<&'a str>)
    ensures
        found.deep_view() == matching_lines(contents@, query@, false),
{
    search_with(query, contents, false)
}

/// The lines of `contents` whose lowercase form holds the lowercase form of
/// `query`. The lines are returned as they stand in `contents`.
pub fn search_case_insensitive<'a>(query: &str, contents: &'a str) -> (found: Vec<&'a str>)
    ensures
        found.deep_view() == matching_lines(contents@, query@, true),
{
    search_with(query, contents, true)
}

} // verus!
