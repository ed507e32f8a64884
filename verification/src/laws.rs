//! What holds of every search, stated over the model and proved.

use crate::folding::folded;
use crate::search::{accepts, matching_lines};
use crate::text::{contains, lemma_line_end, line_end, lines_of, occurs_at};
use vstd::prelude::*;

verus! {

/// `part` is made of entries of `whole`, taken in ascending order of place:
/// entry `i` of `part` is the entry of `whole` at place `at[i]`.
pub open spec fn taken_in_order<A>(part: Seq<A>, whole: Seq<A>, at: Seq<int>) -> bool {
    &&& at.len() == part.len()
    &&& forall|i: int| 0 <= i < at.len() ==> 0 <= #[trigger] at[i] < whole.len()
    &&& forall|i: int| 0 <= i < at.len() ==> part[i] == whole[#[trigger] at[i]]
    &&& forall|i: int, j: int| 0 <= i < j < at.len() ==> at[i] < at[j]
}

/// `part` is `whole` with some of its entries left out.
pub open spec fn is_subsequence<A>(part: Seq<A>, whole: Seq<A>) -> bool {
    exists|at: Seq<int>| taken_in_order(part, whole, at)
}

/// What a filter keeps is taken in order from exactly the places whose
/// entries meet the test.
proof fn lemma_filter_places<A>(all: Seq<A>, keep: spec_fn(A) -> bool) -> (at: Seq<int>)
    ensures
        taken_in_order(all.filter(keep), all, at),
        forall|j: int| 0 <= j < all.len() ==> (keep(all[j]) <==> at.contains(j)),
    decreases all.len(),
{
    if all.len() == 0 {
        reveal(Seq::filter);
        Seq::empty()
    } else {
        let front = all.drop_last();
        let last = all.last();
        let front_at = lemma_filter_places(front, keep);
        assert(all =~= front.push(last));
        front.lemma_filter_push(last, keep);
        let at = if keep(last) {
            front_at.push(front.len() as int)
        } else {
            front_at
        };
        assert forall|j: int| 0 <= j < all.len() implies (keep(all[j]) <==> at.contains(j)) by {
            if j < front.len() {
                assert(all[j] == front[j]);
                if front_at.contains(j) {
                    let i = choose|i: int| 0 <= i < front_at.len() && front_at[i] == j;
                    assert(at[i] == j);
                }
                if at.contains(j) {
                    let i = choose|i: int| 0 <= i < at.len() && at[i] == j;
                    assert(front_at[i] == j);
                }
            } else {
                if keep(last) {
                    assert(at[front_at.len() as int] == j);
                }
                if at.contains(j) {
                    let i = choose|i: int| 0 <= i < at.len() && at[i] == j;
                    if i < front_at.len() {
                        assert(front_at[i] < front.len());
                    }
                }
            }
        }
        assert forall|i: int| 0 <= i < at.len() implies all.filter(keep)[i]
            == all[#[trigger] at[i]] by {
            if i < front_at.len() {
                assert(front.filter(keep)[i] == front[front_at[i]]);
            }
        }
        at
    }
}

/// A filter whose test every entry meets keeps them all.
proof fn lemma_filter_keeps_all<A>(all: Seq<A>, keep: spec_fn(A) -> bool)
    requires
        forall|j: int| 0 <= j < all.len() ==> keep(all[j]),
    ensures
        all.filter(keep) == all,
    decreases all.len(),
{
    if all.len() == 0 {
        reveal(Seq::filter);
    } else {
        let front = all.drop_last();
        assert forall|j: int| 0 <= j < front.len() implies keep(front[j]) by {
            assert(front[j] == all[j]);
        }
        lemma_filter_keeps_all(front, keep);
        front.lemma_filter_push(all.last(), keep);
        assert(all =~= front.push(all.last()));
    }
}

/// A filter whose test no entry meets keeps none.
proof fn lemma_filter_keeps_none<A>(all: Seq<A>, keep: spec_fn(A) -> bool)
    requires
        forall|j: int| 0 <= j < all.len() ==> !keep(all[j]),
    ensures
        all.filter(keep) == Seq::<A>::empty(),
    decreases all.len(),
{
    if all.len() == 0 {
        reveal(Seq::filter);
    } else {
        let front = all.drop_last();
        assert forall|j: int| 0 <= j < front.len() implies !keep(front[j]) by {
            assert(front[j] == all[j]);
        }
        lemma_filter_keeps_none(front, keep);
        front.lemma_filter_push(all.last(), keep);
        assert(all =~= front.push(all.last()));
    }
}

/// Of two filters of one sequence, the one with the narrower test keeps a
/// subsequence of what the other keeps.
proof fn lemma_filter_narrower<A>(all: Seq<A>, narrow: spec_fn(A) -> bool, wide: spec_fn(A) -> bool)
    requires
        forall|j: int| 0 <= j < all.len() && narrow(all[j]) ==> wide(all[j]),
    ensures
        is_subsequence(all.filter(narrow), all.filter(wide)),
    decreases all.len(),
{
    if all.len() == 0 {
        reveal(Seq::filter);
        assert(taken_in_order(all.filter(narrow), all.filter(wide), Seq::<int>::empty()));
    } else {
        let front = all.drop_last();
        let last = all.last();
        assert forall|j: int| 0 <= j < front.len() && narrow(front[j]) implies wide(front[j]) by {
            assert(front[j] == all[j]);
        }
        lemma_filter_narrower(front, narrow, wide);
        front.lemma_filter_push(last, narrow);
        front.lemma_filter_push(last, wide);
        assert(all =~= front.push(last));
        let front_at = choose|at: Seq<int>|
            taken_in_order(front.filter(narrow), front.filter(wide), at);
        let at = if narrow(last) {
            front_at.push(front.filter(wide).len() as int)
        } else {
            front_at
        };
        assert(taken_in_order(all.filter(narrow), all.filter(wide), at)) by {
            assert forall|i: int| 0 <= i < at.len() implies all.filter(narrow)[i] == all.filter(
                wide,
            )[#[trigger] at[i]] by {
                if i < front_at.len() {
                    assert(front.filter(narrow)[i] == front.filter(wide)[front_at[i]]);
                }
            }
            assert forall|i: int, j: int| 0 <= i < j < at.len() implies at[i] < at[j] by {
                if j == front_at.len() {
                    assert(front_at[i] < front.filter(wide).len());
                }
            }
        }
    }
}

/// Every text holds the empty text.
pub proof fn lemma_holds_empty(hay: Seq<char>)
    ensures
        contains(hay, Seq::<char>::empty()),
{
    assert(hay.subrange(0, 0) =~= Seq::<char>::empty());
    assert(occurs_at(hay, Seq::<char>::empty(), 0));
}

/// What stands in a part of a text stands in the text.
pub proof fn lemma_holds_what_a_part_holds(hay: Seq<char>, part: Seq<char>, needle: Seq<char>)
    requires
        contains(hay, part),
        contains(part, needle),
    ensures
        contains(hay, needle),
{
    let outer = choose|at: int| occurs_at(hay, part, at);
    let inner = choose|at: int| occurs_at(part, needle, at);
    assert(hay.subrange(outer + inner, outer + inner + needle.len()) =~= hay.subrange(
        outer,
        outer + part.len(),
    ).subrange(inner, inner + needle.len()));
    assert(occurs_at(hay, needle, outer + inner));
}

/// Every line of a text is a contiguous run of characters of the text, and
/// holds no newline.
pub proof fn lemma_line_of_text(text: Seq<char>, j: int)
    requires
        0 <= j < lines_of(text).len(),
    ensures
        contains(text, lines_of(text)[j]),
        forall|k: int| 0 <= k < lines_of(text)[j].len() ==> lines_of(text)[j][k] != '\n',
    decreases text.len(),
{
    let end = line_end(text);
    lemma_line_end(text);
    if 0 <= end < text.len() {
        let first = text.subrange(0, end);
        let rest = text.subrange(end + 1, text.len() as int);
        if j == 0 {
            assert(occurs_at(text, first, 0));
        } else {
            let line = lines_of(rest)[j - 1];
            assert(lines_of(text)[j] == line);
            lemma_line_of_text(rest, j - 1);
            let at = choose|at: int| occurs_at(rest, line, at);
            assert(text.subrange(end + 1 + at, end + 1 + at + line.len()) =~= rest.subrange(
                at,
                at + line.len(),
            ));
            assert(occurs_at(text, line, end + 1 + at));
        }
    } else {
        assert(text.subrange(0, text.len() as int) =~= text);
        assert(occurs_at(text, text, 0));
    }
}

/// The lines that a search returns are the lines of the text that are
/// accepted for the query, all of them and no others, each as often as it
/// stands in the text and in the order of the text: the returned lines are
/// taken in ascending order from exactly the places of the accepted lines.
/// So there are no more of them than the text has lines.
pub proof fn lemma_search_takes_accepted_lines(
    text: Seq<char>,
    query: Seq<char>,
    ignore_case: bool,
) -> (at: Seq<int>)
    ensures
        taken_in_order(matching_lines(text, query, ignore_case), lines_of(text), at),
        forall|j: int|
            0 <= j < lines_of(text).len() ==> (at.contains(j) <==> accepts(
                lines_of(text)[j],
                query,
                ignore_case,
            )),
        is_subsequence(matching_lines(text, query, ignore_case), lines_of(text)),
        matching_lines(text, query, ignore_case).len() <= lines_of(text).len(),
{
    let keep = |line: Seq<char>| accepts(line, query, ignore_case);
    let at = lemma_filter_places(lines_of(text), keep);
    lines_of(text).lemma_filter_len(keep);
    at
}

/// Every line that an exact search returns holds the query, and every line
/// of the text that holds the query is among those returned.
pub proof fn lemma_exact_search_is_sound_and_complete(text: Seq<char>, query: Seq<char>)
    ensures
        forall|i: int|
            0 <= i < matching_lines(text, query, false).len() ==> contains(
                #[trigger] matching_lines(text, query, false)[i],
                query,
            ),
        forall|j: int|
            0 <= j < lines_of(text).len() && contains(lines_of(text)[j], query)
                ==> matching_lines(text, query, false).contains(#[trigger] lines_of(text)[j]),
{
    let keep = |line: Seq<char>| accepts(line, query, false);
    assert forall|i: int| 0 <= i < matching_lines(text, query, false).len() implies contains(
        #[trigger] matching_lines(text, query, false)[i],
        query,
    ) by {
        lines_of(text).lemma_filter_pred(keep, i);
    }
    assert forall|j: int|
        0 <= j < lines_of(text).len() && contains(
            lines_of(text)[j],
            query,
        ) implies matching_lines(text, query, false).contains(#[trigger] lines_of(text)[j]) by {
        lines_of(text).lemma_filter_contains(keep, j);
    }
}

/// Every line that a search ignoring case returns holds the query once both
/// are in lowercase form.
pub proof fn lemma_folded_search_is_sound(text: Seq<char>, query: Seq<char>)
    ensures
        forall|i: int|
            0 <= i < matching_lines(text, query, true).len() ==> contains(
                folded(#[trigger] matching_lines(text, query, true)[i]),
                folded(query),
            ),
{
    let keep = |line: Seq<char>| accepts(line, query, true);
    assert forall|i: int| 0 <= i < matching_lines(text, query, true).len() implies contains(
        folded(#[trigger] matching_lines(text, query, true)[i]),
        folded(query),
    ) by {
        lines_of(text).lemma_filter_pred(keep, i);
    }
}

/// Where each line of the text that holds the query still holds it once both
/// are in lowercase form, the search ignoring case returns every line that
/// the exact search returns, and in the same order. (Lowercasing a text is
/// not lowercasing its parts: a capital sigma becomes one letter at the end
/// of a word and another inside it, so the condition can fail.)
pub proof fn lemma_folded_search_finds_more(text: Seq<char>, query: Seq<char>)
    requires
        forall|j: int|
            0 <= j < lines_of(text).len() && contains(lines_of(text)[j], query) ==> contains(
                folded(#[trigger] lines_of(text)[j]),
                folded(query),
            ),
    ensures
        is_subsequence(matching_lines(text, query, false), matching_lines(text, query, true)),
{
    lemma_filter_narrower(
        lines_of(text),
        |line: Seq<char>| accepts(line, query, false),
        |line: Seq<char>| accepts(line, query, true),
    );
}

/// The empty query returns every line of the text, in either mode.
pub proof fn lemma_empty_query_returns_all(text: Seq<char>, ignore_case: bool)
    ensures
        matching_lines(text, Seq::<char>::empty(), ignore_case) == lines_of(text),
{
    let query = Seq::<char>::empty();
    let keep = |line: Seq<char>| accepts(line, query, ignore_case);
    assert forall|j: int| 0 <= j < lines_of(text).len() implies keep(lines_of(text)[j]) by {
        lemma_holds_empty(lines_of(text)[j]);
        lemma_holds_empty(folded(lines_of(text)[j]));
    }
    lemma_filter_keeps_all(lines_of(text), keep);
}

/// A query that stands nowhere in the text is found on no line by the exact
/// search.
pub proof fn lemma_absent_query_returns_none(text: Seq<char>, query: Seq<char>)
    requires
        !contains(text, query),
    ensures
        matching_lines(text, query, false) == Seq::<Seq<char>>::empty(),
{
    let keep = |line: Seq<char>| accepts(line, query, false);
    assert forall|j: int| 0 <= j < lines_of(text).len() implies !keep(lines_of(text)[j]) by {
        lemma_line_of_text(text, j);
        if contains(lines_of(text)[j], query) {
            lemma_holds_what_a_part_holds(text, lines_of(text)[j], query);
        }
    }
    lemma_filter_keeps_none(lines_of(text), keep);
}

/// A query that no line of the text is accepted for returns no line, in
/// either mode.
pub proof fn lemma_unaccepted_query_returns_none(
    text: Seq<char>,
    query: Seq<char>,
    ignore_case: bool,
)
    requires
        forall|j: int|
            0 <= j < lines_of(text).len() ==> !accepts(
                #[trigger] lines_of(text)[j],
                query,
                ignore_case,
            ),
    ensures
        matching_lines(text, query, ignore_case) == Seq::<Seq<char>>::empty(),
{
    lemma_filter_keeps_none(
        lines_of(text),
        |line: Seq<char>| accepts(line, query, ignore_case),
    );
}

/// A query that holds a newline is found on no line by the exact search:
/// lines are searched one by one, and none holds a newline.
pub proof fn lemma_query_with_newline_returns_none(text: Seq<char>, query: Seq<char>, k: int)
    requires
        0 <= k < query.len(),
        query[k] == '\n',
    ensures
        matching_lines(text, query, false) == Seq::<Seq<char>>::empty(),
{
    let keep = |line: Seq<char>| accepts(line, query, false);
    assert forall|j: int| 0 <= j < lines_of(text).len() implies !keep(lines_of(text)[j]) by {
        let line = lines_of(text)[j];
        lemma_line_of_text(text, j);
        if contains(line, query) {
            let at = choose|at: int| occurs_at(line, query, at);
            assert(line.subrange(at, at + query.len())[k] == line[at + k]);
        }
    }
    lemma_filter_keeps_none(lines_of(text), keep);
}

} // verus!
