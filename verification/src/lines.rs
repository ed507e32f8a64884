//! Cutting a text into its lines, as views into the text.

use crate::encoding::{
    lemma_encoded_len, lemma_leading_newline, lemma_newline_is_encoded, NEWLINE,
};
use crate::text::{lemma_line_end_unique, line_end};
use vstd::prelude::*;
use vstd::string::*;
use vstd::utf8::*;

verus! {

/// Cutting a text at a character boundary of its encoding cuts its
/// characters in two.
proof fn lemma_cut(whole: &str, head: &str, tail: &str, at: int)
    requires
        is_char_boundary(whole.spec_bytes(), at),
        head.spec_bytes() == whole.spec_bytes().subrange(0, at),
        tail.spec_bytes() == whole.spec_bytes().subrange(at, whole.spec_bytes().len() as int),
    ensures
        whole@ == head@ + tail@,
{
    let bytes = whole.spec_bytes();
    encode_utf8_valid_utf8(whole@);
    decode_utf8_split(bytes, at);
    encode_utf8_decode_utf8(whole@);
    encode_utf8_decode_utf8(head@);
    encode_utf8_decode_utf8(tail@);
}

/// The position of the first newline byte of `text`, or the number of its
/// bytes where it holds none.
fn first_newline_byte(text: &str) -> (at: usize)
    ensures
        at <= text.spec_bytes().len(),
        forall|j: int| 0 <= j < at ==> text.spec_bytes()[j] != NEWLINE,
        at < text.spec_bytes().len() ==> text.spec_bytes()[at as int] == NEWLINE,
{
    let bytes = text.as_bytes();
    let mut at: usize = 0;
    while at < bytes.len() && bytes[at] != NEWLINE
        invariant
            at <= bytes@.len(),
            bytes@ == text.spec_bytes(),
            forall|j: int| 0 <= j < at ==> bytes@[j] != NEWLINE,
        decreases bytes@.len() - at,
    {
        at += 1;
    }
    at
}

/// Takes the first line off a text: returns that line, and what follows the
/// newline that ends it, or `None` where no newline ends it.
pub fn split_first_line<'a>(text: &'a str) -> (r: (&'a str, Option<&'a str>))
    ensures
        r.0@ == text@.subrange(0, line_end(text@)),
        r.1 is Some <==> line_end(text@) < text@.len(),
        r.1 is Some ==> r.1->0@ == text@.subrange(line_end(text@) + 1, text@.len() as int),
{
    let at = first_newline_byte(text);
    let ghost bytes = text.spec_bytes();
    proof {
        encode_utf8_valid_utf8(text@);
        if at < bytes.len() {
            is_char_boundary_iff_not_is_continuation_byte(bytes, at as int);
        } else {
            is_char_boundary_start_end_of_seq(bytes);
        }
    }
    let (head, tail) = text.split_at(at);
    proof {
        lemma_cut(text, head, tail, at as int);
        assert forall|i: int| 0 <= i < head@.len() implies head@[i] != '\n' by {
            if head@[i] == '\n' {
                lemma_newline_is_encoded(head@, i);
            }
        }
        if at < bytes.len() {
            assert(tail.spec_bytes()[0] == bytes[at as int]);
            lemma_leading_newline(tail@);
        } else {
            assert(tail.spec_bytes().len() == 0);
            lemma_encoded_len(tail@);
        }
        assert forall|i: int| 0 <= i < head@.len() implies text@[i] != '\n' by {
            assert(text@[i] == head@[i]);
        }
        if head@.len() < text@.len() {
            assert(text@[head@.len() as int] == tail@[0]);
        }
        lemma_line_end_unique(text@, head@.len() as int);
        assert(head@ == text@.subrange(0, line_end(text@)));
    }
    if at < text.as_bytes().len() {
        proof {
            encode_utf8_valid_utf8(tail@);
            reveal_with_fuel(is_char_boundary, 2);
        }
        let (newline, rest) = tail.split_at(1);
        proof {
            lemma_cut(tail, newline, rest, 1);
            lemma_encoded_len(newline@);
            assert(newline@.len() == 1) by {
                if newline@.len() == 0 {
                    assert(encode_utf8(newline@).len() == 0);
                }
            }
            assert(rest@ == text@.subrange(line_end(text@) + 1, text@.len() as int));
        }
        (head, Some(rest))
    } else {
        (head, None)
    }
}

} // verus!
