//! Byte ranges in a text.
//!
//! The syntax tree speaks of a text by byte offsets, and a text can only be
//! cut between characters. What is said here of a range holds for every
//! pair of offsets: a range that is none, or that cuts a character, gives
//! nothing and is not replaced.

use vstd::prelude::*;
use vstd::string::*;
use vstd::utf8::*;

verus! {

/// A range of bytes: where it starts and where it ends.
pub type Span = (usize, usize);

/// Whether `span` cuts `text` between characters: it ends behind its start,
/// and both ends are character boundaries of the text.
pub open spec fn editable(text: Seq<char>, span: Span) -> bool {
    let bytes = encode_utf8(text);
    &&& span.0 <= span.1
    &&& is_char_boundary(bytes, span.1 as int)
    &&& is_char_boundary(bytes.subrange(0, span.1 as int), span.0 as int)
}

/// The part of `text` between two byte offsets, or nothing where the
/// offsets do not cut `text` between characters.
pub open spec fn text_between(text: Seq<char>, start: usize, end: usize) -> Seq<char> {
    if editable(text, (start, end)) {
        decode_utf8(encode_utf8(text).subrange(start as int, end as int))
    } else {
        Seq::empty()
    }
}

/// `text` with the bytes of `span` replaced by `replacement`.
pub open spec fn edited(text: Seq<char>, span: Span, replacement: Seq<char>) -> Seq<char> {
    let bytes = encode_utf8(text);
    decode_utf8(bytes.subrange(0, span.0 as int)) + replacement + decode_utf8(
        bytes.subrange(span.1 as int, bytes.len() as int),
    )
}

/// A character boundary of a text lies within the text.
pub proof fn lemma_boundary_in_range(bytes: Seq<u8>, index: int)
    requires
        valid_utf8(bytes),
        is_char_boundary(bytes, index),
    ensures
        0 <= index <= bytes.len(),
    decreases bytes.len(),
{
    if index != 0 && 0 <= index && index <= bytes.len() && bytes.len() > 0 {
        lemma_boundary_in_range(pop_first_scalar(bytes), index - length_of_first_scalar(bytes));
    }
}

/// Cuts `text` at the two ends of `span`: what stands before the range, in
/// it and behind it; none where `span` does not cut `text` between
/// characters.
pub fn cut<'a>(text: &'a str, span: Span) -> (parts: Option<(&'a str, &'a str, &'a str)>)
    ensures
        parts is Some <==> editable(text@, span),
        parts is Some ==> {
            let bytes = encode_utf8(text@);
            let (before, within, behind) = parts.unwrap();
            &&& before@ == decode_utf8(bytes.subrange(0, span.0 as int))
            &&& within@ == decode_utf8(bytes.subrange(span.0 as int, span.1 as int))
            &&& behind@ == decode_utf8(bytes.subrange(span.1 as int, bytes.len() as int))
        },
{
    if span.0 <= span.1 && text.is_char_boundary(span.1) {
        proof {
            encode_utf8_valid_utf8(text@);
            lemma_boundary_in_range(text.spec_bytes(), span.1 as int);
        }
        let (front, behind) = text.split_at(span.1);
        if front.is_char_boundary(span.0) {
            let (before, within) = front.split_at(span.0);
            proof {
                assert(before.spec_bytes() =~= text.spec_bytes().subrange(0, span.0 as int));
                assert(within.spec_bytes() =~= text.spec_bytes().subrange(
                    span.0 as int,
                    span.1 as int,
                ));
                encode_utf8_decode_utf8(before@);
                encode_utf8_decode_utf8(within@);
                encode_utf8_decode_utf8(behind@);
            }
            Some((before, within, behind))
        } else {
            None
        }
    } else {
        None
    }
}

/// Whether `span` cuts `text` between characters.
pub fn can_edit(text: &str, span: Span) -> (yes: bool)
    ensures
        yes == editable(text@, span),
{
    cut(text, span).is_some()
}

/// The part of `text` between two byte offsets, or nothing where the
/// offsets do not cut `text` between characters.
pub fn slice_text<'a>(text: &'a str, start: usize, end: usize) -> (part: &'a str)
    ensures
        part@ == text_between(text@, start, end),
{
    match cut(text, (start, end)) {
        Some((_, within, _)) => within,
        None => {
            let nothing = "";
            proof {
                reveal_strlit("");
                assert(nothing@ =~= Seq::<char>::empty());
            }
            nothing
        },
    }
}

/// `text` with the bytes of `span` replaced by `replacement`; none where
/// `span` does not cut `text` between characters.
pub fn splice(text: &str, span: Span, replacement: &str) -> (out: Option<String>)
    ensures
        out is Some <==> editable(text@, span),
        out is Some ==> out.unwrap()@ == edited(text@, span, replacement@),
{
    match cut(text, span) {
        Some((before, _, behind)) => {
            let mut out = String::from_str(before);
            out.append(replacement);
            out.append(behind);
            Some(out)
        },
        None => None,
    }
}

} // verus!
