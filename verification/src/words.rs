//! Splitting a text into its words: the runs of characters between
//! whitespace.

use vstd::prelude::*;
use vstd::string::*;

verus! {

/// `c` is one of the characters that Unicode lists as white space.
pub open spec fn is_whitespace(c: char) -> bool {
    ||| '\u{9}' <= c <= '\u{d}'
    ||| c == ' '
    ||| c == '\u{85}'
    ||| c == '\u{a0}'
    ||| c == '\u{1680}'
    ||| '\u{2000}' <= c <= '\u{200a}'
    ||| c == '\u{2028}'
    ||| c == '\u{2029}'
    ||| c == '\u{202f}'
    ||| c == '\u{205f}'
    ||| c == '\u{3000}'
}

/// The number of characters at the beginning of `text` up to the first
/// whitespace, or up to the end if there is none.
pub open spec fn word_len(text: Seq<char>) -> nat
    decreases text.len(),
{
    if text.len() == 0 || is_whitespace(text[0]) {
        0
    } else {
        1 + word_len(text.drop_first())
    }
}

/// The words of `text`, first to last: the longest runs of characters
/// that hold no whitespace. No word is empty.
pub open spec fn words(text: Seq<char>) -> Seq<Seq<char>>
    decreases text.len(),
    via words_decreases
{
    if text.len() == 0 {
        Seq::empty()
    } else if is_whitespace(text[0]) {
        words(text.drop_first())
    } else {
        seq![text.take(word_len(text) as int)] + words(text.skip(word_len(text) as int))
    }
}

#[via_fn]
proof fn words_decreases(text: Seq<char>) {
    if text.len() > 0 && !is_whitespace(text[0]) {
        lemma_word_len_bounds(text);
    }
}

/// A word ends where the text does, or before a whitespace, and holds none.
pub proof fn lemma_word_len_bounds(text: Seq<char>)
    ensures
        word_len(text) <= text.len(),
        text.len() > 0 && !is_whitespace(text[0]) ==> word_len(text) >= 1,
        word_len(text) < text.len() ==> is_whitespace(text[word_len(text) as int]),
        forall|i: int| 0 <= i < word_len(text) ==> !is_whitespace(#[trigger] text[i]),
    decreases text.len(),
{
    if text.len() == 0 || is_whitespace(text[0]) {
    } else {
        let rest = text.drop_first();
        lemma_word_len_bounds(rest);
        assert forall|i: int| 0 <= i < word_len(text) implies !is_whitespace(#[trigger] text[i]) by {
            if i > 0 {
                assert(text[i] == rest[i - 1]);
            }
        }
        if word_len(text) < text.len() {
            assert(text[word_len(text) as int] == rest[word_len(rest) as int]);
        }
    }
}

/// A run of `count` characters without whitespace that stops at the end
/// of the text or at a whitespace is the first word.
pub proof fn lemma_word_len_is(text: Seq<char>, count: nat)
    requires
        count <= text.len(),
        forall|i: int| 0 <= i < count ==> !is_whitespace(#[trigger] text[i]),
        count < text.len() ==> is_whitespace(text[count as int]),
    ensures
        word_len(text) == count,
    decreases count,
{
    if count == 0 {
    } else {
        let rest = text.drop_first();
        assert(!is_whitespace(text[0]));
        assert forall|i: int| 0 <= i < count - 1 implies !is_whitespace(#[trigger] rest[i]) by {
            assert(rest[i] == text[i + 1]);
        }
        lemma_word_len_is(rest, (count - 1) as nat);
    }
}

/// Tells whether `c` is whitespace.
pub fn whitespace(c: char) -> (yes: bool)
    ensures
        yes == is_whitespace(c),
{
    ('\u{9}' <= c && c <= '\u{d}') || c == ' ' || c == '\u{85}' || c == '\u{a0}' || c == '\u{1680}'
        || ('\u{2000}' <= c && c <= '\u{200a}') || c == '\u{2028}' || c == '\u{2029}' || c
        == '\u{202f}' || c == '\u{205f}' || c == '\u{3000}'
}

/// The words of the parts, as sequences of characters.
pub open spec fn texts(parts: Seq<&str>) -> Seq<Seq<char>> {
    Seq::new(parts.len(), |i: int| parts[i]@)
}

/// Splits `text` at its whitespace and hands back the words in between,
/// first to last. Whitespace at either end, and more than one whitespace
/// in a row, give no empty word.
pub fn split_whitespace<'a>(text: &'a str) -> (parts: Vec<&'a str>)
    ensures
        texts(parts@) == words(text@),
{
    let len: usize = text.unicode_len();
    let mut parts: Vec<&'a str> = Vec::new();
    let mut at: usize = 0;
    proof {
        assert(text@.skip(0) =~= text@);
        assert(texts(parts@) =~= Seq::<Seq<char>>::empty());
    }
    while at < len
        invariant
            at <= len,
            len == text@.len(),
            texts(parts@) + words(text@.skip(at as int)) == words(text@),
        decreases len - at,
    {
        let ghost rest = text@.skip(at as int);
        assert(rest[0] == text@[at as int]);
        if whitespace(text.get_char(at)) {
            assert(rest.drop_first() =~= text@.skip(at as int + 1));
            at = at + 1;
        } else {
            let start: usize = at;
            at = at + 1;
            while at < len && !whitespace(text.get_char(at))
                invariant
                    start < at <= len,
                    len == text@.len(),
                    forall|i: int| start <= i < at ==> !is_whitespace(#[trigger] text@[i]),
                decreases len - at,
            {
                at = at + 1;
            }
            let word = text.substring_char(start, at);
            proof {
                let count = (at - start) as nat;
                assert forall|i: int| 0 <= i < count implies !is_whitespace(#[trigger] rest[i]) by {
                    assert(rest[i] == text@[start + i]);
                }
                if count < rest.len() {
                    assert(rest[count as int] == text@[at as int]);
                }
                lemma_word_len_is(rest, count);
                assert(rest.take(count as int) =~= text@.subrange(start as int, at as int));
                assert(rest.skip(count as int) =~= text@.skip(at as int));
                let before = texts(parts@);
                assert(texts(parts@.push(word)) =~= before + seq![word@]);
                assert(before + (seq![word@] + words(text@.skip(at as int))) =~= (before
                    + seq![word@]) + words(text@.skip(at as int)));
            }
            parts.push(word);
        }
    }
    proof {
        assert(text@.skip(at as int) =~= Seq::<char>::empty());
        assert(texts(parts@) + Seq::<Seq<char>>::empty() =~= texts(parts@));
    }
    parts
}

} // verus!
