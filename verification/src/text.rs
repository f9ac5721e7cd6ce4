//! Character classification and per-line counting.
//!
//! A line is modelled as its sequence of Unicode scalar values
//! (`Seq<char>`); its byte count is the length of the UTF-8 encoding of
//! that sequence, and its word count is the number of maximal runs of
//! non-whitespace characters.

use vstd::prelude::*;
use vstd::string::StrSliceExecFns;

verus! {

/// The Unicode `White_Space` code points: the separators that word
/// splitting recognises.
pub open spec fn is_ws(c: char) -> bool {
    let u = c as u32;
    (0x09 <= u && u <= 0x0D) || u == 0x20 || u == 0x85 || u == 0xA0 || u == 0x1680 || (0x2000
        <= u && u <= 0x200A) || u == 0x2028 || u == 0x2029 || u == 0x202F || u == 0x205F || u
        == 0x3000
}

/// Decides whether `c` separates words.
pub fn ws_char(c: char) -> (b: bool)
    ensures
        b == is_ws(c),
{
    let u = c as u32;
    (0x09 <= u && u <= 0x0D) || u == 0x20 || u == 0x85 || u == 0xA0 || u == 0x1680 || (0x2000
        <= u && u <= 0x200A) || u == 0x2028 || u == 0x2029 || u == 0x202F || u == 0x205F || u
        == 0x3000
}

/// Number of words in `s` when scanned left to right, where `prev_ws`
/// says whether the position just before `s` counts as whitespace: a
/// word begins at each non-whitespace character that follows whitespace
/// or the start of the text.
pub open spec fn words_from(s: Seq<char>, prev_ws: bool) -> nat
    decreases s.len(),
{
    if s.len() == 0 {
        0
    } else {
        (if prev_ws && !is_ws(s[0]) {
            1nat
        } else {
            0nat
        }) + words_from(s.drop_first(), is_ws(s[0]))
    }
}

/// Number of maximal whitespace-delimited non-empty tokens in `s`.
pub open spec fn word_count(s: Seq<char>) -> nat {
    words_from(s, true)
}

/// Length in bytes of the UTF-8 encoding of `s`.
pub open spec fn byte_len(s: Seq<char>) -> nat {
    vstd::utf8::encode_utf8(s).len()
}

/// `s` with every maximal run of whitespace collapsed into one plain
/// space.
pub open spec fn normalize_ws(s: Seq<char>) -> Seq<char>
    decreases s.len(),
{
    if s.len() == 0 {
        Seq::empty()
    } else {
        let rest = normalize_ws(s.drop_first());
        if is_ws(s[0]) {
            if rest.len() > 0 && rest[0] == ' ' {
                rest
            } else {
                seq![' '] + rest
            }
        } else {
            seq![s[0]] + rest
        }
    }
}

proof fn lemma_words_from_normalize(s: Seq<char>, prev_ws: bool)
    ensures
        words_from(normalize_ws(s), prev_ws) == words_from(s, prev_ws),
    decreases s.len(),
{
    if s.len() > 0 {
        let rest = normalize_ws(s.drop_first());
        if is_ws(s[0]) {
            lemma_words_from_normalize(s.drop_first(), true);
            if rest.len() > 0 && rest[0] == ' ' {
                assert(words_from(rest, prev_ws) == words_from(rest.drop_first(), true));
                assert(words_from(rest, true) == words_from(rest.drop_first(), true));
            } else {
                assert((seq![' '] + rest)[0] == ' ');
                assert((seq![' '] + rest).drop_first() =~= rest);
            }
        } else {
            lemma_words_from_normalize(s.drop_first(), false);
            assert((seq![s[0]] + rest)[0] == s[0]);
            assert((seq![s[0]] + rest).drop_first() =~= rest);
        }
    }
}

/// Collapsing runs of whitespace does not change the word count:
/// splitting is idempotent under whitespace normalization.
pub proof fn lemma_word_count_normalize(s: Seq<char>)
    ensures
        word_count(normalize_ws(s)) == word_count(s),
{
    lemma_words_from_normalize(s, true);
}

/// Characters are Unicode scalar values, not bytes: for a text of
/// seven-bit ASCII characters, and only then, the character count and
/// the UTF-8 byte count coincide.
pub proof fn lemma_ascii_byte_len(s: Seq<char>)
    requires
        vstd::utf8::is_ascii_chars(s),
    ensures
        byte_len(s) == s.len(),
{
    vstd::utf8::is_ascii_chars_encode_utf8(s);
}

/// Counts the whitespace-delimited tokens of one line.
pub fn line_word_count(s: &str) -> (n: usize)
    ensures
        n == word_count(s@),
{
    let len: usize = s.unicode_len();
    let mut n: usize = 0;
    let mut prev_ws: bool = true;
    let mut i: usize = 0;
    proof {
        assert(s@.skip(0) =~= s@);
    }
    while i < len
        invariant
            i <= len,
            n <= i,
            len == s@.len(),
            word_count(s@) == n + words_from(s@.skip(i as int), prev_ws),
        decreases len - i,
    {
        let c = s.get_char(i);
        proof {
            let rest = s@.skip(i as int);
            assert(rest[0] == s@[i as int]);
            assert(rest.drop_first() =~= s@.skip(i as int + 1));
        }
        let ws = ws_char(c);
        if prev_ws && !ws {
            n = n + 1;
        }
        prev_ws = ws;
        i = i + 1;
    }
    proof {
        assert(s@.skip(len as int) =~= Seq::<char>::empty());
    }
    n
}

} // verus!
