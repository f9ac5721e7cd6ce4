//! The tally: four monotonically growing counters and the optional name
//! of the source they describe.
//!
//! `Wc::count` consumes the records of the input (each record already
//! stripped of its line terminator) and adds, for every record, one to
//! `lines`, its UTF-8 byte length to `bytes`, its number of Unicode
//! scalar values to `chars`, and its number of whitespace-delimited
//! tokens to `words`.  The byte count deliberately excludes the line
//! terminators themselves.

use vstd::prelude::*;
use vstd::string::StrSliceExecFns;

use crate::text::byte_len;
use crate::text::line_word_count;
use crate::text::word_count;

verus! {

/// Mathematical model of a tally: the four counts and the optional
/// source name.
pub struct Tally {
    pub bytes: nat,
    pub lines: nat,
    pub words: nat,
    pub chars: nat,
    pub name: Option<Seq<char>>,
}

/// The counters of one run, together with the name of the file they were
/// taken from (absent when the input is the standard input stream).
pub struct Wc {
    pub bytes: usize,
    pub lines: usize,
    pub words: usize,
    pub chars: usize,
    pub file: Option<String>,
}

/// The name an optional file path contributes to the model.
pub open spec fn name_view(file: Option<String>) -> Option<Seq<char>> {
    match file {
        Some(f) => Some(f@),
        None => None,
    }
}

impl View for Wc {
    type V = Tally;

    open spec fn view(&self) -> Tally {
        Tally {
            bytes: self.bytes as nat,
            lines: self.lines as nat,
            words: self.words as nat,
            chars: self.chars as nat,
            name: name_view(self.file),
        }
    }
}

/// Total number of whitespace-delimited tokens over all records.
pub open spec fn total_words(ls: Seq<Seq<char>>) -> nat
    decreases ls.len(),
{
    if ls.len() == 0 {
        0
    } else {
        total_words(ls.drop_last()) + word_count(ls.last())
    }
}

/// Total number of Unicode scalar values over all records.
pub open spec fn total_chars(ls: Seq<Seq<char>>) -> nat
    decreases ls.len(),
{
    if ls.len() == 0 {
        0
    } else {
        total_chars(ls.drop_last()) + ls.last().len()
    }
}

/// Total UTF-8 byte length over all records, line terminators excluded.
pub open spec fn total_bytes(ls: Seq<Seq<char>>) -> nat
    decreases ls.len(),
{
    if ls.len() == 0 {
        0
    } else {
        total_bytes(ls.drop_last()) + byte_len(ls.last())
    }
}

/// Extending a prefix of the records by one record grows each total by
/// that record's own contribution.
proof fn lemma_totals_take_step(ls: Seq<Seq<char>>, i: int)
    requires
        0 <= i < ls.len(),
    ensures
        total_words(ls.take(i + 1)) == total_words(ls.take(i)) + word_count(ls[i]),
        total_chars(ls.take(i + 1)) == total_chars(ls.take(i)) + ls[i].len(),
        total_bytes(ls.take(i + 1)) == total_bytes(ls.take(i)) + byte_len(ls[i]),
{
    assert(ls.take(i + 1).drop_last() =~= ls.take(i));
    assert(ls.take(i + 1).last() == ls[i]);
}

/// The totals of a prefix never exceed the totals of the whole input.
proof fn lemma_totals_take_le(ls: Seq<Seq<char>>, i: int)
    requires
        0 <= i <= ls.len(),
    ensures
        total_words(ls.take(i)) <= total_words(ls),
        total_chars(ls.take(i)) <= total_chars(ls),
        total_bytes(ls.take(i)) <= total_bytes(ls),
    decreases ls.len() - i,
{
    if i == ls.len() {
        assert(ls.take(i) =~= ls);
    } else {
        lemma_totals_take_step(ls, i);
        lemma_totals_take_le(ls, i + 1);
    }
}

/// For input whose every record is seven-bit ASCII, the character total
/// equals the byte total.
pub proof fn lemma_ascii_totals(ls: Seq<Seq<char>>)
    requires
        forall|i: int| 0 <= i < ls.len() ==> vstd::utf8::is_ascii_chars(#[trigger] ls[i]),
    ensures
        total_chars(ls) == total_bytes(ls),
    decreases ls.len(),
{
    if ls.len() > 0 {
        assert(forall|i: int|
            0 <= i < ls.drop_last().len() ==> vstd::utf8::is_ascii_chars(
                #[trigger] ls.drop_last()[i],
            ));
        lemma_ascii_totals(ls.drop_last());
        crate::text::lemma_ascii_byte_len(ls.last());
    }
}

impl Wc {
    /// A fresh tally: every counter zero, the source name as given.
    pub fn new(file: Option<String>) -> (w: Wc)
        ensures
            w@.bytes == 0,
            w@.lines == 0,
            w@.words == 0,
            w@.chars == 0,
            w@.name == name_view(file),
    {
        Wc { bytes: 0, lines: 0, words: 0, chars: 0, file }
    }

    /// Adds one record to the tally: one line, the record's UTF-8 byte
    /// length, its scalar-value count, and its token count.
    pub fn count_line(&mut self, line: &str)
        requires
            old(self)@.lines + 1 <= usize::MAX,
            old(self)@.bytes + byte_len(line@) <= usize::MAX,
            old(self)@.chars + line@.len() <= usize::MAX,
            old(self)@.words + word_count(line@) <= usize::MAX,
        ensures
            final(self)@.lines == old(self)@.lines + 1,
            final(self)@.bytes == old(self)@.bytes + byte_len(line@),
            final(self)@.chars == old(self)@.chars + line@.len(),
            final(self)@.words == old(self)@.words + word_count(line@),
            final(self)@.name == old(self)@.name,
    {
        self.lines = self.lines + 1;
        self.bytes = self.bytes + line.len();
        self.chars = self.chars + line.unicode_len();
        self.words = self.words + line_word_count(line);
    }

    /// Adds every record of `lines` to the tally, in order: afterwards
    /// `lines` has grown by the number of records and `bytes`, `chars`
    /// and `words` by the records' summed byte lengths, scalar-value
    /// counts and token counts.
    pub fn count(&mut self, lines: &Vec<String>)
        requires
            old(self)@.lines + lines@.len() <= usize::MAX,
            old(self)@.bytes + total_bytes(lines.deep_view()) <= usize::MAX,
            old(self)@.chars + total_chars(lines.deep_view()) <= usize::MAX,
            old(self)@.words + total_words(lines.deep_view()) <= usize::MAX,
        ensures
            final(self)@.lines == old(self)@.lines + lines@.len(),
            final(self)@.bytes == old(self)@.bytes + total_bytes(lines.deep_view()),
            final(self)@.chars == old(self)@.chars + total_chars(lines.deep_view()),
            final(self)@.words == old(self)@.words + total_words(lines.deep_view()),
            final(self)@.name == old(self)@.name,
    {
        let ghost lv = lines.deep_view();
        proof {
            assert(lv.take(0) =~= Seq::<Seq<char>>::empty());
        }
        let n = lines.len();
        let mut i: usize = 0;
        while i < n
            invariant
                i <= n,
                n == lines@.len(),
                lv == lines.deep_view(),
                old(self)@.lines + lv.len() <= usize::MAX,
                old(self)@.bytes + total_bytes(lv) <= usize::MAX,
                old(self)@.chars + total_chars(lv) <= usize::MAX,
                old(self)@.words + total_words(lv) <= usize::MAX,
                self@.lines == old(self)@.lines + i,
                self@.bytes == old(self)@.bytes + total_bytes(lv.take(i as int)),
                self@.chars == old(self)@.chars + total_chars(lv.take(i as int)),
                self@.words == old(self)@.words + total_words(lv.take(i as int)),
                self@.name == old(self)@.name,
            decreases n - i,
        {
            proof {
                lemma_totals_take_step(lv, i as int);
                lemma_totals_take_le(lv, i as int + 1);
                assert(lv[i as int] == lines@[i as int]@);
            }
            self.count_line(lines[i].as_str());
            i = i + 1;
        }
        proof {
            assert(lv.take(n as int) =~= lv);
        }
    }

    /// The name of the counted source, when one was given.
    pub fn get_filename(&self) -> (r: Option<String>)
        ensures
            name_view(r) == self@.name,
    {
        match &self.file {
            Some(f) => Some(f.clone()),
            None => None,
        }
    }
}

} // verus!
