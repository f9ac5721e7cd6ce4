//! Rendering a tally as the text the program prints.
//!
//! A report is first described abstractly as a sequence of lines
//! ([`render_plan`]): with no selector flag set it is the single plain
//! `<lines> <words> <chars>` line, and with any flag set it is one
//! labelled `<count> <unit>` line per requested metric, always in the
//! fixed order bytes, lines, words, chars.  [`render_spec`] turns that
//! plan into the exact character sequence, and [`Wc::render`] produces
//! a `String` equal to it.

use vstd::prelude::*;
use vstd::string::StringExecFns;

use crate::tally::name_view;
use crate::tally::Tally;
use crate::tally::Wc;

verus! {

/// The four metrics a report can show, in their fixed output order.
pub enum Metric {
    Bytes,
    Lines,
    Words,
    Chars,
}

/// Position of a metric in the fixed output order.
pub open spec fn metric_rank(m: Metric) -> int {
    match m {
        Metric::Bytes => 0,
        Metric::Lines => 1,
        Metric::Words => 2,
        Metric::Chars => 3,
    }
}

/// The unit label printed beside metric `m` in selective mode.
pub open spec fn label_text(m: Metric) -> Seq<char> {
    match m {
        Metric::Bytes => "bytes"@,
        Metric::Lines => "lines"@,
        Metric::Words => "words"@,
        Metric::Chars => "chars"@,
    }
}

/// One line of a report: the plain default line, or one labelled metric.
pub enum OutLine {
    Plain { lines: nat, words: nat, chars: nat, name: Option<Seq<char>> },
    Labeled { metric: Metric, count: nat, name: Option<Seq<char>> },
}

/// The metric a labelled line shows.
pub open spec fn line_metric(ol: OutLine) -> Metric
    recommends
        ol is Labeled,
{
    match ol {
        OutLine::Labeled { metric, .. } => metric,
        OutLine::Plain { .. } => Metric::Bytes,
    }
}

/// The lines of the report for tally `t` under the four selector flags,
/// in the order they are printed.
pub open spec fn render_plan(t: Tally, bytes: bool, lines: bool, words: bool, chars: bool) -> Seq<
    OutLine,
> {
    if !bytes && !lines && !words && !chars {
        seq![OutLine::Plain { lines: t.lines, words: t.words, chars: t.chars, name: t.name }]
    } else {
        (if bytes {
            seq![OutLine::Labeled { metric: Metric::Bytes, count: t.bytes, name: t.name }]
        } else {
            Seq::empty()
        }) + (if lines {
            seq![OutLine::Labeled { metric: Metric::Lines, count: t.lines, name: t.name }]
        } else {
            Seq::empty()
        }) + (if words {
            seq![OutLine::Labeled { metric: Metric::Words, count: t.words, name: t.name }]
        } else {
            Seq::empty()
        }) + (if chars {
            seq![OutLine::Labeled { metric: Metric::Chars, count: t.chars, name: t.name }]
        } else {
            Seq::empty()
        })
    }
}

/// The decimal digit character for `d`.
pub open spec fn digit_char(d: nat) -> char
    recommends
        d < 10,
{
    if d == 0 {
        '0'
    } else if d == 1 {
        '1'
    } else if d == 2 {
        '2'
    } else if d == 3 {
        '3'
    } else if d == 4 {
        '4'
    } else if d == 5 {
        '5'
    } else if d == 6 {
        '6'
    } else if d == 7 {
        '7'
    } else if d == 8 {
        '8'
    } else {
        '9'
    }
}

/// The decimal digits of `n`, most significant first, without leading
/// zeroes (zero itself is the single digit `'0'`).
pub open spec fn dec_digits(n: nat) -> Seq<char>
    decreases n,
{
    if n < 10 {
        seq![digit_char(n)]
    } else {
        dec_digits(n / 10) + seq![digit_char(n % 10)]
    }
}

/// The `", name"` tail of a labelled line, empty without a file name.
pub open spec fn name_suffix(name: Option<Seq<char>>) -> Seq<char> {
    match name {
        Some(n) => seq![',', ' '] + n,
        None => Seq::empty(),
    }
}

/// The text of one report line, terminating newline included.
pub open spec fn line_text(ol: OutLine) -> Seq<char> {
    match ol {
        OutLine::Plain { lines, words, chars, name } => dec_digits(lines) + seq![' ']
            + dec_digits(words) + seq![' '] + dec_digits(chars) + (match name {
            Some(n) => seq![' '] + n,
            None => Seq::empty(),
        }) + seq!['\n'],
        OutLine::Labeled { metric, count, name } => dec_digits(count) + seq![' '] + label_text(
            metric,
        ) + name_suffix(name) + seq!['\n'],
    }
}

/// The concatenated texts of the lines of `plan`.
pub open spec fn texts_of(plan: Seq<OutLine>) -> Seq<char>
    decreases plan.len(),
{
    if plan.len() == 0 {
        Seq::empty()
    } else {
        line_text(plan[0]) + texts_of(plan.drop_first())
    }
}

/// Everything the program prints for tally `t` under the given flags.
pub open spec fn render_spec(t: Tally, bytes: bool, lines: bool, words: bool, chars: bool) -> Seq<
    char,
> {
    texts_of(render_plan(t, bytes, lines, words, chars))
}

/// True of the characters the plain default line is built from: decimal
/// digits, separating spaces, the terminating newline, and the file
/// name's own characters.
pub open spec fn plain_line_char(c: char, name: Option<Seq<char>>) -> bool {
    ('0' <= c && c <= '9') || c == ' ' || c == '\n' || (match name {
        Some(n) => n.contains(c),
        None => false,
    })
}

proof fn lemma_dec_digits_chars(n: nat)
    ensures
        forall|i: int| 0 <= i < dec_digits(n).len() ==> '0' <= #[trigger] dec_digits(n)[i] <= '9',
    decreases n,
{
    if n < 10 {
        assert(dec_digits(n)[0] == digit_char(n));
    } else {
        lemma_dec_digits_chars(n / 10);
        let head = dec_digits(n / 10);
        assert forall|i: int| 0 <= i < dec_digits(n).len() implies '0' <= #[trigger] dec_digits(
            n,
        )[i] <= '9' by {
            if i < head.len() {
                assert(dec_digits(n)[i] == head[i]);
            } else {
                assert(dec_digits(n)[i] == digit_char(n % 10));
            }
        }
    }
}

/// With no flag requested, the report is exactly the one plain
/// `<lines> <words> <chars>` line: it holds only digits, spaces, the
/// newline and the file name, so no unit label is ever printed.
pub proof fn lemma_default_mode_plain(t: Tally)
    ensures
        render_plan(t, false, false, false, false) == seq![
            (OutLine::Plain { lines: t.lines, words: t.words, chars: t.chars, name: t.name }),
        ],
        forall|i: int|
            0 <= i < render_plan(t, false, false, false, false).len() ==> render_plan(
                t,
                false,
                false,
                false,
                false,
            )[i] is Plain,
        render_spec(t, false, false, false, false) == line_text(
            OutLine::Plain { lines: t.lines, words: t.words, chars: t.chars, name: t.name },
        ),
        forall|i: int|
            0 <= i < render_spec(t, false, false, false, false).len() ==> plain_line_char(
                #[trigger] render_spec(t, false, false, false, false)[i],
                t.name,
            ),
{
    let ol = OutLine::Plain { lines: t.lines, words: t.words, chars: t.chars, name: t.name };
    lemma_texts_of_single(ol);
    lemma_dec_digits_chars(t.lines);
    lemma_dec_digits_chars(t.words);
    lemma_dec_digits_chars(t.chars);
    let full = line_text(ol);
    let a = dec_digits(t.lines);
    let b = dec_digits(t.words);
    let c = dec_digits(t.chars);
    let base = a.len() + b.len() + c.len() + 2;
    assert forall|i: int| 0 <= i < full.len() implies plain_line_char(full[i], t.name) by {
        match t.name {
            Some(n) => {
                if base + 1 <= i < base + 1 + n.len() {
                    let k = i - (base + 1);
                    assert(full[i] == n[k]);
                    assert(n.contains(n[k]));
                }
            },
            None => {},
        }
    }
}

/// With any flag requested, every printed line is a labelled metric
/// line — the plain default line never appears — and the requested
/// metrics come out in the fixed order bytes, lines, words, chars,
/// whatever order the flags were chosen in.
pub proof fn lemma_selective_mode_lines(t: Tally, bytes: bool, lines: bool, words: bool, chars: bool)
    requires
        bytes || lines || words || chars,
    ensures
        render_plan(t, bytes, lines, words, chars).len() >= 1,
        forall|i: int|
            0 <= i < render_plan(t, bytes, lines, words, chars).len() ==> render_plan(
                t,
                bytes,
                lines,
                words,
                chars,
            )[i] is Labeled,
        forall|i: int, j: int|
            0 <= i < j < render_plan(t, bytes, lines, words, chars).len() ==> metric_rank(
                line_metric(render_plan(t, bytes, lines, words, chars)[i]),
            ) < metric_rank(line_metric(render_plan(t, bytes, lines, words, chars)[j])),
{
}

proof fn lemma_texts_of_concat(a: Seq<OutLine>, b: Seq<OutLine>)
    ensures
        texts_of(a + b) == texts_of(a) + texts_of(b),
    decreases a.len(),
{
    if a.len() == 0 {
        assert(a + b =~= b);
        assert(texts_of(a) + texts_of(b) =~= texts_of(b));
    } else {
        assert((a + b).drop_first() =~= a.drop_first() + b);
        lemma_texts_of_concat(a.drop_first(), b);
        assert((a + b)[0] == a[0]);
        assert(texts_of(a + b) =~= texts_of(a) + texts_of(b));
    }
}

proof fn lemma_texts_of_single(ol: OutLine)
    ensures
        texts_of(seq![ol]) == line_text(ol),
{
    assert(seq![ol].drop_first() =~= Seq::<OutLine>::empty());
    assert(texts_of(Seq::<OutLine>::empty()) =~= Seq::<char>::empty());
    assert(texts_of(seq![ol]) =~= line_text(ol));
}

/// Appends the decimal digit character for `d`.
fn push_digit(out: &mut String, d: usize)
    requires
        d < 10,
    ensures
        final(out)@ == old(out)@ + seq![digit_char(d as nat)],
{
    match d {
        0 => {
            out.append("0");
            proof {
                reveal_strlit("0");
                assert(final(out)@ =~= old(out)@ + seq![digit_char(d as nat)]);
            }
        },
        1 => {
            out.append("1");
            proof {
                reveal_strlit("1");
                assert(final(out)@ =~= old(out)@ + seq![digit_char(d as nat)]);
            }
        },
        2 => {
            out.append("2");
            proof {
                reveal_strlit("2");
                assert(final(out)@ =~= old(out)@ + seq![digit_char(d as nat)]);
            }
        },
        3 => {
            out.append("3");
            proof {
                reveal_strlit("3");
                assert(final(out)@ =~= old(out)@ + seq![digit_char(d as nat)]);
            }
        },
        4 => {
            out.append("4");
            proof {
                reveal_strlit("4");
                assert(final(out)@ =~= old(out)@ + seq![digit_char(d as nat)]);
            }
        },
        5 => {
            out.append("5");
            proof {
                reveal_strlit("5");
                assert(final(out)@ =~= old(out)@ + seq![digit_char(d as nat)]);
            }
        },
        6 => {
            out.append("6");
            proof {
                reveal_strlit("6");
                assert(final(out)@ =~= old(out)@ + seq![digit_char(d as nat)]);
            }
        },
        7 => {
            out.append("7");
            proof {
                reveal_strlit("7");
                assert(final(out)@ =~= old(out)@ + seq![digit_char(d as nat)]);
            }
        },
        8 => {
            out.append("8");
            proof {
                reveal_strlit("8");
                assert(final(out)@ =~= old(out)@ + seq![digit_char(d as nat)]);
            }
        },
        _ => {
            out.append("9");
            proof {
                reveal_strlit("9");
                assert(final(out)@ =~= old(out)@ + seq![digit_char(d as nat)]);
            }
        },
    }
}

/// Appends the decimal representation of `n`.
fn push_dec(out: &mut String, n: usize)
    ensures
        final(out)@ == old(out)@ + dec_digits(n as nat),
    decreases n,
{
    if n < 10 {
        push_digit(out, n);
    } else {
        push_dec(out, n / 10);
        push_digit(out, n % 10);
        proof {
            assert(final(out)@ =~= old(out)@ + dec_digits(n as nat));
        }
    }
}

/// Appends `", name"` when a file name is present, nothing otherwise.
fn push_name_suffix(out: &mut String, file: &Option<String>)
    ensures
        final(out)@ == old(out)@ + name_suffix(name_view(*file)),
{
    match file {
        Some(f) => {
            out.append(", ");
            out.append(f.as_str());
            proof {
                reveal_strlit(", ");
                assert(final(out)@ =~= old(out)@ + name_suffix(name_view(*file)));
            }
        },
        None => {},
    }
}

/// Appends one labelled metric line; `label` must be a single space
/// followed by the unit label of the metric `m`.
fn push_metric_line(out: &mut String, count: usize, label: &str, file: &Option<String>, Ghost(m): Ghost<Metric>)
    requires
        label@ == seq![' '] + label_text(m),
    ensures
        final(out)@ == old(out)@ + line_text(
            OutLine::Labeled { metric: m, count: count as nat, name: name_view(*file) },
        ),
{
    push_dec(out, count);
    out.append(label);
    push_name_suffix(out, file);
    out.append("\n");
    proof {
        reveal_strlit("\n");
        assert(final(out)@ =~= old(out)@ + line_text(
            OutLine::Labeled { metric: m, count: count as nat, name: name_view(*file) },
        ));
    }
}

impl Wc {
    /// The full text the program prints for this tally under the four
    /// selector flags.
    pub fn render(&self, bytes: bool, lines: bool, words: bool, chars: bool) -> (out: String)
        ensures
            out@ == render_spec(self@, bytes, lines, words, chars),
    {
        let ghost t = self@;
        let mut out = String::new();
        if !bytes && !lines && !words && !chars {
            push_dec(&mut out, self.lines);
            out.append(" ");
            push_dec(&mut out, self.words);
            out.append(" ");
            push_dec(&mut out, self.chars);
            match &self.file {
                Some(f) => {
                    out.append(" ");
                    out.append(f.as_str());
                },
                None => {},
            }
            out.append("\n");
            proof {
                reveal_strlit(" ");
                reveal_strlit("\n");
                let ol = OutLine::Plain {
                    lines: t.lines,
                    words: t.words,
                    chars: t.chars,
                    name: t.name,
                };
                lemma_texts_of_single(ol);
                assert(out@ =~= line_text(ol));
            }
        } else {
            let ghost pb: Seq<OutLine> = if bytes {
                seq![OutLine::Labeled { metric: Metric::Bytes, count: t.bytes, name: t.name }]
            } else {
                Seq::empty()
            };
            let ghost pl: Seq<OutLine> = if lines {
                seq![OutLine::Labeled { metric: Metric::Lines, count: t.lines, name: t.name }]
            } else {
                Seq::empty()
            };
            let ghost pw: Seq<OutLine> = if words {
                seq![OutLine::Labeled { metric: Metric::Words, count: t.words, name: t.name }]
            } else {
                Seq::empty()
            };
            let ghost pc: Seq<OutLine> = if chars {
                seq![OutLine::Labeled { metric: Metric::Chars, count: t.chars, name: t.name }]
            } else {
                Seq::empty()
            };
            if bytes {
                proof {
                    reveal_strlit(" bytes");
                    reveal_strlit("bytes");
                    assert((" bytes")@ =~= seq![' '] + label_text(Metric::Bytes));
                }
                push_metric_line(&mut out, self.bytes, " bytes", &self.file, Ghost(Metric::Bytes));
            }
            proof {
                if bytes {
                    lemma_texts_of_single(pb[0]);
                }
                assert(out@ =~= texts_of(pb));
            }
            if lines {
                proof {
                    reveal_strlit(" lines");
                    reveal_strlit("lines");
                    assert((" lines")@ =~= seq![' '] + label_text(Metric::Lines));
                }
                push_metric_line(&mut out, self.lines, " lines", &self.file, Ghost(Metric::Lines));
            }
            proof {
                if lines {
                    lemma_texts_of_single(pl[0]);
                }
                lemma_texts_of_concat(pb, pl);
                assert(out@ =~= texts_of(pb + pl));
            }
            if words {
                proof {
                    reveal_strlit(" words");
                    reveal_strlit("words");
                    assert((" words")@ =~= seq![' '] + label_text(Metric::Words));
                }
                push_metric_line(&mut out, self.words, " words", &self.file, Ghost(Metric::Words));
            }
            proof {
                if words {
                    lemma_texts_of_single(pw[0]);
                }
                lemma_texts_of_concat(pb + pl, pw);
                assert(out@ =~= texts_of(pb + pl + pw));
            }
            if chars {
                proof {
                    reveal_strlit(" chars");
                    reveal_strlit("chars");
                    assert((" chars")@ =~= seq![' '] + label_text(Metric::Chars));
                }
                push_metric_line(&mut out, self.chars, " chars", &self.file, Ghost(Metric::Chars));
            }
            proof {
                if chars {
                    lemma_texts_of_single(pc[0]);
                }
                lemma_texts_of_concat(pb + pl + pw, pc);
                assert(out@ =~= texts_of(pb + pl + pw + pc));
                assert(render_plan(t, bytes, lines, words, chars) == pb + pl + pw + pc);
            }
        }
        out
    }
}

} // verus!
