use wc::tally::Wc;

fn counted(file: Option<&str>, records: &[&str]) -> Wc {
    let mut w = Wc::new(file.map(|f| f.to_string()));
    let owned: Vec<String> = records.iter().map(|r| r.to_string()).collect();
    w.count(&owned);
    w
}

#[test]
fn default_two_records() {
    let w = counted(None, &["hello world", "foo"]);
    assert_eq!(w.render(false, false, false, false), "2 3 14\n");
}

#[test]
fn words_flag_with_file() {
    let w = counted(Some("a.txt"), &["a b c"]);
    assert_eq!(w.render(false, false, true, false), "3 words, a.txt\n");
}

#[test]
fn empty_input_default() {
    let w = counted(None, &[]);
    assert_eq!(w.render(false, false, false, false), "0 0 0\n");
}

#[test]
fn empty_input_selective() {
    let w = counted(None, &[]);
    assert_eq!(
        w.render(true, true, true, true),
        "0 bytes\n0 lines\n0 words\n0 chars\n"
    );
}

#[test]
fn bytes_and_lines_with_file() {
    let w = counted(Some("x.txt"), &["ab", "cd"]);
    assert_eq!(
        w.render(true, true, false, false),
        "4 bytes, x.txt\n2 lines, x.txt\n"
    );
}

#[test]
fn default_line_with_filename() {
    let w = counted(Some("f.txt"), &["x"]);
    assert_eq!(w.render(false, false, false, false), "1 1 1 f.txt\n");
}

#[test]
fn all_flags_come_in_fixed_order() {
    let w = counted(Some("x.txt"), &["ab cd"]);
    assert_eq!(
        w.render(true, true, true, true),
        "5 bytes, x.txt\n1 lines, x.txt\n2 words, x.txt\n5 chars, x.txt\n"
    );
}

#[test]
fn default_mode_prints_no_labels() {
    let out = counted(None, &["one two"]).render(false, false, false, false);
    assert!(!out.contains("bytes"));
    assert!(!out.contains("lines"));
    assert!(!out.contains("words"));
    assert!(!out.contains("chars"));
    assert_eq!(out, "1 2 7\n");
}

#[test]
fn flag_mode_never_prints_default_line() {
    let w = counted(None, &["one two"]);
    let out = w.render(false, true, false, false);
    assert_ne!(out, "1 2 7\n");
    assert_eq!(out, "1 lines\n");
}

#[test]
fn collapsed_whitespace_keeps_word_count() {
    let sparse = counted(None, &["a   b  c"]);
    let dense = counted(None, &["a b c"]);
    assert_eq!(sparse.words, 3);
    assert_eq!(dense.words, 3);
    assert_eq!(
        sparse.render(false, false, true, false),
        dense.render(false, false, true, false)
    );
}

#[test]
fn leading_and_trailing_whitespace_makes_no_tokens() {
    let w = counted(None, &["  one two  "]);
    assert_eq!(w.words, 2);
    assert_eq!(w.chars, 11);
    assert_eq!(w.render(false, false, false, true), "11 chars\n");
}

#[test]
fn ascii_chars_equal_bytes() {
    let w = counted(None, &["hello"]);
    assert_eq!(w.bytes, 5);
    assert_eq!(w.chars, 5);
    assert_eq!(w.render(true, false, false, true), "5 bytes\n5 chars\n");
}

#[test]
fn multibyte_chars_counted_as_scalars() {
    let w = counted(None, &["h\u{e9}llo w\u{f6}rld"]);
    assert_eq!(w.bytes, 13);
    assert_eq!(w.chars, 11);
    assert_eq!(w.render(true, false, false, true), "13 bytes\n11 chars\n");
}

#[test]
fn unicode_whitespace_separates_words() {
    let w = counted(None, &["one\u{3000}two"]);
    assert_eq!(w.words, 2);
    let tabbed = counted(None, &["a\tb"]);
    assert_eq!(tabbed.words, 2);
}

#[test]
fn multi_digit_counts_render_in_decimal() {
    let records: Vec<String> = (0..105).map(|_| String::new()).collect();
    let mut w = Wc::new(None);
    w.count(&records);
    assert_eq!(w.render(false, false, false, false), "105 0 0\n");
    assert_eq!(w.render(false, true, false, false), "105 lines\n");
}

#[test]
fn empty_records_still_count_as_lines() {
    let w = counted(None, &["", "a"]);
    assert_eq!(w.lines, 2);
    assert_eq!(w.render(false, false, false, false), "2 1 1\n");
}

#[test]
fn count_line_accumulates() {
    let mut w = Wc::new(None);
    w.count_line("ab");
    w.count_line("c d");
    assert_eq!(w.lines, 2);
    assert_eq!(w.bytes, 5);
    assert_eq!(w.chars, 5);
    assert_eq!(w.words, 3);
    assert_eq!(w.render(false, false, false, false), "2 3 5\n");
}

#[test]
fn get_filename_returns_the_source_name() {
    let named = Wc::new(Some("a.txt".to_string()));
    assert_eq!(named.get_filename(), Some("a.txt".to_string()));
    let anonymous = Wc::new(None);
    assert_eq!(anonymous.get_filename(), None);
}
