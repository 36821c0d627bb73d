use craft::textfilter::text2words;

fn words(s: &str) -> String {
    text2words(s.to_string(), None)
}

#[test]
fn normalized_line_is_unchanged_by_a_second_pass() {
    let once = words("However, I like it. (Really!) \u{201e}Quoted\u{201c} words: non-alcoholic, O'raggley");
    assert_eq!(once, "however i like it really quoted words non-alcoholic o'raggley\n");
    assert_eq!(words(&once), once);
}

#[test]
fn empty_input_gives_empty_output() {
    assert_eq!(words(""), "");
    assert_eq!(words("   \t\n "), "");
    assert_eq!(words(&words("")), "");
}

#[test]
fn multi_line_output_is_joined_by_a_second_pass() {
    let once = words("abc \x07 def");
    assert_eq!(once, "abc\ndef\n");
    assert_eq!(words(&once), "abc def\n");
}

#[test]
fn each_marker_gives_one_line_break_without_spaces_around() {
    assert_eq!(words("one two \x07 three"), "one two\nthree\n");
    assert_eq!(words("a \x07 \x07 b"), "a\n\nb\n");
    assert_eq!(words("\x07 start"), "\nstart\n");
    assert_eq!(words("end \x07"), "end\n");
    assert_eq!(words("\x07"), "\n");
}

#[test]
fn marker_splits_as_the_law_states() {
    let a = "First words, here.";
    let b = "(then) more";
    let whole = words(&format!("{} \x07 {}", a, b));
    let before = words(a);
    assert_eq!(whole, format!("{}\n{}", before.trim_end_matches('\n'), words(b)));
}

#[test]
fn marker_glued_to_a_word_is_not_a_break() {
    assert_eq!(words("abc\x07 def"), "def\n");
}

#[test]
fn stop_words_are_dropped_after_lowercasing() {
    let stops = Some(vec!["the".to_string(), "a".to_string()]);
    assert_eq!(text2words("The cat saw a Dog".to_string(), stops), "cat saw dog\n");
}

#[test]
fn stop_words_do_not_remove_line_breaks() {
    let stops = Some(vec!["x".to_string()]);
    assert_eq!(text2words("x \x07 y".to_string(), stops), "\ny\n");
}

#[test]
fn short_words_must_be_letters_or_digits() {
    assert_eq!(words("a- -a ab 'b x1"), "ab x1\n");
    assert_eq!(words("--- a-b"), "a-b\n");
}

#[test]
fn words_start_with_a_letter_or_digit() {
    assert_eq!(words("-abc 'abc abc- ab'c"), "abc- ab'c\n");
}

#[test]
fn lowercasing_covers_non_ascii_letters() {
    assert_eq!(words("\u{c4}RGER \u{dc}ber"), "\u{e4}rger \u{fc}ber\n");
}

#[test]
fn unicode_white_space_separates_words() {
    assert_eq!(words("a\u{a0}b\u{3000}c\u{2003}d"), "a b c d\n");
}

#[test]
fn punctuation_is_stripped_at_both_ends() {
    assert_eq!(words("\u{2026}and ,so"), "and so\n");
    assert_eq!(words(",(quoted.)!"), "quoted\n");
}

#[test]
fn long_words_need_a_letter_or_digit_after_the_first() {
    assert_eq!(words("a-- a'' a-b x'y"), "a-b x'y\n");
}
