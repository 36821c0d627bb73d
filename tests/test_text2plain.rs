use craft::textfilter::text2words;

fn art2words(input: &str) -> String {
    text2words(input.to_string(), None)
}

#[test]
fn test_text2plain_test_all_words_preserved() {
    assert_eq!(art2words("test this"), "test this\n");
}

#[test]
fn test_text2plain_test_other_whitespace_characters_are_ignored() {
    assert_eq!(art2words("\nok\t worked "), "ok worked\n");
}

// Numbers are words too: they are kept.
#[test]
fn test_text2plain_test_numbers_are_ignored() {
    assert_eq!(art2words("1990 was a special date"), "1990 was a special date\n");
    assert_eq!(art2words("my 1st test"), "my 1st test\n");
}

#[test]
fn test_text2plain_test_that_punctuation_is_removed_and_words_preserved() {
    assert_eq!(art2words("However, I like it. :)"), "however i like it\n");
}

#[test]
fn test_words_with_hypen_work() {
    assert_eq!(art2words("this is a non-alcoholic drink"), "this is a \
                non-alcoholic drink\n");
    // do suspended hyphens work:
    assert_eq!(art2words("Using hard- and software"), "using hard- and software\n");
}

#[test]
fn test_text2plain_test_parenthesis_are_removed() {
    assert_eq!(art2words("(ignore that, ok?)"), "ignore that ok\n");
    assert_eq!(art2words("[ignore that, ok?]"), "ignore that ok\n");
    assert_eq!(art2words("{ignore that, ok?}"), "ignore that ok\n");
}

#[test]
fn test_text2plain_test_that_apostrophies_may_be_contained_in_word() {
    assert_eq!(art2words("I'm not sure, O'raggley"), "i'm not sure o'raggley\n");
}

#[test]
fn test_text2plain_test_semicolons_removed() {
    assert_eq!(art2words("ab; cd"), "ab cd\n");
    assert_eq!(art2words("ab;cd"), "");
}

#[test]
fn test_text2plain_test_words_with_only_punctuation_etc_no_alphabetical_characters_removed() {
    assert_eq!(art2words("jo (''.) moo"), "jo moo\n");
}

#[test]
fn test_text2plain_test_that_unicode_quotes_are_removed() {
    // example from the real world
    let text = "Deutsch „die Hauptstadt“.";
    assert_eq!(art2words(text), "deutsch die hauptstadt\n");
}
