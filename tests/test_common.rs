use craft::common::{extract_links, href_values};

#[test]
fn test_that_all_links_recognized() {
    let html = r#"<p><a href="foo"></a></p><a href="bar"></a></p>"#;
    let links = extract_links(html);
    links.iter().find(|x: &&String| &x[..] == "foo").unwrap();
    links.iter().find(|x: &&String| &x[..] == "bar").unwrap();
}

#[test]
fn test_no_false_links_are_detected() {
    let html = r#"<p><a href="foo"></a></p><p href="bar"></p></p>"#;
    let links = extract_links(html);
    assert_eq!(links.len(), 1);
}

#[test]
fn links_keep_document_order_and_skip_other_attributes() {
    let html = r#"<a class="x" href="one">1</a><img src="pic.png"><a href="two" title="t">2</a>"#;
    assert_eq!(extract_links(html), vec!["one".to_string(), "two".to_string()]);
}

#[test]
fn document_without_links_has_none() {
    assert!(extract_links("<p>no links here</p>").is_empty());
    assert!(extract_links("").is_empty());
}

#[test]
fn only_href_values_are_taken() {
    let attrs = vec![
        ("class".to_string(), "x".to_string()),
        ("href".to_string(), "first".to_string()),
        ("HREF".to_string(), "upper".to_string()),
        ("href".to_string(), "second".to_string()),
    ];
    assert_eq!(href_values(&attrs), vec!["first".to_string(), "second".to_string()]);
}

#[test]
fn tags_the_attribute_reader_cannot_split_are_skipped() {
    assert!(extract_links("<a a=\u{e9}=\"y\">x</a><a href=\"ok\">y</a>").len() == 1);
    assert_eq!(extract_links("<a href=\"\u{fc}ber\">x</a>"), vec!["\u{fc}ber".to_string()]);
}
