use friend_reader::document::DocumentElement;
use friend_reader::ingest::{is_likely_heading, parse_html_content, strip_html_tags, tag_effect};

fn summary(v: &[DocumentElement]) -> Vec<String> {
    v.iter()
        .map(|e| match e {
            DocumentElement::Text { content } => format!("T:{}", content),
            DocumentElement::Heading { content, level } => format!("H{}:{}", level, content),
            DocumentElement::Image { id, .. } => format!("I:{}", id),
        })
        .collect()
}

#[test]
fn tags_are_removed() {
    assert_eq!(strip_html_tags("<p class=\"x\">Hello <b>world</b></p>"), "Hello world");
    assert_eq!(strip_html_tags("no tags"), "no tags");
    assert_eq!(strip_html_tags(""), "");
    assert_eq!(strip_html_tags("a <unclosed"), "a ");
}

#[test]
fn script_and_style_contents_are_dropped() {
    assert_eq!(strip_html_tags("a<script>var x = 1;</script>b"), "ab");
    assert_eq!(strip_html_tags("a<STYLE type=\"t\">p{}</Style>b"), "ab");
    assert_eq!(strip_html_tags("<SCRIPT>x</SCRIPT>y"), "y");
}

#[test]
fn entities_are_decoded_in_order() {
    assert_eq!(strip_html_tags("a&nbsp;b &amp; c &lt;d&gt; &quot;e&quot; &apos;f&apos;"), "a b & c <d> \"e\" 'f'");
    assert_eq!(strip_html_tags("&amp;lt;"), "<");
}

#[test]
fn tag_effect_switches_skipping() {
    assert!(tag_effect("<script src=x>", false));
    assert!(tag_effect("<style>", false));
    assert!(!tag_effect("</script>", true));
    assert!(!tag_effect("</style>", true));
    assert!(tag_effect("<p>", true));
    assert!(!tag_effect("<p>", false));
}

#[test]
fn headings_are_detected() {
    assert!(is_likely_heading("CHAPTER ONE"));
    assert!(is_likely_heading("Chapter 1: the beginning"));
    assert!(is_likely_heading("The Old Man And The Sea"));
    assert!(!is_likely_heading("this is an ordinary sentence of prose."));
    assert!(!is_likely_heading("ABC DEF GHI JKL MNO PQR STU VWX YZA BCD EFG HIJ KLM NOP QRS TUV"));
    assert!(!is_likely_heading(&"A".repeat(101)));
    assert!(is_likely_heading(&"A".repeat(100)));
    assert!(!is_likely_heading("Abc Defghij"));
    assert!(!is_likely_heading("1234"));
}

#[test]
fn uppercase_share_must_exceed_three_tenths() {
    assert!(!is_likely_heading("ABCdefghij"));
    assert!(is_likely_heading("ABCDefghij"));
}

#[test]
fn lines_become_elements() {
    let mut v = vec![DocumentElement::Text { content: "before".to_string() }];
    parse_html_content("<h1>THE TITLE</h1>\n<p>  some body text here. </p>\r\n\n  \n<p>more</p>", &mut v);
    assert_eq!(
        summary(&v),
        vec!["T:before", "H1:THE TITLE", "T:some body text here.", "T:more"]
    );
}

#[test]
fn empty_markup_adds_nothing() {
    let mut v = vec![];
    parse_html_content("<div>\n</div>\n", &mut v);
    assert!(v.is_empty());
}
