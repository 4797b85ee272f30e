use openflow::notes::{preview, strip_tags, text_to_html, PREVIEW_CHARS};

#[test]
fn strips_inline_and_block_tags_to_plain_text() {
    assert_eq!(
        strip_tags("<p>Hello <b>bold</b> and <i>italic</i></p>"),
        "Hello bold and italic"
    );
    assert_eq!(strip_tags("<p>First</p><p>Second</p>"), "First\n\nSecond");
    assert_eq!(strip_tags("line one<br>line two"), "line one\nline two");
}

#[test]
fn strips_nested_lists_one_item_per_line() {
    let html = "<ul><li>alpha</li><li>beta</li></ul><ol><li>one</li><li>two</li></ol>";
    assert_eq!(strip_tags(html), "alpha\nbeta\none\ntwo");
}

#[test]
fn decodes_known_entities_and_leaves_no_markup() {
    let plain = strip_tags("<p>a &amp; b &lt;tag&gt; &quot;q&quot;&nbsp;end</p>");
    assert_eq!(plain, "a & b <tag> \"q\" end");
    assert!(!strip_tags("<p><code>x</code></p>").contains('<'));
}

#[test]
fn preview_collapses_whitespace_and_truncates_on_char_boundary() {
    assert_eq!(preview("<p>hello   world</p>"), "hello world");
    let long = format!("<p>{}</p>", "a".repeat(200));
    let p = preview(&long);
    assert_eq!(p.chars().count(), PREVIEW_CHARS + 1);
    assert!(p.ends_with('…'));
}

#[test]
fn text_to_html_splits_paragraphs_and_escapes() {
    assert_eq!(text_to_html("one\n\ntwo"), "<p>one</p><p>two</p>");
    assert_eq!(text_to_html("a\nb"), "<p>a<br>b</p>");
    assert_eq!(text_to_html("a & b < c"), "<p>a &amp; b &lt; c</p>");
    assert_eq!(text_to_html("   "), "");
}

#[test]
fn text_to_html_then_strip_round_trips_the_text() {
    let text = "First paragraph.\n\nSecond paragraph\nwith a break.";
    let html = text_to_html(text);
    assert_eq!(strip_tags(&html), text);
}

#[test]
fn unknown_entities_and_unterminated_tags_are_kept_as_text() {
    assert_eq!(strip_tags("a &bogus; b"), "a &bogus; b");
    assert_eq!(strip_tags("x < y"), "x < y");
    // Only named entities decode; a numeric reference stays as it was.
    assert_eq!(strip_tags("&#39;q&#39;"), "&#39;q&#39;");
}

#[test]
fn crlf_text_becomes_the_same_html_as_lf_text() {
    assert_eq!(text_to_html("a\r\nb"), text_to_html("a\nb"));
    assert_eq!(text_to_html("\"x\" 'y' >"), "<p>\"x\" 'y' &gt;</p>");
}

#[test]
fn blank_text_maps_to_no_html_and_only_known_tags_appear() {
    assert_eq!(text_to_html(""), "");
    assert_eq!(text_to_html(" \n\n \t\r\n"), "");
    let html = text_to_html("a <b> & c\n\n\nd\r\ne");
    assert_eq!(html, "<p>a &lt;b&gt; &amp; c</p><p>d<br>e</p>");
    for (i, _) in html.match_indices('<') {
        let rest = &html[i..];
        assert!(rest.starts_with("<p>") || rest.starts_with("</p>") || rest.starts_with("<br>"));
    }
}
