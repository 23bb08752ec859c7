use notesite::content::rewrite_links;

#[test]
fn plain_text_is_unchanged() {
    assert_eq!(rewrite_links("just some ordinary text"), "just some ordinary text");
    assert_eq!(rewrite_links(""), "");
    assert_eq!(rewrite_links("a ] b ! c [ d"), "a ] b ! c [ d");
}

#[test]
fn link_span_becomes_anchor() {
    assert_eq!(
        rewrite_links("See [[My Note]] for more"),
        "See <a href=\"my-note.html\">My Note</a> for more"
    );
}

#[test]
fn asset_span_becomes_image() {
    assert_eq!(rewrite_links("![[diagram.png]]"), "<img src=\"diagram.png\">");
}

#[test]
fn two_spans_rewritten_independently() {
    assert_eq!(
        rewrite_links("[[A]] and [[B]]"),
        "<a href=\"a.html\">A</a> and <a href=\"b.html\">B</a>"
    );
}

#[test]
fn unterminated_span_absorbs_tail_verbatim() {
    // An unterminated opening marker never emits markup: the scan absorbs the
    // rest of the input into the span text and the verbatim tail from the
    // marker is copied through at end of input, so the output is the input.
    assert_eq!(rewrite_links("text [[unclosed"), "text [[unclosed");
    assert_eq!(rewrite_links("![[never closed"), "![[never closed");
}

#[test]
fn second_opening_marker_inside_span_is_inert() {
    assert_eq!(rewrite_links("[[x [[y]]"), "<a href=\"x-y.html\">x y</a>");
}

#[test]
fn bang_and_bracket_dropped_from_span_text() {
    assert_eq!(rewrite_links("[[a!b]]"), "<a href=\"ab.html\">ab</a>");
}

#[test]
fn bare_closing_brackets_outside_span_are_verbatim() {
    assert_eq!(rewrite_links("]]"), "]]");
    assert_eq!(rewrite_links("a]b"), "a]b");
}

#[test]
fn slug_lowercases_and_hyphenates_only() {
    assert_eq!(
        rewrite_links("[[Big Fancy Title]]"),
        "<a href=\"big-fancy-title.html\">Big Fancy Title</a>"
    );
    // Punctuation and repeated spaces pass through into the slug unchanged.
    assert_eq!(
        rewrite_links("[[A,B  C]]"),
        "<a href=\"a,b--c.html\">A,B  C</a>"
    );
}

#[test]
fn text_after_closing_span_is_kept() {
    assert_eq!(
        rewrite_links("pre [[N]] mid ![[i.png]] post"),
        "pre <a href=\"n.html\">N</a> mid <img src=\"i.png\"> post"
    );
}
