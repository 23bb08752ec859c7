use vstd::prelude::*;
use vstd::string::*;

verus! {

// ---------------------------------------------------------------------------
// The wikilink rewriter.
//
// A single left-to-right scan over the text recognises `[[Title]]` spans and
// `![[Name]]` spans and replaces them with anchor and image markup; all other
// text is copied through verbatim.  `scan_rewrite` is the mathematical form
// of that scan, and `rewrite_links` is proved to compute it.
// ---------------------------------------------------------------------------

/// Names the result of `str::to_lowercase`, which depends on the character
/// sequence alone.
pub uninterp spec fn lower_of(s: Seq<char>) -> Seq<char>;

/// Space characters become hyphens; everything else is kept.
pub open spec fn space_to_hyphen(c: char) -> char {
    if c == ' ' {
        '-'
    } else {
        c
    }
}

pub open spec fn hyphens_of(t: Seq<char>) -> Seq<char> {
    t.map_values(|c: char| space_to_hyphen(c))
}

/// The slug of a span's text: lower-cased, with spaces turned into hyphens.
pub open spec fn slug_of(t: Seq<char>) -> Seq<char> {
    hyphens_of(lower_of(t))
}

/// The anchor markup emitted for a link span with text `t`.
pub open spec fn anchor_of(t: Seq<char>) -> Seq<char> {
    "<a href=\""@ + slug_of(t) + ".html\">"@ + t + "</a>"@
}

/// The image markup emitted for an asset span with text `t`.
pub open spec fn image_of(t: Seq<char>) -> Seq<char> {
    "<img src=\""@ + t + "\">"@
}

/// The recognition state of the scan: outside any span, inside a `[[` span,
/// or inside a `![[` span.
pub enum ScanMode {
    Outside,
    InLink,
    InAsset,
}

/// One step per character: `i` is the cursor, `last` marks the start of the
/// verbatim text not yet copied into `out`, and `link` accumulates the text
/// of the span currently open.  An unterminated span never emits markup: the
/// tail from `last` is copied verbatim at the end of the input.
pub open spec fn scan_rewrite(
    s: Seq<char>,
    i: int,
    last: int,
    mode: ScanMode,
    link: Seq<char>,
    out: Seq<char>,
) -> Seq<char>
    decreases s.len() - i,
{
    if i < 0 || i >= s.len() {
        out + s.subrange(last, s.len() as int)
    } else {
        let c = s[i];
        if c == '[' && i + 1 < s.len() && s[i + 1] == '[' {
            if mode is Outside {
                scan_rewrite(s, i + 1, i, ScanMode::InLink, link, out + s.subrange(last, i))
            } else {
                scan_rewrite(s, i + 1, last, mode, link, out)
            }
        } else if c == '!' && i + 2 < s.len() && s[i + 1] == '[' && s[i + 2] == '[' {
            if mode is Outside {
                scan_rewrite(s, i + 1, i, ScanMode::InAsset, link, out + s.subrange(last, i))
            } else {
                scan_rewrite(s, i + 1, last, mode, link, out)
            }
        } else if c == ']' && i + 1 < s.len() && s[i + 1] == ']' {
            match mode {
                ScanMode::InLink => scan_rewrite(
                    s,
                    i + 1,
                    i + 2,
                    ScanMode::Outside,
                    Seq::empty(),
                    out + anchor_of(link),
                ),
                ScanMode::InAsset => scan_rewrite(
                    s,
                    i + 1,
                    i + 2,
                    ScanMode::Outside,
                    Seq::empty(),
                    out + image_of(link),
                ),
                ScanMode::Outside => scan_rewrite(s, i + 1, last, mode, link, out),
            }
        } else if !(mode is Outside) {
            if c != '[' && c != '!' {
                scan_rewrite(s, i + 1, last, mode, link.push(c), out)
            } else {
                scan_rewrite(s, i + 1, last, mode, link, out)
            }
        } else {
            scan_rewrite(s, i + 1, last, mode, link, out)
        }
    }
}

/// What `rewrite_links` returns for the text `s`.
pub open spec fn spec_rewrite(s: Seq<char>) -> Seq<char> {
    scan_rewrite(s, 0, 0, ScanMode::Outside, Seq::empty(), Seq::empty())
}

// ---------------------------------------------------------------------------
// Executable helpers.
// ---------------------------------------------------------------------------

/// Appends `s[from..to]` to `out`.
fn append_range(out: &mut Vec<char>, s: &Vec<char>, from: usize, to: usize)
    requires
        from <= to,
        to <= s@.len(),
    ensures
        final(out)@ == old(out)@ + s@.subrange(from as int, to as int),
{
    proof {
        assert(out@ =~= out@ + s@.subrange(from as int, from as int));
    }
    let mut j: usize = from;
    while j < to
        invariant
            from <= j <= to <= s@.len(),
            out@ == old(out)@ + s@.subrange(from as int, j as int),
        decreases to - j,
    {
        out.push(s[j]);
        proof {
            assert(s@.subrange(from as int, (j + 1) as int) =~= s@.subrange(
                from as int,
                j as int,
            ).push(s@[j as int]));
        }
        j = j + 1;
    }
}

/// Appends every character of the string slice `s` to `out`.
fn push_str_chars(out: &mut Vec<char>, s: &str)
    ensures
        final(out)@ == old(out)@ + s@,
{
    let n = s.unicode_len();
    proof {
        assert(out@ =~= out@ + s@.subrange(0, 0));
    }
    let mut j: usize = 0;
    while j < n
        invariant
            n == s@.len(),
            j <= n,
            out@ == old(out)@ + s@.subrange(0, j as int),
        decreases n - j,
    {
        let c = s.get_char(j);
        out.push(c);
        proof {
            assert(s@.subrange(0, (j + 1) as int) =~= s@.subrange(0, j as int).push(
                s@[j as int],
            ));
        }
        j = j + 1;
    }
    proof {
        assert(s@.subrange(0, n as int) =~= s@);
    }
}

/// The characters of `s`, as a vector.
fn chars_vec(s: &str) -> (r: Vec<char>)
    ensures
        r@ == s@,
{
    let mut v: Vec<char> = Vec::new();
    push_str_chars(&mut v, s);
    proof {
        assert(v@ =~= s@);
    }
    v
}

/// Relies on `String: FromIterator<char>`: collecting characters builds the
/// string of exactly those characters, in order.
#[verifier::external_body]
pub(crate) fn string_from_chars(v: &Vec<char>) -> (r: String)
    ensures
        r@ == v@,
{
    v.iter().collect()
}

/// Relies on `str::to_lowercase`: its result is a function of the character
/// sequence alone, here named `lower_of`.
#[verifier::external_body]
fn lowercase_chars(v: &Vec<char>) -> (r: Vec<char>)
    ensures
        r@ == lower_of(v@),
{
    let s: String = v.iter().collect();
    s.to_lowercase().chars().collect()
}

/// Replaces every space with a hyphen.
fn hyphenate(v: &Vec<char>) -> (r: Vec<char>)
    ensures
        r@ == hyphens_of(v@),
{
    let n = v.len();
    let mut r: Vec<char> = Vec::new();
    proof {
        assert(r@ =~= hyphens_of(v@.subrange(0, 0)));
    }
    let mut j: usize = 0;
    while j < n
        invariant
            n == v@.len(),
            j <= n,
            r@ == hyphens_of(v@.subrange(0, j as int)),
        decreases n - j,
    {
        let c = v[j];
        if c == ' ' {
            r.push('-');
        } else {
            r.push(c);
        }
        proof {
            assert(hyphens_of(v@.subrange(0, (j + 1) as int)) =~= hyphens_of(
                v@.subrange(0, j as int),
            ).push(space_to_hyphen(v@[j as int])));
        }
        j = j + 1;
    }
    proof {
        assert(v@.subrange(0, n as int) =~= v@);
    }
    r
}

// ---------------------------------------------------------------------------
// The rewriter itself.
// ---------------------------------------------------------------------------

/// The scan over a character vector; computes exactly `spec_rewrite`.
fn rewrite_chars(s: &Vec<char>) -> (out: Vec<char>)
    ensures
        out@ == spec_rewrite(s@),
{
    let n = s.len();
    let mut out: Vec<char> = Vec::new();
    let mut link: Vec<char> = Vec::new();
    let mut last: usize = 0;
    let mut mode = ScanMode::Outside;
    let mut i: usize = 0;
    while i < n
        invariant
            n == s@.len(),
            i <= n,
            last <= i + 1,
            last <= n,
            last == i + 1 ==> i < n && s@[i as int] == ']' && mode is Outside,
            spec_rewrite(s@) == scan_rewrite(
                s@,
                i as int,
                last as int,
                mode,
                link@,
                out@,
            ),
        decreases n - i,
    {
        let c = s[i];
        let close_pair = c == ']' && n - i > 1 && s[i + 1] == ']';
        if c == '[' && n - i > 1 && s[i + 1] == '[' {
            if matches!(mode, ScanMode::Outside) {
                append_range(&mut out, s, last, i);
                last = i;
                mode = ScanMode::InLink;
            }
        } else if c == '!' && n - i > 2 && s[i + 1] == '[' && s[i + 2] == '[' {
            if matches!(mode, ScanMode::Outside) {
                append_range(&mut out, s, last, i);
                last = i;
                mode = ScanMode::InAsset;
            }
        } else if close_pair && matches!(mode, ScanMode::InLink) {
            let ghost link0 = link@;
            let ghost out0 = out@;
            let lower = lowercase_chars(&link);
            let slug = hyphenate(&lower);
            push_str_chars(&mut out, "<a href=\"");
            append_range(&mut out, &slug, 0, slug.len());
            push_str_chars(&mut out, ".html\">");
            append_range(&mut out, &link, 0, link.len());
            push_str_chars(&mut out, "</a>");
            proof {
                assert(slug@.subrange(0, slug@.len() as int) =~= slug@);
                assert(link@.subrange(0, link@.len() as int) =~= link@);
                assert(out@ =~= out0 + anchor_of(link0));
            }
            link = Vec::new();
            last = i + 2;
            mode = ScanMode::Outside;
        } else if close_pair && matches!(mode, ScanMode::InAsset) {
            let ghost link0 = link@;
            let ghost out0 = out@;
            push_str_chars(&mut out, "<img src=\"");
            append_range(&mut out, &link, 0, link.len());
            push_str_chars(&mut out, "\">");
            proof {
                assert(link@.subrange(0, link@.len() as int) =~= link@);
                assert(out@ =~= out0 + image_of(link0));
            }
            link = Vec::new();
            last = i + 2;
            mode = ScanMode::Outside;
        } else if !matches!(mode, ScanMode::Outside) && !close_pair {
            if c != '[' && c != '!' {
                link.push(c);
            }
        }
        i = i + 1;
    }
    proof {
        assert(scan_rewrite(s@, n as int, last as int, mode, link@, out@) == out@ + s@.subrange(
            last as int,
            n as int,
        ));
    }
    append_range(&mut out, s, last, n);
    out
}

/// Rewrites `[[Title]]` spans into anchors and `![[Name]]` spans into image
/// tags, copying all other text through unchanged; total over arbitrary text.
pub fn rewrite_links(content: &str) -> (r: String)
    ensures
        r@ == spec_rewrite(content@),
{
    let cs = chars_vec(content);
    let out = rewrite_chars(&cs);
    string_from_chars(&out)
}

// ---------------------------------------------------------------------------
// Identity on plain text.
// ---------------------------------------------------------------------------

/// Text with no `[[` and no `]]` pair anywhere (which also rules out `![[`).
pub open spec fn plain_text(s: Seq<char>) -> bool {
    forall|p: int|
        0 <= p && p + 1 < s.len() ==> !((#[trigger] s[p] == '[' && s[p + 1] == '[') || (s[p] == ']'
            && s[p + 1] == ']'))
}

proof fn lemma_scan_plain(s: Seq<char>, i: int, last: int, link: Seq<char>, out: Seq<char>)
    requires
        plain_text(s),
        0 <= last <= i <= s.len(),
    ensures
        scan_rewrite(s, i, last, ScanMode::Outside, link, out) == out + s.subrange(
            last,
            s.len() as int,
        ),
    decreases s.len() - i,
{
    if i < s.len() {
        lemma_scan_plain(s, i + 1, last, link, out);
    }
}

/// The rewriter is the identity on text that contains no span markers.
pub proof fn lemma_rewrite_plain_identity(s: Seq<char>)
    requires
        plain_text(s),
    ensures
        spec_rewrite(s) == s,
{
    lemma_scan_plain(s, 0, 0, Seq::empty(), Seq::empty());
    assert(Seq::<char>::empty() + s.subrange(0, s.len() as int) =~= s);
}

} // verus!

