use vstd::prelude::*;
use vstd::string::*;

verus! {

// ---------------------------------------------------------------------------
// Paths are plain strings with `/` separators.  Splitting into components,
// joining under a base directory, and the file-name transformations the
// pipeline needs are all defined over character sequences and computed by
// verified scans.
// ---------------------------------------------------------------------------

/// Prepends `cur` onto the first component of `r` (the head component still
/// being assembled during a scan).
pub open spec fn merge_head(cur: Seq<char>, r: Seq<Seq<char>>) -> Seq<Seq<char>> {
    seq![cur + r[0]] + r.drop_first()
}

/// The components of `s` split on `/`; splitting the empty text yields one
/// empty component, so the result is never empty.
pub open spec fn split_path(s: Seq<char>) -> Seq<Seq<char>>
    decreases s.len(),
{
    if s.len() == 0 {
        seq![Seq::<char>::empty()]
    } else if s[0] == '/' {
        seq![Seq::<char>::empty()] + split_path(s.drop_first())
    } else {
        merge_head(seq![s[0]], split_path(s.drop_first()))
    }
}

pub proof fn lemma_split_path_len(s: Seq<char>)
    ensures
        split_path(s).len() >= 1,
    decreases s.len(),
{
    if s.len() != 0 {
        lemma_split_path_len(s.drop_first());
    }
}

/// Splits a path into its `/`-separated components.
pub fn split_slash(s: &str) -> (r: Vec<String>)
    ensures
        r.deep_view() == split_path(s@),
        r@.len() >= 1,
{
    let n = s.unicode_len();
    let mut r: Vec<String> = Vec::new();
    let mut start: usize = 0;
    let mut i: usize = 0;
    proof {
        lemma_split_path_len(s@);
        assert(s@.skip(0) =~= s@);
        assert(merge_head(s@.subrange(0, 0), split_path(s@)) =~~= split_path(s@));
        assert(r.deep_view() + split_path(s@) =~~= split_path(s@));
    }
    while i < n
        invariant
            n == s@.len(),
            start <= i <= n,
            split_path(s@) == r.deep_view() + merge_head(
                s@.subrange(start as int, i as int),
                split_path(s@.skip(i as int)),
            ),
        decreases n - i,
    {
        proof {
            lemma_split_path_len(s@.skip(i as int + 1));
            assert(s@.skip(i as int).drop_first() =~= s@.skip(i as int + 1));
            assert(s@.skip(i as int)[0] == s@[i as int]);
        }
        let c = s.get_char(i);
        if c == '/' {
            let comp = s.substring_char(start, i).to_owned();
            let ghost r0 = r.deep_view();
            let ghost cur = s@.subrange(start as int, i as int);
            r.push(comp);
            proof {
                assert(r.deep_view() =~= r0.push(cur));
                let rest = split_path(s@.skip(i as int + 1));
                assert(merge_head(cur, split_path(s@.skip(i as int))) =~= seq![cur] + rest);
                assert(merge_head(Seq::<char>::empty(), rest) =~= rest);
                assert(r0 + (seq![cur] + rest) =~= r0.push(cur) + rest);
                assert(r0.push(cur) + merge_head(
                    s@.subrange(i as int + 1, i as int + 1),
                    rest,
                ) =~= r0.push(cur) + rest);
            }
            start = i + 1;
        } else {
            proof {
                let rest = split_path(s@.skip(i as int + 1));
                let cur = s@.subrange(start as int, i as int);
                assert(split_path(s@.skip(i as int)) == merge_head(seq![s@[i as int]], rest));
                assert(rest.len() >= 1);
                assert(cur + (seq![s@[i as int]] + rest[0]) =~= s@.subrange(
                    start as int,
                    i as int + 1,
                ) + rest[0]);
                assert(merge_head(cur, merge_head(seq![s@[i as int]], rest)) =~~= merge_head(
                    s@.subrange(start as int, i as int + 1),
                    rest,
                ));
            }
        }
        i = i + 1;
    }
    let comp = s.substring_char(start, n).to_owned();
    let ghost r0 = r.deep_view();
    let ghost cur = s@.subrange(start as int, n as int);
    r.push(comp);
    proof {
        assert(s@.skip(n as int) =~= Seq::<char>::empty());
        assert(split_path(Seq::<char>::empty()) == seq![Seq::<char>::empty()]);
        assert(merge_head(cur, seq![Seq::<char>::empty()]) =~= seq![cur]);
        assert(r.deep_view() =~= r0.push(cur));
        assert(r0 + seq![cur] =~= r0.push(cur));
    }
    r
}

// ---------------------------------------------------------------------------
// Joining components under a base directory.
// ---------------------------------------------------------------------------

/// `base` with each of `parts` appended behind a `/`.
pub open spec fn spec_join_under(base: Seq<char>, parts: Seq<Seq<char>>) -> Seq<char>
    decreases parts.len(),
{
    if parts.len() == 0 {
        base
    } else {
        spec_join_under(base + "/"@ + parts[0], parts.drop_first())
    }
}

/// Joins the first `k` of `parts` under `base`, separated by `/`.
pub fn join_under(base: &str, parts: &Vec<String>, k: usize) -> (r: String)
    requires
        k <= parts@.len(),
    ensures
        r@ == spec_join_under(base@, parts.deep_view().take(k as int)),
{
    let mut r = base.to_owned();
    let mut i: usize = 0;
    proof {
        assert(parts.deep_view().take(k as int).skip(0) =~= parts.deep_view().take(k as int));
    }
    while i < k
        invariant
            i <= k <= parts@.len(),
            spec_join_under(base@, parts.deep_view().take(k as int)) == spec_join_under(
                r@,
                parts.deep_view().take(k as int).skip(i as int),
            ),
        decreases k - i,
    {
        proof {
            let rest = parts.deep_view().take(k as int).skip(i as int);
            assert(rest[0] == parts.deep_view()[i as int]);
            assert(rest.drop_first() =~= parts.deep_view().take(k as int).skip(i as int + 1));
        }
        r.append("/");
        r.append(parts[i].as_str());
        i = i + 1;
    }
    proof {
        assert(parts.deep_view().take(k as int).skip(k as int) =~= Seq::<Seq<char>>::empty());
    }
    r
}

// ---------------------------------------------------------------------------
// File-name transformations.
// ---------------------------------------------------------------------------

/// The index of the last `.` in `s`, or `-1` if there is none.
pub open spec fn last_dot(s: Seq<char>) -> int
    decreases s.len(),
{
    if s.len() == 0 {
        -1
    } else if s[s.len() - 1] == '.' {
        s.len() - 1
    } else {
        last_dot(s.drop_last())
    }
}

/// A file name has an extension exactly when its last `.` sits after the
/// first character; replacing the extension with `html` truncates there,
/// and otherwise `.html` is appended.
pub open spec fn html_name_of(s: Seq<char>) -> Seq<char> {
    if last_dot(s) >= 1 {
        s.take(last_dot(s)) + ".html"@
    } else {
        s + ".html"@
    }
}

/// The index of the last `.` of `s`, or `None` when `s` has no dot.
pub fn last_dot_index(s: &str) -> (r: Option<usize>)
    ensures
        match r {
            Some(d) => last_dot(s@) == d as int && (d as int) < s@.len(),
            None => last_dot(s@) == -1,
        },
{
    let n = s.unicode_len();
    let mut dot: usize = 0;
    let mut has: bool = false;
    let mut i: usize = 0;
    proof {
        assert(s@.subrange(0, 0) =~= Seq::<char>::empty());
    }
    while i < n
        invariant
            n == s@.len(),
            i <= n,
            has ==> dot < i,
            last_dot(s@.subrange(0, i as int)) == if has {
                dot as int
            } else {
                -1
            },
        decreases n - i,
    {
        proof {
            assert(s@.subrange(0, i as int + 1).drop_last() =~= s@.subrange(0, i as int));
            assert(s@.subrange(0, i as int + 1)[i as int] == s@[i as int]);
        }
        let c = s.get_char(i);
        if c == '.' {
            dot = i;
            has = true;
        }
        i = i + 1;
    }
    proof {
        assert(s@.subrange(0, n as int) =~= s@);
    }
    if has {
        Some(dot)
    } else {
        None
    }
}

/// Replaces a file name's extension with `html` (or appends `.html` when the
/// name has no extension).
pub fn set_html_extension(name: &str) -> (r: String)
    ensures
        r@ == html_name_of(name@),
{
    let found = last_dot_index(name);
    let (has, dot): (bool, usize) = match found {
        Some(d) => (true, d),
        None => (false, 0),
    };
    if has && dot >= 1 {
        let mut r = name.substring_char(0, dot).to_owned();
        r.append(".html");
        proof {
            assert(name@.take(dot as int) =~= name@.subrange(0, dot as int));
        }
        r
    } else {
        let mut r = name.to_owned();
        r.append(".html");
        r
    }
}

/// The stem of a file name: the part before its extension, the whole name
/// when it has none, and `untitled` for an empty name.
pub open spec fn stem_of(name: Seq<char>) -> Seq<char> {
    if name.len() == 0 {
        "untitled"@
    } else if last_dot(name) >= 1 {
        name.take(last_dot(name))
    } else {
        name
    }
}

/// The file name's stem, falling back to `untitled` for an empty name.
pub fn file_stem_of(name: &str) -> (r: String)
    ensures
        r@ == stem_of(name@),
{
    let n = name.unicode_len();
    if n == 0 {
        let r = "untitled".to_owned();
        r
    } else {
        let found = last_dot_index(name);
        let (has, dot): (bool, usize) = match found {
            Some(d) => (true, d),
            None => (false, 0),
        };
        if has && dot >= 1 {
            let r = name.substring_char(0, dot).to_owned();
            proof {
                assert(name@.take(dot as int) =~= name@.subrange(0, dot as int));
            }
            r
        } else {
            let r = name.to_owned();
            r
        }
    }
}

/// Whether the last component of `path` carries the `md` extension.
pub open spec fn spec_is_markdown(path: Seq<char>) -> bool {
    let name = split_path(path).last();
    last_dot(name) >= 1 && name.skip(last_dot(name) + 1) == "md"@
}

/// Whether `path` names a Markdown file (`.md` extension on its file name).
pub fn is_markdown_path(path: &str) -> (r: bool)
    ensures
        r == spec_is_markdown(path@),
{
    let parts = split_slash(path);
    let name = &parts[parts.len() - 1];
    proof {
        assert(parts.deep_view()[parts@.len() - 1] == split_path(path@).last());
    }
    let s = name.as_str();
    let n = s.unicode_len();
    let found = last_dot_index(s);
    let (has, dot): (bool, usize) = match found {
        Some(d) => (true, d),
        None => (false, 0),
    };
    if has && dot >= 1 {
        let ext = s.substring_char(dot + 1, n);
        let r = ext_is_md(ext);
        proof {
            assert(s@.skip(dot as int + 1) =~= s@.subrange(dot as int + 1, n as int));
        }
        r
    } else {
        false
    }
}

/// Whether a two-character extension reads `md`.
fn ext_is_md(ext: &str) -> (r: bool)
    ensures
        r == (ext@ == "md"@),
{
    proof {
        reveal_strlit("md");
    }
    if ext.unicode_len() == 2 {
        let a = ext.get_char(0);
        let b = ext.get_char(1);
        let r = a == 'm' && b == 'd';
        proof {
            if r {
                assert(ext@ =~= "md"@);
            }
        }
        r
    } else {
        false
    }
}

// ---------------------------------------------------------------------------
// Output-directory prefixes.
// ---------------------------------------------------------------------------

/// `path` lies strictly under the directory `dir`: it continues past `dir`
/// with a separator.
pub open spec fn dir_prefixed(path: Seq<char>, dir: Seq<char>) -> bool {
    path.len() > dir.len() + 1 && path.take(dir.len() as int) == dir && path[dir.len() as int]
        == '/'
}

/// `path` with the leading `dir` and its separator removed.
pub open spec fn strip_dir(path: Seq<char>, dir: Seq<char>) -> Seq<char> {
    path.skip(dir.len() as int + 1)
}

/// Removes the leading directory `dir` (and the separator after it) from
/// `path`.
pub fn strip_dir_prefix(path: &str, dir: &str) -> (r: String)
    requires
        dir_prefixed(path@, dir@),
    ensures
        r@ == strip_dir(path@, dir@),
{
    let dl = dir.unicode_len();
    let n = path.unicode_len();
    let r = path.substring_char(dl + 1, n).to_owned();
    proof {
        assert(path@.skip(dl as int + 1) =~= path@.subrange(dl as int + 1, n as int));
    }
    r
}

// ---------------------------------------------------------------------------
// The stylesheet href prefix.
// ---------------------------------------------------------------------------

/// `k` repetitions of `..`, separated by `/`.
pub open spec fn dots(k: nat) -> Seq<char>
    decreases k,
{
    if k == 0 {
        Seq::<char>::empty()
    } else if k == 1 {
        ".."@
    } else {
        "../"@ + dots((k - 1) as nat)
    }
}

/// The components that give a directory string its depth: a trailing
/// separator adds no level, so one final empty component is dropped.
pub open spec fn depth_components(path: Seq<char>) -> Seq<Seq<char>> {
    let ps = split_path(path);
    if ps.len() > 1 && ps.last() == Seq::<char>::empty() {
        ps.drop_last()
    } else {
        ps
    }
}

/// The relative prefix a page at `path` uses to reach the output root: `.`
/// for a file directly in the root, else one `..` per directory level.
pub open spec fn spec_href(path: Seq<char>) -> Seq<char> {
    let d = depth_components(path).len() - 1;
    if d == 0 {
        "."@
    } else {
        dots(d as nat)
    }
}

/// The prefix for reaching the shared stylesheet from a page inside the
/// directory `file_path`.
pub fn href_to_root_style_css(file_path: &str) -> (r: String)
    ensures
        r@ == spec_href(file_path@),
{
    let parts = split_slash(file_path);
    let mut d = parts.len() - 1;
    proof {
        assert(parts@.len() == parts.deep_view().len());
        assert(parts.deep_view()[parts@.len() - 1] == split_path(file_path@).last());
    }
    if d > 0 && parts[parts.len() - 1].as_str().is_empty() {
        proof {
            assert(parts.deep_view().last() =~= Seq::<char>::empty());
        }
        d = d - 1;
    }
    proof {
        let ps = split_path(file_path@);
        if ps.len() > 1 && ps.last() == Seq::<char>::empty() {
            assert(depth_components(file_path@) == ps.drop_last());
        }
        assert(d as int == depth_components(file_path@).len() - 1);
    }
    if d == 0 {
        let r = ".".to_owned();
        r
    } else {
        let mut r = String::new();
        let mut i: usize = 0;
        while i < d
            invariant
                i <= d,
                0 < d,
                dots(d as nat) == r@ + dots((d - i) as nat),
            decreases d - i,
        {
            if i + 1 != d {
                r.append("../");
            } else {
                r.append("..");
            }
            i = i + 1;
        }
        r
    }
}

} // verus!
