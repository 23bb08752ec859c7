use notesite::paths::{
    file_stem_of, href_to_root_style_css, is_markdown_path, set_html_extension, split_slash,
    strip_dir_prefix,
};

#[test]
fn split_on_slashes() {
    assert_eq!(split_slash("a/b/c"), vec!["a", "b", "c"]);
    assert_eq!(split_slash("lone"), vec!["lone"]);
    assert_eq!(split_slash(""), vec![""]);
    assert_eq!(split_slash("a//b"), vec!["a", "", "b"]);
    assert_eq!(split_slash("/x"), vec!["", "x"]);
}

#[test]
fn html_extension_replaces_or_appends() {
    assert_eq!(set_html_extension("note.md"), "note.html");
    assert_eq!(set_html_extension("note"), "note.html");
    assert_eq!(set_html_extension("a.b.md"), "a.b.html");
    // A name whose only dot leads it has no extension, as the standard
    // library sees it, so `.html` is appended.
    assert_eq!(set_html_extension(".md"), ".md.html");
}

#[test]
fn file_names_are_mirrored_unmodified() {
    // Names with unusual characters keep them; only the extension changes.
    assert_eq!(set_html_extension("what?.md"), "what?.html");
    assert_eq!(set_html_extension("sp ace.md"), "sp ace.html");
}

#[test]
fn markdown_detection_goes_by_extension() {
    assert!(is_markdown_path("x/y.md"));
    assert!(is_markdown_path("y.md"));
    assert!(!is_markdown_path("y.MD"));
    assert!(!is_markdown_path("md"));
    assert!(!is_markdown_path(".md"));
    assert!(!is_markdown_path("a/b.png"));
    assert!(is_markdown_path("dir.md/inner.md"));
}

#[test]
fn stems_fall_back_to_untitled() {
    assert_eq!(file_stem_of("a.md"), "a");
    assert_eq!(file_stem_of("archive.tar.gz"), "archive.tar");
    assert_eq!(file_stem_of("noext"), "noext");
    assert_eq!(file_stem_of(""), "untitled");
    assert_eq!(file_stem_of(".bashrc"), ".bashrc");
}

#[test]
fn stylesheet_prefix_matches_depth() {
    assert_eq!(href_to_root_style_css("out"), ".");
    assert_eq!(href_to_root_style_css("out/a"), "..");
    assert_eq!(href_to_root_style_css("out/a/b"), "../..");
    assert_eq!(href_to_root_style_css("out/a/b/c"), "../../..");
}

#[test]
fn trailing_separator_adds_no_depth() {
    assert_eq!(href_to_root_style_css("out/"), ".");
    assert_eq!(href_to_root_style_css("out/a/"), "..");
}

#[test]
fn stripping_the_output_prefix() {
    assert_eq!(strip_dir_prefix("out/a/x.html", "out"), "a/x.html");
    assert_eq!(strip_dir_prefix("out/x.html", "out"), "x.html");
}
