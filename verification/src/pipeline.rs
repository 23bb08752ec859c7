use vstd::prelude::*;
use crate::content::rewrite_links;
use crate::domain::{Frontmatter, FrontmatterModel, Note, NoteModel, SiteError};
use crate::paths::{
    file_stem_of, href_to_root_style_css, html_name_of, join_under, set_html_extension,
    spec_join_under, split_path, split_slash, stem_of,
};

verus! {

// ---------------------------------------------------------------------------
// The per-note pipeline: frontmatter split, title resolution, link rewrite,
// Markdown render, page render.  The outside collaborators (frontmatter
// parser, Markdown renderer, template engine) are reached through the
// trusted declarations below; everything around them is verified.
// ---------------------------------------------------------------------------

/// Declares gray_matter's parsed-frontmatter value, carried through opaquely
/// for the caller to interpret.
#[verifier::external_type_specification]
#[verifier::external_body]
pub struct ExPod(gray_matter::Pod);

/// Declares gray_matter's error type, mapped into `SiteError::Frontmatter`.
#[verifier::external_type_specification]
#[verifier::external_body]
pub struct ExGrayMatterError(gray_matter::Error);

/// Declares the template engine, handed in by the caller with its templates
/// already loaded.
#[verifier::external_type_specification]
#[verifier::external_body]
pub struct ExTera(tera::Tera);

/// Declares the template engine's error type, mapped into
/// `SiteError::Template`.
#[verifier::external_type_specification]
#[verifier::external_body]
pub struct ExTeraError(tera::Error);

/// Declares comrak's configuration struct, built once by
/// `make_comrak_options` and carried through opaquely.
#[verifier::external_type_specification]
#[verifier::external_body]
pub struct ExComrakOptions<'c>(comrak::Options<'c>);

/// Names the body that gray_matter's frontmatter split returns for a given
/// text: the text with the leading frontmatter block (if any) removed.
pub uninterp spec fn matter_body_of(s: Seq<char>) -> Seq<char>;

/// Names whether gray_matter's frontmatter split succeeds on a given text.
pub uninterp spec fn matter_ok_of(s: Seq<char>) -> bool;

/// Names whether gray_matter's frontmatter split finds a block in a given
/// text.
pub uninterp spec fn matter_has_data_of(s: Seq<char>) -> bool;

/// Relies on gray_matter's `Matter::<YAML>::parse`: under the fixed default
/// delimiters it is a function of the input text alone, so its success, the
/// presence of a block and the body it returns are named `matter_ok_of`,
/// `matter_has_data_of` and `matter_body_of`.
#[verifier::external_body]
fn matter_split(raw: &String) -> (r: Result<
    (Option<gray_matter::Pod>, String),
    gray_matter::Error,
>)
    ensures
        (r is Ok) == matter_ok_of(raw@),
        r matches Ok(p) ==> p.1@ == matter_body_of(raw@) && (p.0 is Some) == matter_has_data_of(
            raw@,
        ),
{
    let matter = gray_matter::Matter::<gray_matter::engine::YAML>::new();
    match matter.parse::<gray_matter::Pod>(raw.as_str()) {
        Ok(entity) => Ok((entity.data, entity.content)),
        Err(e) => Err(e),
    }
}

/// Relies on the `Display` impl of gray_matter's error type for the
/// descriptive text of a frontmatter failure.
#[verifier::external_body]
fn gm_error_text(e: &gray_matter::Error) -> (r: String) {
    format!("{e}")
}

/// Relies on the `Display` impl of tera's error type for the descriptive
/// text of a render failure.
#[verifier::external_body]
fn tera_error_text(e: &tera::Error) -> (r: String) {
    format!("{e}")
}

/// Splits the optional leading frontmatter block off a note's raw text.
/// The split succeeds exactly when the parser accepts the text; the body
/// returned is the raw text with the block removed, the data part is
/// present exactly when a block was found, and a parser failure surfaces as
/// a `Frontmatter` error.
pub fn split_frontmatter(raw: &String) -> (r: Result<
    (Option<gray_matter::Pod>, String),
    SiteError,
>)
    ensures
        (r is Ok) == matter_ok_of(raw@),
        r matches Ok(p) ==> p.1@ == matter_body_of(raw@) && (p.0 is Some) == matter_has_data_of(
            raw@,
        ),
        r matches Err(e) ==> (e matches SiteError::Frontmatter(_)),
{
    match matter_split(raw) {
        Ok(p) => Ok(p),
        Err(e) => Err(SiteError::Frontmatter(gm_error_text(&e))),
    }
}

/// Builds the fixed Markdown configuration the site renders with: the
/// table, autolink, tagfilter, strikethrough and tasklist extensions,
/// smart punctuation, raw HTML passed through, `+` list markers.  Relies
/// on comrak's option structs.
#[verifier::external_body]
pub fn make_comrak_options() -> comrak::ComrakOptions<'static> {
    let mut comrak_options = comrak::ComrakOptions::default();
    comrak_options.extension.table = true;
    comrak_options.extension.autolink = true;
    comrak_options.extension.tagfilter = true;
    comrak_options.extension.strikethrough = true;
    comrak_options.extension.tasklist = true;
    comrak_options.parse.smart = true;
    let mut render_options = comrak::ComrakRenderOptions::default();
    render_options.unsafe_ = true;
    render_options.list_style = comrak::ListStyleType::Plus;
    comrak_options.render = render_options;
    comrak_options
}

/// Names the HTML that comrak renders for a Markdown text under the site's
/// fixed configuration; a function of the text alone.
pub uninterp spec fn md_html_of(md: Seq<char>) -> Seq<char>;

/// Relies on `comrak::markdown_to_html` under the fixed configuration of
/// `make_comrak_options`: deterministic in the Markdown text alone, its
/// result is named `md_html_of`.
#[verifier::external_body]
fn markdown_html(md: &String) -> (r: String)
    ensures
        r@ == md_html_of(md@),
{
    comrak::markdown_to_html(md.as_str(), &make_comrak_options())
}

/// Relies on `tera::Tera::render` of the page template, with a context
/// holding title, date, tags, stylesheet prefix and body; used for a note
/// that carries frontmatter.
#[verifier::external_body]
fn render_page_meta(
    tera: &tera::Tera,
    title: &String,
    date: &Option<String>,
    tags: &Option<Vec<String>>,
    relative_path: &String,
    content: &String,
) -> (r: Result<String, tera::Error>) {
    let mut ctx = tera::Context::new();
    ctx.insert("title", title);
    ctx.insert("date", date);
    ctx.insert("tags", tags);
    ctx.insert("relative_path", relative_path);
    ctx.insert("content", content);
    tera.render("base.html", &ctx)
}

/// Relies on `tera::Tera::render` of the page template, with a context
/// holding title, stylesheet prefix and body; used for a note without
/// frontmatter.
#[verifier::external_body]
fn render_page_bare(
    tera: &tera::Tera,
    title: &String,
    relative_path: &String,
    content: &String,
) -> (r: Result<String, tera::Error>) {
    let mut ctx = tera::Context::new();
    ctx.insert("title", title);
    ctx.insert("relative_path", relative_path);
    ctx.insert("content", content);
    tera.render("base.html", &ctx)
}

// ---------------------------------------------------------------------------
// Title resolution and output locations.
// ---------------------------------------------------------------------------

/// Model of an optional frontmatter value.
pub open spec fn option_fm_model(fm: Option<Frontmatter>) -> Option<FrontmatterModel> {
    match fm {
        Some(f) => Some(f@),
        None => None,
    }
}

/// The page title: the frontmatter title when one is declared, else the
/// fallback (the file name's stem).
pub open spec fn spec_title(fm: Option<FrontmatterModel>, fallback: Seq<char>) -> Seq<char> {
    match fm {
        Some(f) => match f.title {
            Some(t) => t,
            None => fallback,
        },
        None => fallback,
    }
}

/// Resolves the title of a note from its frontmatter, with a fallback.
pub fn resolve_title(fm: &Option<Frontmatter>, fallback: &String) -> (t: String)
    ensures
        t@ == spec_title(option_fm_model(*fm), fallback@),
{
    match fm {
        Some(f) => match &f.title {
            Some(t) => t.clone(),
            None => fallback.clone(),
        },
        None => fallback.clone(),
    }
}

/// The directory a note's page is written into: the output root with the
/// note's vault-relative parent folders mirrored under it.
pub open spec fn spec_out_dir(output_dir: Seq<char>, rel_path: Seq<char>) -> Seq<char> {
    spec_join_under(output_dir, split_path(rel_path).drop_last())
}

/// The full path of a note's HTML file: its mirrored directory, then its
/// file name with the extension replaced by `html`.
pub open spec fn spec_html_path(output_dir: Seq<char>, rel_path: Seq<char>) -> Seq<char> {
    spec_out_dir(output_dir, rel_path) + "/"@ + html_name_of(split_path(rel_path).last())
}

/// Turns the template engine's outcome into the pipeline's result: exactly
/// the successful renders pass through, paired with the note's record, and
/// a render failure becomes a `Template` error.
pub fn assemble_note_page(
    rendered: Result<String, tera::Error>,
    title: String,
    html_path: String,
) -> (r: Result<(String, Note), SiteError>)
    ensures
        rendered matches Ok(page) ==> (r matches Ok(p) && p.0 == page && p.1@ == (NoteModel {
            title: title@,
            path: html_path@,
        })),
        rendered matches Err(_) ==> (r matches Err(e) && e matches SiteError::Template(_)),
{
    match rendered {
        Ok(page) => Ok((page, Note { title, path: html_path })),
        Err(e) => Err(SiteError::Template(tera_error_text(&e))),
    }
}

// ---------------------------------------------------------------------------
// The per-note pipeline.
// ---------------------------------------------------------------------------

/// Renders one note: resolves its title, rewrites wikilinks in its body,
/// renders the body to HTML and the page through the `base.html` template,
/// and returns the page text together with the note's record.  The only
/// failure is the template engine rejecting the render.
pub fn process_note(
    tera: &tera::Tera,
    fm: &Option<Frontmatter>,
    body: &String,
    rel_path: &String,
    output_dir: &String,
) -> (r: Result<(String, Note), SiteError>)
    ensures
        r matches Ok(p) ==> p.1@ == (NoteModel {
            title: spec_title(option_fm_model(*fm), stem_of(split_path(rel_path@).last())),
            path: spec_html_path(output_dir@, rel_path@),
        }),
        r matches Err(e) ==> (e matches SiteError::Template(_)),
{
    let parts = split_slash(rel_path.as_str());
    let last_idx = parts.len() - 1;
    let name = &parts[last_idx];
    proof {
        assert(parts.deep_view()[last_idx as int] == split_path(rel_path@).last());
        assert(parts.deep_view().take(last_idx as int) =~= split_path(rel_path@).drop_last());
    }
    let stem = file_stem_of(name.as_str());
    let title = resolve_title(fm, &stem);
    let out_dir_file = join_under(output_dir.as_str(), &parts, last_idx);
    let html_name = set_html_extension(name.as_str());
    let mut html_path = out_dir_file.clone();
    html_path.append("/");
    html_path.append(html_name.as_str());
    let rewritten = rewrite_links(body.as_str());
    let html_body = markdown_html(&rewritten);
    let rel_prefix = href_to_root_style_css(out_dir_file.as_str());
    let rendered = match fm {
        Some(f) => render_page_meta(tera, &title, &f.date, &f.tags, &rel_prefix, &html_body),
        None => render_page_bare(tera, &title, &rel_prefix, &html_body),
    };
    assemble_note_page(rendered, title, html_path)
}

} // verus!
