use notesite::domain::{Frontmatter, SiteError};
use notesite::pipeline::{assemble_note_page, process_note, split_frontmatter};
use notesite::tags::{record_note_tags, TagIndex};
use tera::Tera;

fn page_template() -> Tera {
    let mut tera = Tera::new();
    tera.add_raw_template("base.html", "<h1>{{ title }}</h1>\n{{ content | safe }}").unwrap();
    tera
}

fn pod_title_and_tags(pod: &gray_matter::Pod) -> (Option<String>, Option<Vec<String>>) {
    let map = pod.as_hashmap().unwrap();
    let title = map.get("title").map(|p| p.as_string().unwrap());
    let tags = map.get("tags").map(|p| {
        p.as_vec().unwrap().iter().map(|t| t.as_string().unwrap()).collect::<Vec<String>>()
    });
    (title, tags)
}

#[test]
fn frontmatter_is_split_off_the_body() {
    let raw = "---\ntitle: Home\n---\nOther stuff".to_string();
    let (data, body) = split_frontmatter(&raw).unwrap();
    assert_eq!(body, "Other stuff");
    let (title, tags) = pod_title_and_tags(&data.unwrap());
    assert_eq!(title.as_deref(), Some("Home"));
    assert!(tags.is_none());
}

#[test]
fn text_without_frontmatter_passes_through() {
    let raw = "no metadata at all".to_string();
    let (data, body) = split_frontmatter(&raw).unwrap();
    assert!(data.is_none());
    assert_eq!(body, "no metadata at all");
}

#[test]
fn vault_scenario_end_to_end() {
    let tera = page_template();
    let mut tags = TagIndex::new();
    let mut notes = Vec::new();

    // notes/a.md: frontmatter title Alpha, tags [intro], body linking to b.
    let raw_a = "---\ntitle: Alpha\ntags: [intro]\n---\n[[b]]".to_string();
    let (data_a, body_a) = split_frontmatter(&raw_a).unwrap();
    let (title_a, tags_a) = pod_title_and_tags(&data_a.unwrap());
    let fm_a = Some(Frontmatter { title: title_a, date: None, tags: tags_a });
    let (page_a, note_a) = process_note(
        &tera,
        &fm_a,
        &body_a,
        &"notes/a.md".to_string(),
        &"dist".to_string(),
    )
    .unwrap();
    assert_eq!(note_a.title, "Alpha");
    assert_eq!(note_a.path, "dist/notes/a.html");
    assert!(page_a.contains("<h1>Alpha</h1>"));
    assert!(page_a.contains("<a href=\"b.html\">b</a>"));
    if let Some(f) = &fm_a {
        record_note_tags(&mut tags, &f.tags, &note_a);
    }
    notes.push(note_a.clone());

    // notes/b.md: no frontmatter; the title falls back to the file stem.
    let raw_b = "just text".to_string();
    let (data_b, body_b) = split_frontmatter(&raw_b).unwrap();
    assert!(data_b.is_none());
    let (page_b, note_b) = process_note(
        &tera,
        &None,
        &body_b,
        &"notes/b.md".to_string(),
        &"dist".to_string(),
    )
    .unwrap();
    assert_eq!(note_b.title, "b");
    assert_eq!(note_b.path, "dist/notes/b.html");
    assert!(page_b.contains("<h1>b</h1>"));
    notes.push(note_b);

    // The tag accumulator holds intro -> [the Alpha note], once.
    assert_eq!(tags.entries.len(), 1);
    assert_eq!(tags.entries[0].0, "intro");
    assert_eq!(tags.entries[0].1.len(), 1);
    assert_eq!(tags.entries[0].1[0], note_a);
}

#[test]
fn missing_template_surfaces_a_template_error() {
    let tera = Tera::new();
    let r = process_note(
        &tera,
        &None,
        &"body".to_string(),
        &"a.md".to_string(),
        &"dist".to_string(),
    );
    match r {
        Err(SiteError::Template(_)) => {}
        other => panic!("expected a template error, got {:?}", other.map(|p| p.1)),
    }
}

#[test]
fn malformed_frontmatter_surfaces_a_frontmatter_error() {
    let raw = "---\ntitle: [unclosed\n---\nbody".to_string();
    match split_frontmatter(&raw) {
        Err(e) => {
            assert!(matches!(e, SiteError::Frontmatter(_)));
            assert!(!e.message().is_empty());
        }
        Ok(_) => panic!("expected the frontmatter parser to reject the block"),
    }
}

#[test]
fn note_file_names_are_mirrored_unmodified() {
    let tera = page_template();
    let (_, note) = process_note(
        &tera,
        &None,
        &"body".to_string(),
        &"we?ird.md".to_string(),
        &"dist".to_string(),
    )
    .unwrap();
    assert_eq!(note.path, "dist/we?ird.html");
    assert_eq!(note.title, "we?ird");
}

#[test]
fn assembling_pairs_page_with_note_record() {
    let ok: Result<String, tera::Error> = Ok("<p>page</p>".to_string());
    let (page, note) =
        assemble_note_page(ok, "T".to_string(), "dist/t.html".to_string()).unwrap();
    assert_eq!(page, "<p>page</p>");
    assert_eq!(note.title, "T");
    assert_eq!(note.path, "dist/t.html");

    let failed = Tera::new().render("missing.html", &tera::Context::new());
    let r = assemble_note_page(failed, "T".to_string(), "dist/t.html".to_string());
    assert!(matches!(r, Err(SiteError::Template(_))));
}

#[test]
fn error_messages_carry_their_text() {
    let e = SiteError::Template("missing template".to_string());
    assert_eq!(e.message(), "missing template");
}
