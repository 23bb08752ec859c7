use notesite::domain::Note;
use notesite::tags::{record_note_tags, TagIndex};
use notesite::tree::{find_or_create_node, initiate_nodes_tree, Node};

fn note(title: &str, path: &str) -> Note {
    Note { title: title.to_string(), path: path.to_string() }
}

#[test]
fn tree_groups_notes_by_folder() {
    let notes = vec![
        note("note1", "out/a/b/note1.html"),
        note("note2", "out/a/note2.html"),
        note("note3", "out/note3.html"),
    ];
    let root = initiate_nodes_tree(notes, &"out".to_string());

    assert_eq!(root.title, "out");
    assert_eq!(root.nodes.len(), 1);
    assert_eq!(root.notes.len(), 1);
    assert_eq!(root.notes[0], note("note3", "note3.html"));

    let a = &root.nodes[0];
    assert_eq!(a.title, "a");
    assert_eq!(a.nodes.len(), 1);
    assert_eq!(a.notes.len(), 1);
    assert_eq!(a.notes[0], note("note2", "a/note2.html"));

    let b = &a.nodes[0];
    assert_eq!(b.title, "b");
    assert_eq!(b.nodes.len(), 0);
    assert_eq!(b.notes.len(), 1);
    assert_eq!(b.notes[0], note("note1", "a/b/note1.html"));
}

#[test]
fn tree_build_is_deterministic() {
    let notes = vec![
        note("n1", "out/x/n1.html"),
        note("n2", "out/y/n2.html"),
        note("n3", "out/x/n3.html"),
        note("n4", "out/n4.html"),
    ];
    let t1 = initiate_nodes_tree(notes.clone(), &"out".to_string());
    let t2 = initiate_nodes_tree(notes, &"out".to_string());
    assert_eq!(t1, t2);
}

#[test]
fn tree_reuses_folder_nodes_in_first_seen_order() {
    let notes = vec![
        note("n1", "out/b/n1.html"),
        note("n2", "out/a/n2.html"),
        note("n3", "out/b/n3.html"),
    ];
    let root = initiate_nodes_tree(notes, &"out".to_string());
    assert_eq!(root.nodes.len(), 2);
    assert_eq!(root.nodes[0].title, "b");
    assert_eq!(root.nodes[1].title, "a");
    assert_eq!(root.nodes[0].notes.len(), 2);
    assert_eq!(root.nodes[0].notes[0].title, "n1");
    assert_eq!(root.nodes[0].notes[1].title, "n3");
}

#[test]
fn find_or_create_descends_and_creates() {
    let mut root = Node { nodes: Vec::new(), title: "root".to_string(), notes: Vec::new() };
    let parts = vec!["a".to_string(), "b".to_string()];
    let n = note("deep", "a/b/deep.html");
    find_or_create_node(&mut root, &parts, 0, &n);
    assert_eq!(root.nodes.len(), 1);
    assert_eq!(root.nodes[0].title, "a");
    assert_eq!(root.nodes[0].nodes[0].title, "b");
    assert_eq!(root.nodes[0].nodes[0].notes[0], n);

    // A second note along the same chain reuses the nodes.
    let m = note("deeper", "a/b/deeper.html");
    find_or_create_node(&mut root, &parts, 0, &m);
    assert_eq!(root.nodes.len(), 1);
    assert_eq!(root.nodes[0].nodes.len(), 1);
    assert_eq!(root.nodes[0].nodes[0].notes.len(), 2);
}

#[test]
fn note_with_two_tags_lands_in_both_lists_once() {
    let mut idx = TagIndex::new();
    let n1 = note("first", "out/first.html");
    let n2 = note("second", "out/second.html");
    record_note_tags(&mut idx, &Some(vec!["x".to_string(), "y".to_string()]), &n1);
    record_note_tags(&mut idx, &Some(vec!["x".to_string()]), &n2);

    assert_eq!(idx.entries.len(), 2);
    assert_eq!(idx.entries[0].0, "x");
    assert_eq!(idx.entries[0].1, vec![n1.clone(), n2.clone()]);
    assert_eq!(idx.entries[1].0, "y");
    assert_eq!(idx.entries[1].1, vec![n1.clone()]);
}

#[test]
fn duplicate_tag_is_appended_twice() {
    let mut idx = TagIndex::new();
    let n = note("dup", "out/dup.html");
    record_note_tags(&mut idx, &Some(vec!["t".to_string(), "t".to_string()]), &n);
    assert_eq!(idx.entries.len(), 1);
    assert_eq!(idx.entries[0].1.len(), 2);
}

#[test]
fn note_without_tags_leaves_index_unchanged() {
    let mut idx = TagIndex::new();
    record_note_tags(&mut idx, &None, &note("quiet", "out/quiet.html"));
    assert_eq!(idx.entries.len(), 0);
}
