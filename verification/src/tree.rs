use vstd::prelude::*;
use crate::domain::{Note, NoteModel};
use crate::paths::{dir_prefixed, split_path, strip_dir, strip_dir_prefix, split_slash};

verus! {

// ---------------------------------------------------------------------------
// The navigation tree: one node per folder, notes grouped under the folder
// that holds them.  Insertion walks the folder chain of each note's path,
// descending into the child with the matching label or creating it at the
// end of the child list (first-seen order is preserved).
// ---------------------------------------------------------------------------

/// One level of the navigation hierarchy.
#[derive(Debug, PartialEq)]
pub struct Node {
    pub nodes: Vec<Node>,
    pub title: String,
    pub notes: Vec<Note>,
}

/// Mathematical image of a `Node` tree.
#[verifier::ext_equal]
pub struct NodeModel {
    pub title: Seq<char>,
    pub nodes: Seq<NodeModel>,
    pub notes: Seq<NoteModel>,
}

/// The model of a `Node`, folder labels and note records included.  The
/// out-of-range guard in the child closure only serves the termination
/// check; `Seq::new` never applies it outside `0..len`.
pub open spec fn node_model(n: Node) -> NodeModel
    decreases n,
{
    NodeModel {
        title: n.title@,
        nodes: Seq::new(
            n.nodes@.len(),
            |j: int|
                if 0 <= j < n.nodes@.len() {
                    node_model(n.nodes@[j])
                } else {
                    NodeModel {
                        title: Seq::<char>::empty(),
                        nodes: Seq::<NodeModel>::empty(),
                        notes: Seq::<NoteModel>::empty(),
                    }
                },
        ),
        notes: n.notes@.map_values(|x: Note| x@),
    }
}

/// The position of the first child of `ns` labelled `label`, or `ns.len()`
/// if no child carries that label.
pub open spec fn first_child(ns: Seq<NodeModel>, label: Seq<char>) -> int
    decreases ns.len(),
{
    if ns.len() == 0 {
        0
    } else if ns[0].title == label {
        0
    } else {
        1 + first_child(ns.drop_first(), label)
    }
}

pub proof fn lemma_first_child(ns: Seq<NodeModel>, label: Seq<char>)
    ensures
        0 <= first_child(ns, label) <= ns.len(),
        first_child(ns, label) < ns.len() ==> ns[first_child(ns, label)].title == label,
        forall|k: int| 0 <= k < first_child(ns, label) ==> (#[trigger] ns[k]).title != label,
    decreases ns.len(),
{
    if ns.len() != 0 && ns[0].title != label {
        lemma_first_child(ns.drop_first(), label);
        assert forall|k: int| 0 <= k < first_child(ns, label) implies (#[trigger] ns[k]).title
            != label by {
            if k > 0 {
                assert(ns.drop_first()[k - 1] == ns[k]);
            }
        }
    }
}

/// Lookup-or-create insertion: walks the folder chain `parts`, descending
/// into the first child with the matching label or appending a fresh one,
/// and appends `note` at the node the chain resolves to.
pub open spec fn tree_insert(m: NodeModel, parts: Seq<Seq<char>>, note: NoteModel) -> NodeModel
    decreases parts.len(),
{
    if parts.len() == 0 {
        NodeModel { title: m.title, nodes: m.nodes, notes: m.notes.push(note) }
    } else {
        let j = first_child(m.nodes, parts[0]);
        if j < m.nodes.len() {
            NodeModel {
                title: m.title,
                nodes: m.nodes.update(j, tree_insert(m.nodes[j], parts.drop_first(), note)),
                notes: m.notes,
            }
        } else {
            let fresh = NodeModel {
                title: parts[0],
                nodes: Seq::<NodeModel>::empty(),
                notes: Seq::<NoteModel>::empty(),
            };
            NodeModel {
                title: m.title,
                nodes: m.nodes.push(tree_insert(fresh, parts.drop_first(), note)),
                notes: m.notes,
            }
        }
    }
}

/// A mutable borrow of one element of a node list.
fn child_at(v: &mut Vec<Node>, i: usize) -> (element: &mut Node)
    requires
        i < old(v)@.len(),
    ensures
        *element == old(v)@[i as int],
        final(v)@ == old(v)@.update(i as int, *final(element)),
{
    &mut v[i]
}

/// Descends along `parts[from..]`, creating missing children, and appends a
/// copy of `note` at the resolved node; the caller's subtree afterwards is
/// exactly `tree_insert` of its old model.
pub fn find_or_create_node(node: &mut Node, parts: &Vec<String>, from: usize, note: &Note)
    requires
        from <= parts@.len(),
    ensures
        node_model(*final(node)) == tree_insert(
            node_model(*old(node)),
            parts.deep_view().skip(from as int),
            note@,
        ),
    decreases parts@.len() - from,
{
    let ghost parts_seq = parts.deep_view().skip(from as int);
    if from == parts.len() {
        let ghost m0 = node_model(*node);
        node.notes.push(note.clone());
        proof {
            assert(parts_seq.len() == 0);
            assert(node_model(*node).nodes =~= m0.nodes);
            assert(node_model(*node).notes =~= m0.notes.push(note@));
            assert(node_model(*node) =~~= tree_insert(m0, parts_seq, note@));
        }
    } else {
        let ghost m0 = node_model(*node);
        let ghost label_m = parts.deep_view()[from as int];
        let label = &parts[from];
        let n_children = node.nodes.len();
        let mut j: usize = 0;
        let mut idx: usize = n_children;
        while j < n_children
            invariant
                *node == *old(node),
                n_children == node.nodes@.len(),
                j <= n_children,
                label_m == label@,
                m0 == node_model(*node),
                idx == n_children || (idx < j && node.nodes@[idx as int].title@ == label_m),
                idx < n_children ==> forall|k: int|
                    0 <= k < idx ==> (#[trigger] node.nodes@[k]).title@ != label_m,
                idx == n_children ==> forall|k: int|
                    0 <= k < j ==> (#[trigger] node.nodes@[k]).title@ != label_m,
            decreases n_children - j,
        {
            if idx == n_children && node.nodes[j].title == *label {
                idx = j;
            }
            j = j + 1;
        }
        proof {
            lemma_first_child(m0.nodes, label_m);
            assert(m0.nodes.len() == node.nodes@.len());
            assert forall|k: int| 0 <= k < m0.nodes.len() implies (#[trigger] m0.nodes[k]).title
                == node.nodes@[k].title@ by {
                assert(m0.nodes[k] == node_model(node.nodes@[k]));
            }
            assert(first_child(m0.nodes, label_m) == idx as int) by {
                let fc = first_child(m0.nodes, label_m);
                if idx < n_children {
                    if fc < idx {
                        assert(m0.nodes[fc].title == label_m);
                        assert(node.nodes@[fc].title@ != label_m);
                        assert(false);
                    }
                    if fc > idx {
                        assert(m0.nodes[idx as int].title == label_m);
                        assert(m0.nodes[idx as int].title != label_m);
                        assert(false);
                    }
                } else {
                    if fc < n_children {
                        assert(m0.nodes[fc].title == label_m);
                        assert(node.nodes@[fc].title@ != label_m);
                        assert(false);
                    }
                }
            }
            assert(parts_seq[0] == label_m);
            assert(parts_seq.drop_first() =~= parts.deep_view().skip(from as int + 1));
        }
        if idx < n_children {
            let child = child_at(&mut node.nodes, idx);
            let ghost child0 = node_model(*child);
            find_or_create_node(child, parts, from + 1, note);
            proof {
                let inserted = tree_insert(child0, parts.deep_view().skip(from as int + 1), note@);
                assert(node.nodes@ == old(node).nodes@.update(idx as int, node.nodes@[idx as int]));
                assert(node_model(*node).nodes =~= m0.nodes.update(idx as int, inserted)) by {
                    assert forall|k: int| 0 <= k < node.nodes@.len() implies node_model(
                        *node,
                    ).nodes[k] == m0.nodes.update(idx as int, inserted)[k] by {
                        if k != idx as int {
                            assert(node.nodes@[k] == old(node).nodes@[k]);
                        }
                    }
                }
                assert(node_model(*node).notes =~= m0.notes);
                assert(node_model(*node) =~~= tree_insert(m0, parts_seq, note@));
            }
        } else {
            let mut child = Node { nodes: Vec::new(), title: label.clone(), notes: Vec::new() };
            proof {
                assert(node_model(child).nodes =~= Seq::<NodeModel>::empty());
                assert(node_model(child).notes =~= Seq::<NoteModel>::empty());
                assert(node_model(child) =~~= NodeModel {
                    title: label_m,
                    nodes: Seq::<NodeModel>::empty(),
                    notes: Seq::<NoteModel>::empty(),
                });
            }
            let ghost fresh = node_model(child);
            find_or_create_node(&mut child, parts, from + 1, note);
            node.nodes.push(child);
            proof {
                let inserted = tree_insert(fresh, parts.deep_view().skip(from as int + 1), note@);
                assert(node.nodes@ == old(node).nodes@.push(child));
                assert(node_model(*node).nodes =~= m0.nodes.push(node_model(child))) by {
                    assert forall|k: int| 0 <= k < node.nodes@.len() implies node_model(
                        *node,
                    ).nodes[k] == m0.nodes.push(node_model(child))[k] by {
                        if k < old(node).nodes@.len() {
                            assert(node.nodes@[k] == old(node).nodes@[k]);
                        }
                    }
                }
                assert(node_model(*node).notes =~= m0.notes);
                assert(node_model(*node) =~~= tree_insert(m0, parts_seq, note@));
            }
        }
    }
}

// ---------------------------------------------------------------------------
// Building the whole tree from the flat note list.
// ---------------------------------------------------------------------------

/// The folder chain of a note's output path: its components without the
/// file name and without the leading output-root component.
pub open spec fn tree_parts_of(path: Seq<char>) -> Seq<Seq<char>> {
    let ps = split_path(path);
    let no_file = if ps.len() > 0 {
        ps.drop_last()
    } else {
        ps
    };
    if no_file.len() > 0 {
        no_file.drop_first()
    } else {
        no_file
    }
}

/// The record stored in the tree for a note: same title, path relative to
/// the output root.
pub open spec fn note_entry_model(n: NoteModel, dir: Seq<char>) -> NoteModel {
    NoteModel { title: n.title, path: strip_dir(n.path, dir) }
}

/// Folds `tree_insert` over `notes`, in order, starting from `m`.
pub open spec fn spec_build_from(m: NodeModel, notes: Seq<NoteModel>, dir: Seq<char>) -> NodeModel
    decreases notes.len(),
{
    if notes.len() == 0 {
        m
    } else {
        spec_build_from(
            tree_insert(m, tree_parts_of(notes[0].path), note_entry_model(notes[0], dir)),
            notes.drop_first(),
            dir,
        )
    }
}

/// The root the build starts from: labelled with the output directory.
pub open spec fn empty_root(dir: Seq<char>) -> NodeModel {
    NodeModel { title: dir, nodes: Seq::<NodeModel>::empty(), notes: Seq::<NoteModel>::empty() }
}

/// The tree that the builder produces for `notes` under the root `dir`.
pub open spec fn spec_build_tree(notes: Seq<NoteModel>, dir: Seq<char>) -> NodeModel {
    spec_build_from(empty_root(dir), notes, dir)
}

/// Builds the navigation tree from the flat note list, inserting each note
/// in input order under its folder chain.
pub fn initiate_nodes_tree(notes: Vec<Note>, output_dir: &String) -> (root: Node)
    requires
        forall|k: int|
            0 <= k < notes@.len() ==> dir_prefixed((#[trigger] notes@[k]).path@, output_dir@),
    ensures
        node_model(root) == spec_build_tree(notes.deep_view(), output_dir@),
{
    let mut root = Node { nodes: Vec::new(), title: output_dir.clone(), notes: Vec::new() };
    proof {
        assert(node_model(root).nodes =~= Seq::<NodeModel>::empty());
        assert(node_model(root).notes =~= Seq::<NoteModel>::empty());
        assert(node_model(root) =~~= empty_root(output_dir@));
        assert(notes.deep_view().skip(0) =~= notes.deep_view());
    }
    let m = notes.len();
    let mut idx: usize = 0;
    while idx < m
        invariant
            m == notes@.len(),
            idx <= m,
            forall|k: int|
                0 <= k < notes@.len() ==> dir_prefixed((#[trigger] notes@[k]).path@, output_dir@),
            spec_build_tree(notes.deep_view(), output_dir@) == spec_build_from(
                node_model(root),
                notes.deep_view().skip(idx as int),
                output_dir@,
            ),
        decreases m - idx,
    {
        let note_ref = &notes[idx];
        let mut parts = split_slash(note_ref.path.as_str());
        let ghost ps0 = parts.deep_view();
        if parts.len() > 0 {
            let ghost before = parts@;
            let _dropped_name = parts.pop();
            proof {
                assert(parts@ =~= before.drop_last());
                assert(parts.deep_view() =~= ps0.drop_last());
            }
        }
        let ghost ps1 = parts.deep_view();
        if parts.len() > 0 {
            let ghost before = parts@;
            let _dropped_root = parts.remove(0);
            proof {
                assert(parts@ =~= before.skip(1));
                assert(parts.deep_view() =~= ps1.drop_first());
            }
        }
        proof {
            assert(parts.deep_view() =~~= tree_parts_of(note_ref.path@));
        }
        let stripped = strip_dir_prefix(note_ref.path.as_str(), output_dir.as_str());
        let note2 = Note { title: note_ref.title.clone(), path: stripped };
        proof {
            assert(note2@ =~~= note_entry_model(notes.deep_view()[idx as int], output_dir@));
        }
        let ghost root0 = node_model(root);
        find_or_create_node(&mut root, &parts, 0, &note2);
        proof {
            assert(parts.deep_view().skip(0) =~= parts.deep_view());
            let rest = notes.deep_view().skip(idx as int);
            assert(rest[0] == notes.deep_view()[idx as int]);
            assert(rest.drop_first() =~= notes.deep_view().skip(idx as int + 1));
            assert(spec_build_from(root0, rest, output_dir@) == spec_build_from(
                node_model(root),
                notes.deep_view().skip(idx as int + 1),
                output_dir@,
            ));
        }
        idx = idx + 1;
    }
    proof {
        assert(notes.deep_view().skip(m as int) =~= Seq::<NoteModel>::empty());
    }
    root
}

// ---------------------------------------------------------------------------
// The tree's invariant: at most one child per folder name at each level.
// ---------------------------------------------------------------------------

/// Well-formedness of a tree: no two children of any node share a label,
/// at every level.
pub open spec fn wf_node(m: NodeModel) -> bool
    decreases m,
{
    (forall|a: int, b: int|
        0 <= a < b < m.nodes.len() ==> (#[trigger] m.nodes[a]).title != (#[trigger] m.nodes[b]).title)
        && (forall|k: int| 0 <= k < m.nodes.len() ==> wf_node(#[trigger] m.nodes[k]))
}

/// Insertion never renames a node.
pub proof fn lemma_insert_keeps_title(m: NodeModel, parts: Seq<Seq<char>>, note: NoteModel)
    ensures
        tree_insert(m, parts, note).title == m.title,
{
}

/// Lookup-or-create insertion preserves well-formedness: it descends into
/// the one child with the matching label, or appends a child whose label no
/// sibling carries.
pub proof fn lemma_insert_preserves_wf(m: NodeModel, parts: Seq<Seq<char>>, note: NoteModel)
    requires
        wf_node(m),
    ensures
        wf_node(tree_insert(m, parts, note)),
    decreases parts.len(),
{
    let r = tree_insert(m, parts, note);
    if parts.len() == 0 {
        assert(r.nodes == m.nodes);
    } else {
        lemma_first_child(m.nodes, parts[0]);
        let j = first_child(m.nodes, parts[0]);
        if j < m.nodes.len() {
            lemma_insert_keeps_title(m.nodes[j], parts.drop_first(), note);
            lemma_insert_preserves_wf(m.nodes[j], parts.drop_first(), note);
            assert forall|a: int, b: int| 0 <= a < b < r.nodes.len() implies (
            #[trigger] r.nodes[a]).title != (#[trigger] r.nodes[b]).title by {
                assert(r.nodes[a].title == m.nodes[a].title);
                assert(r.nodes[b].title == m.nodes[b].title);
            }
            assert forall|k: int| 0 <= k < r.nodes.len() implies wf_node(
                #[trigger] r.nodes[k],
            ) by {
                if k != j {
                    assert(r.nodes[k] == m.nodes[k]);
                }
            }
        } else {
            let fresh = NodeModel {
                title: parts[0],
                nodes: Seq::<NodeModel>::empty(),
                notes: Seq::<NoteModel>::empty(),
            };
            assert(wf_node(fresh));
            lemma_insert_keeps_title(fresh, parts.drop_first(), note);
            lemma_insert_preserves_wf(fresh, parts.drop_first(), note);
            assert forall|a: int, b: int| 0 <= a < b < r.nodes.len() implies (
            #[trigger] r.nodes[a]).title != (#[trigger] r.nodes[b]).title by {
                if b < m.nodes.len() {
                    assert(r.nodes[a] == m.nodes[a]);
                    assert(r.nodes[b] == m.nodes[b]);
                } else {
                    assert(r.nodes[b].title == parts[0]);
                    assert(r.nodes[a] == m.nodes[a]);
                    assert(m.nodes[a].title != parts[0]);
                }
            }
            assert forall|k: int| 0 <= k < r.nodes.len() implies wf_node(
                #[trigger] r.nodes[k],
            ) by {
                if k < m.nodes.len() {
                    assert(r.nodes[k] == m.nodes[k]);
                }
            }
        }
    }
}

proof fn lemma_build_from_preserves_wf(m: NodeModel, notes: Seq<NoteModel>, dir: Seq<char>)
    requires
        wf_node(m),
    ensures
        wf_node(spec_build_from(m, notes, dir)),
    decreases notes.len(),
{
    if notes.len() != 0 {
        lemma_insert_preserves_wf(m, tree_parts_of(notes[0].path), note_entry_model(notes[0], dir));
        lemma_build_from_preserves_wf(
            tree_insert(m, tree_parts_of(notes[0].path), note_entry_model(notes[0], dir)),
            notes.drop_first(),
            dir,
        );
    }
}

/// The built tree is well-formed: every node has at most one child per
/// distinct folder name.
pub proof fn lemma_build_tree_wf(notes: Seq<NoteModel>, dir: Seq<char>)
    ensures
        wf_node(spec_build_tree(notes, dir)),
{
    assert(wf_node(empty_root(dir)));
    lemma_build_from_preserves_wf(empty_root(dir), notes, dir);
}

/// Building the tree is deterministic: two trees built from the same note
/// list under the same root have identical shape, labels and note order.
pub proof fn lemma_build_tree_deterministic(
    r1: Node,
    r2: Node,
    notes: Seq<NoteModel>,
    dir: Seq<char>,
)
    requires
        node_model(r1) == spec_build_tree(notes, dir),
        node_model(r2) == spec_build_tree(notes, dir),
    ensures
        node_model(r1) == node_model(r2),
{
}

} // verus!
