use vstd::prelude::*;
use crate::domain::{Note, NoteModel};

verus! {

// ---------------------------------------------------------------------------
// The tag index: a mapping from tag to the notes that declare it, in
// processing order.  Keys are kept unique by the lookup-or-create update;
// entries appear in first-seen order.  The index is modelled as the
// association sequence of (tag, note list) pairs.
// ---------------------------------------------------------------------------

/// Tag → ordered note list, keys unique, first-seen entry order.
pub struct TagIndex {
    pub entries: Vec<(String, Vec<Note>)>,
}

/// Mathematical image of one entry.
pub open spec fn entry_model(e: (String, Vec<Note>)) -> (Seq<char>, Seq<NoteModel>) {
    (e.0@, e.1.deep_view())
}

/// Mathematical image of the whole index.
pub open spec fn tag_model(t: TagIndex) -> Seq<(Seq<char>, Seq<NoteModel>)> {
    t.entries@.map_values(|e: (String, Vec<Note>)| entry_model(e))
}

/// The position of the first entry keyed `tag`, or `m.len()` if absent.
pub open spec fn first_entry(m: Seq<(Seq<char>, Seq<NoteModel>)>, tag: Seq<char>) -> int
    decreases m.len(),
{
    if m.len() == 0 {
        0
    } else if m[0].0 == tag {
        0
    } else {
        1 + first_entry(m.drop_first(), tag)
    }
}

pub proof fn lemma_first_entry(m: Seq<(Seq<char>, Seq<NoteModel>)>, tag: Seq<char>)
    ensures
        0 <= first_entry(m, tag) <= m.len(),
        first_entry(m, tag) < m.len() ==> m[first_entry(m, tag)].0 == tag,
        forall|k: int| 0 <= k < first_entry(m, tag) ==> (#[trigger] m[k]).0 != tag,
    decreases m.len(),
{
    if m.len() != 0 && m[0].0 != tag {
        lemma_first_entry(m.drop_first(), tag);
        assert forall|k: int| 0 <= k < first_entry(m, tag) implies (#[trigger] m[k]).0 != tag by {
            if k > 0 {
                assert(m.drop_first()[k - 1] == m[k]);
            }
        }
    }
}

/// `m` with `note` appended to the list under `tag` (the list is created if
/// the tag is new; nothing is deduplicated).
pub open spec fn spec_record(
    m: Seq<(Seq<char>, Seq<NoteModel>)>,
    tag: Seq<char>,
    note: NoteModel,
) -> Seq<(Seq<char>, Seq<NoteModel>)> {
    let j = first_entry(m, tag);
    if j < m.len() {
        m.update(j, (tag, m[j].1.push(note)))
    } else {
        m.push((tag, seq![note]))
    }
}

/// The ordered note list recorded under `tag`.
pub open spec fn spec_tag_list(
    m: Seq<(Seq<char>, Seq<NoteModel>)>,
    tag: Seq<char>,
) -> Seq<NoteModel> {
    let j = first_entry(m, tag);
    if j < m.len() {
        m[j].1
    } else {
        Seq::<NoteModel>::empty()
    }
}

/// A mutable borrow of one entry of the index.
fn entry_at(v: &mut Vec<(String, Vec<Note>)>, i: usize) -> (element: &mut (String, Vec<Note>))
    requires
        i < old(v)@.len(),
    ensures
        *element == old(v)@[i as int],
        final(v)@ == old(v)@.update(i as int, *final(element)),
{
    &mut v[i]
}

impl TagIndex {
    /// An empty index.
    pub fn new() -> (t: TagIndex)
        ensures
            tag_model(t) == Seq::<(Seq<char>, Seq<NoteModel>)>::empty(),
    {
        let t = TagIndex { entries: Vec::new() };
        proof {
            assert(tag_model(t) =~= Seq::<(Seq<char>, Seq<NoteModel>)>::empty());
        }
        t
    }

    /// Appends `note` under `tag`, creating the entry if the tag is new.
    pub fn record(&mut self, tag: &String, note: &Note)
        ensures
            tag_model(*final(self)) == spec_record(tag_model(*old(self)), tag@, note@),
    {
        let ghost m0 = tag_model(*self);
        let n = self.entries.len();
        let mut j: usize = 0;
        let mut idx: usize = n;
        while j < n
            invariant
                *self == *old(self),
                n == self.entries@.len(),
                j <= n,
                m0 == tag_model(*self),
                idx == n || (idx < j && self.entries@[idx as int].0@ == tag@),
                idx < n ==> forall|k: int|
                    0 <= k < idx ==> (#[trigger] self.entries@[k]).0@ != tag@,
                idx == n ==> forall|k: int|
                    0 <= k < j ==> (#[trigger] self.entries@[k]).0@ != tag@,
            decreases n - j,
        {
            if idx == n && self.entries[j].0 == *tag {
                idx = j;
            }
            j = j + 1;
        }
        proof {
            lemma_first_entry(m0, tag@);
            assert forall|k: int| 0 <= k < m0.len() implies (#[trigger] m0[k]).0
                == self.entries@[k].0@ by {}
            assert(first_entry(m0, tag@) == idx as int) by {
                let fc = first_entry(m0, tag@);
                if idx < n {
                    if fc < idx {
                        assert(m0[fc].0 == tag@);
                        assert(self.entries@[fc].0@ != tag@);
                        assert(false);
                    }
                    if fc > idx {
                        assert(m0[idx as int].0 == tag@);
                        assert(m0[idx as int].0 != tag@);
                        assert(false);
                    }
                } else {
                    if fc < n {
                        assert(m0[fc].0 == tag@);
                        assert(self.entries@[fc].0@ != tag@);
                        assert(false);
                    }
                }
            }
        }
        if idx < n {
            let e = entry_at(&mut self.entries, idx);
            let ghost e0 = *e;
            e.1.push(note.clone());
            proof {
                assert(e.1.deep_view() =~= e0.1.deep_view().push(note@));
                assert(entry_model(*e) == (e0.0@, e0.1.deep_view().push(note@)));
                assert(tag_model(*self) =~= spec_record(m0, tag@, note@)) by {
                    assert forall|k: int| 0 <= k < self.entries@.len() implies tag_model(
                        *self,
                    )[k] == spec_record(m0, tag@, note@)[k] by {
                        if k != idx as int {
                            assert(self.entries@[k] == old(self).entries@[k]);
                        } else {
                            assert(m0[k].0 == tag@);
                        }
                    }
                }
            }
        } else {
            let mut list: Vec<Note> = Vec::new();
            list.push(note.clone());
            proof {
                assert(list.deep_view() =~= seq![note@]);
            }
            self.entries.push((tag.clone(), list));
            proof {
                assert(tag_model(*self) =~= spec_record(m0, tag@, note@)) by {
                    assert forall|k: int| 0 <= k < self.entries@.len() implies tag_model(
                        *self,
                    )[k] == spec_record(m0, tag@, note@)[k] by {
                        if k < old(self).entries@.len() {
                            assert(self.entries@[k] == old(self).entries@[k]);
                        }
                    }
                }
            }
        }
    }
}

// ---------------------------------------------------------------------------
// Recording every tag a note declares.
// ---------------------------------------------------------------------------

/// Records `note` under each of `tags`, left to right.
pub open spec fn spec_record_list(
    m: Seq<(Seq<char>, Seq<NoteModel>)>,
    tags: Seq<Seq<char>>,
    note: NoteModel,
) -> Seq<(Seq<char>, Seq<NoteModel>)>
    decreases tags.len(),
{
    if tags.len() == 0 {
        m
    } else {
        spec_record_list(spec_record(m, tags[0], note), tags.drop_first(), note)
    }
}

/// Records `note` under each declared tag; a note without a tag list leaves
/// the index unchanged.
pub open spec fn spec_record_all(
    m: Seq<(Seq<char>, Seq<NoteModel>)>,
    tags: Option<Seq<Seq<char>>>,
    note: NoteModel,
) -> Seq<(Seq<char>, Seq<NoteModel>)> {
    match tags {
        Some(ts) => spec_record_list(m, ts, note),
        None => m,
    }
}

/// Feeds every tag of a note to the index, in declaration order.
pub fn record_note_tags(idx: &mut TagIndex, tags: &Option<Vec<String>>, note: &Note)
    ensures
        tag_model(*final(idx)) == spec_record_all(tag_model(*old(idx)), tags.deep_view(), note@),
{
    match tags {
        Some(ts) => {
            let n = ts.len();
            let mut i: usize = 0;
            proof {
                assert(ts.deep_view().skip(0) =~= ts.deep_view());
            }
            while i < n
                invariant
                    n == ts@.len(),
                    i <= n,
                    spec_record_list(tag_model(*old(idx)), ts.deep_view(), note@)
                        == spec_record_list(
                        tag_model(*idx),
                        ts.deep_view().skip(i as int),
                        note@,
                    ),
                decreases n - i,
            {
                proof {
                    let rest = ts.deep_view().skip(i as int);
                    assert(rest[0] == ts.deep_view()[i as int]);
                    assert(rest.drop_first() =~= ts.deep_view().skip(i as int + 1));
                }
                idx.record(&ts[i], note);
                i = i + 1;
            }
            proof {
                assert(ts.deep_view().skip(n as int) =~= Seq::<Seq<char>>::empty());
            }
        },
        None => {},
    }
}

// ---------------------------------------------------------------------------
// Laws of recording.
// ---------------------------------------------------------------------------

proof fn lemma_first_entry_update(
    m: Seq<(Seq<char>, Seq<NoteModel>)>,
    j: int,
    e: (Seq<char>, Seq<NoteModel>),
    tag: Seq<char>,
)
    requires
        0 <= j < m.len(),
        e.0 == m[j].0,
    ensures
        first_entry(m.update(j, e), tag) == first_entry(m, tag),
    decreases m.len(),
{
    if j == 0 {
        assert(m.update(0, e)[0].0 == m[0].0);
        if m[0].0 != tag {
            assert(m.update(0, e).drop_first() =~= m.drop_first());
        }
    } else {
        assert(m.update(j, e)[0] == m[0]);
        if m[0].0 != tag {
            assert(m.update(j, e).drop_first() =~= m.drop_first().update(j - 1, e));
            lemma_first_entry_update(m.drop_first(), j - 1, e, tag);
        }
    }
}

proof fn lemma_first_entry_push(
    m: Seq<(Seq<char>, Seq<NoteModel>)>,
    e: (Seq<char>, Seq<NoteModel>),
    tag: Seq<char>,
)
    ensures
        first_entry(m.push(e), tag) == if first_entry(m, tag) < m.len() {
            first_entry(m, tag)
        } else if e.0 == tag {
            m.len() as int
        } else {
            m.len() as int + 1
        },
    decreases m.len(),
{
    lemma_first_entry(m, tag);
    if m.len() == 0 {
        assert(m.push(e).len() == 1);
        assert(m.push(e)[0] == e);
        if e.0 == tag {
            assert(first_entry(m.push(e), tag) == 0);
        } else {
            assert(m.push(e).drop_first() =~= Seq::<(Seq<char>, Seq<NoteModel>)>::empty());
            assert(first_entry(Seq::<(Seq<char>, Seq<NoteModel>)>::empty(), tag) == 0);
            assert(first_entry(m.push(e), tag) == 1);
        }
    } else {
        assert(m.push(e)[0] == m[0]);
        if m[0].0 == tag {
            assert(first_entry(m.push(e), tag) == 0);
            assert(first_entry(m, tag) == 0);
        } else {
            assert(m.push(e).drop_first() =~= m.drop_first().push(e));
            lemma_first_entry_push(m.drop_first(), e, tag);
            lemma_first_entry(m.drop_first(), tag);
            assert(first_entry(m.push(e), tag) == 1 + first_entry(
                m.drop_first().push(e),
                tag,
            ));
            assert(first_entry(m, tag) == 1 + first_entry(m.drop_first(), tag));
        }
    }
}

/// Recording a note under a tag appends exactly that note, once, at the end
/// of that tag's list.
pub proof fn lemma_record_appends(
    m: Seq<(Seq<char>, Seq<NoteModel>)>,
    tag: Seq<char>,
    note: NoteModel,
)
    ensures
        spec_tag_list(spec_record(m, tag, note), tag) == spec_tag_list(m, tag).push(note),
{
    lemma_first_entry(m, tag);
    let j = first_entry(m, tag);
    if j < m.len() {
        lemma_first_entry_update(m, j, (tag, m[j].1.push(note)), tag);
    } else {
        lemma_first_entry_push(m, (tag, seq![note]), tag);
        assert(Seq::<NoteModel>::empty().push(note) =~= seq![note]);
    }
}

/// Recording under one tag leaves every other tag's list unchanged.
pub proof fn lemma_record_other_unchanged(
    m: Seq<(Seq<char>, Seq<NoteModel>)>,
    tag: Seq<char>,
    other: Seq<char>,
    note: NoteModel,
)
    requires
        other != tag,
    ensures
        spec_tag_list(spec_record(m, tag, note), other) == spec_tag_list(m, other),
{
    lemma_first_entry(m, tag);
    lemma_first_entry(m, other);
    let j = first_entry(m, tag);
    let jo = first_entry(m, other);
    if j < m.len() {
        lemma_first_entry_update(m, j, (tag, m[j].1.push(note)), other);
        if jo < m.len() {
            assert(m[jo].0 == other);
            assert(jo != j);
        }
    } else {
        lemma_first_entry_push(m, (tag, seq![note]), other);
    }
}

/// The index's invariant: no two entries share a key.
pub open spec fn wf_tags(m: Seq<(Seq<char>, Seq<NoteModel>)>) -> bool {
    forall|a: int, b: int| 0 <= a < b < m.len() ==> (#[trigger] m[a]).0 != (#[trigger] m[b]).0
}

/// Recording keeps the index's keys unique: an existing entry is extended
/// in place, and a new key is appended only when it is absent.
pub proof fn lemma_record_preserves_unique(
    m: Seq<(Seq<char>, Seq<NoteModel>)>,
    tag: Seq<char>,
    note: NoteModel,
)
    requires
        wf_tags(m),
    ensures
        wf_tags(spec_record(m, tag, note)),
{
    lemma_first_entry(m, tag);
    let j = first_entry(m, tag);
    let r = spec_record(m, tag, note);
    if j < m.len() {
        assert(m[j].0 == tag);
        assert forall|a: int, b: int| 0 <= a < b < r.len() implies (#[trigger] r[a]).0
            != (#[trigger] r[b]).0 by {
            assert(r[a].0 == m[a].0);
            assert(r[b].0 == m[b].0);
        }
    } else {
        assert forall|a: int, b: int| 0 <= a < b < r.len() implies (#[trigger] r[a]).0
            != (#[trigger] r[b]).0 by {
            if b < m.len() {
                assert(r[a].0 == m[a].0);
                assert(r[b].0 == m[b].0);
            } else {
                assert(r[b].0 == tag);
                assert(r[a].0 == m[a].0);
                assert(m[a].0 != tag);
            }
        }
    }
}

/// Recording into an empty index creates exactly one entry: the tag, with a
/// one-element list holding the note.
pub proof fn lemma_record_on_empty(tag: Seq<char>, note: NoteModel)
    ensures
        spec_record(Seq::<(Seq<char>, Seq<NoteModel>)>::empty(), tag, note) == seq![
            (tag, seq![note]),
        ],
{
    assert(first_entry(Seq::<(Seq<char>, Seq<NoteModel>)>::empty(), tag) == 0);
    assert(Seq::<(Seq<char>, Seq<NoteModel>)>::empty().push((tag, seq![note])) =~= seq![
        (tag, seq![note]),
    ]);
}

/// A note declaring two distinct tags is appended, once, to both lists.
pub proof fn lemma_two_tags(
    m: Seq<(Seq<char>, Seq<NoteModel>)>,
    x: Seq<char>,
    y: Seq<char>,
    note: NoteModel,
)
    requires
        x != y,
    ensures
        spec_tag_list(spec_record(spec_record(m, x, note), y, note), x) == spec_tag_list(
            m,
            x,
        ).push(note),
        spec_tag_list(spec_record(spec_record(m, x, note), y, note), y) == spec_tag_list(
            m,
            y,
        ).push(note),
{
    lemma_record_appends(m, x, note);
    lemma_record_other_unchanged(spec_record(m, x, note), y, x, note);
    lemma_record_other_unchanged(m, x, y, note);
    lemma_record_appends(spec_record(m, x, note), y, note);
}

/// What `record_note_tags` does for a note declaring the tag list `[x, y]`
/// with distinct tags: the note is appended exactly once to each of the two
/// lists, and the list of every other key is unchanged.
pub proof fn lemma_record_list_two_tags(
    m: Seq<(Seq<char>, Seq<NoteModel>)>,
    x: Seq<char>,
    y: Seq<char>,
    other: Seq<char>,
    note: NoteModel,
)
    requires
        x != y,
        other != x,
        other != y,
    ensures
        spec_tag_list(spec_record_list(m, seq![x, y], note), x) == spec_tag_list(m, x).push(note),
        spec_tag_list(spec_record_list(m, seq![x, y], note), y) == spec_tag_list(m, y).push(note),
        spec_tag_list(spec_record_list(m, seq![x, y], note), other) == spec_tag_list(m, other),
{
    let ts = seq![x, y];
    let m1 = spec_record(m, x, note);
    let m2 = spec_record(m1, y, note);
    assert(ts.drop_first() =~= seq![y]);
    assert(seq![y].drop_first() =~= Seq::<Seq<char>>::empty());
    assert(spec_record_list(m, ts, note) == spec_record_list(m1, seq![y], note));
    assert(spec_record_list(m1, seq![y], note) == spec_record_list(
        m2,
        Seq::<Seq<char>>::empty(),
        note,
    ));
    assert(spec_record_list(m, ts, note) == m2);
    lemma_two_tags(m, x, y, note);
    lemma_record_other_unchanged(m, x, other, note);
    lemma_record_other_unchanged(m1, y, other, note);
}

} // verus!
