use vstd::prelude::*;

verus! {

/// Metadata fields read from a note's optional leading frontmatter block.
/// Every field is optional; an absent block is modelled as `None` at the
/// call sites that consume a whole `Option<Frontmatter>`.
pub struct Frontmatter {
    pub title: Option<String>,
    pub date: Option<String>,
    pub tags: Option<Vec<String>>,
}

/// Mathematical image of a `Frontmatter` value.
pub struct FrontmatterModel {
    pub title: Option<Seq<char>>,
    pub date: Option<Seq<char>>,
    pub tags: Option<Seq<Seq<char>>>,
}

impl View for Frontmatter {
    type V = FrontmatterModel;

    open spec fn view(&self) -> FrontmatterModel {
        FrontmatterModel {
            title: match self.title {
                Some(t) => Some(t@),
                None => None,
            },
            date: match self.date {
                Some(d) => Some(d@),
                None => None,
            },
            tags: match self.tags {
                Some(ts) => Some(ts.deep_view()),
                None => None,
            },
        }
    }
}

/// One emitted page: its resolved title and the path of its HTML file.
#[derive(Debug, PartialEq)]
pub struct Note {
    pub title: String,
    pub path: String,
}

/// Mathematical image of a `Note` value.
pub struct NoteModel {
    pub title: Seq<char>,
    pub path: Seq<char>,
}

impl View for Note {
    type V = NoteModel;

    open spec fn view(&self) -> NoteModel {
        NoteModel { title: self.title@, path: self.path@ }
    }
}

impl DeepView for Note {
    type V = NoteModel;

    open spec fn deep_view(&self) -> NoteModel {
        self.view()
    }
}

impl Clone for Note {
    fn clone(&self) -> (r: Note)
        ensures
            r == *self,
    {
        Note { title: self.title.clone(), path: self.path.clone() }
    }
}

/// The failures that the per-note pipeline can surface: a frontmatter block
/// that the metadata parser rejects, or a page template that fails to render.
#[derive(Debug)]
pub enum SiteError {
    Frontmatter(String),
    Template(String),
}

/// The descriptive text carried by an error value.
pub open spec fn error_text_of(e: SiteError) -> Seq<char> {
    match e {
        SiteError::Frontmatter(s) => s@,
        SiteError::Template(s) => s@,
    }
}

impl SiteError {
    /// The underlying cause, as text suitable for reporting.
    pub fn message(&self) -> (m: String)
        ensures
            m@ == error_text_of(*self),
    {
        match self {
            SiteError::Frontmatter(s) => s.clone(),
            SiteError::Template(s) => s.clone(),
        }
    }
}

} // verus!
