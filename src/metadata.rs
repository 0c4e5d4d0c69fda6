use vstd::prelude::*;

verus! {

/// The text of an optional string field.
pub open spec fn opt_text(s: Option<String>) -> Option<Seq<char>> {
    match s {
        Some(t) => Some(t@),
        None => None,
    }
}

/// What the `INFO` list says of the cursor.
pub struct MetadataModel {
    pub title: Option<Seq<char>>,
    pub author: Option<Seq<char>>,
}

/// Title and author of a cursor, each optional.
#[derive(Debug, Clone)]
pub struct Metadata {
    title: Option<String>,
    author: Option<String>,
}

impl View for Metadata {
    type V = MetadataModel;

    closed spec fn view(&self) -> MetadataModel {
        MetadataModel { title: opt_text(self.title), author: opt_text(self.author) }
    }
}

impl Metadata {
    pub fn new(title: Option<String>, author: Option<String>) -> (r: Self)
        ensures
            r@ == (MetadataModel { title: opt_text(title), author: opt_text(author) }),
    {
        Metadata { title, author }
    }

    /// The name of the cursor, if the file gives one.
    pub fn title(&self) -> (r: Option<&str>)
        ensures
            match r {
                Some(t) => self@.title == Some(t@),
                None => self@.title is None,
            },
    {
        match &self.title {
            Some(t) => Some(t.as_str()),
            None => None,
        }
    }

    /// The author of the cursor, if the file gives one.
    pub fn author(&self) -> (r: Option<&str>)
        ensures
            match r {
                Some(t) => self@.author == Some(t@),
                None => self@.author is None,
            },
    {
        match &self.author {
            Some(t) => Some(t.as_str()),
            None => None,
        }
    }
}

} // verus!
