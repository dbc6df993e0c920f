use vstd::prelude::*;

verus! {

/// One row of the snippets table. A snippet is never removed: deletion is a
/// tombstone, so that the sync engine can propagate it to a remote peer.
#[derive(Clone, Debug, PartialEq, Eq)]
pub struct SnippetRow {
    pub id: i64,
    pub name: String,
    pub content: String,
    pub deleted: bool,
    pub last_updated: i64,
}

/// The mathematical value of a `SnippetRow`.
#[verifier::ext_equal]
pub ghost struct SnippetRowV {
    pub id: int,
    pub name: Seq<char>,
    pub content: Seq<char>,
    pub deleted: bool,
    pub last_updated: int,
}

impl View for SnippetRow {
    type V = SnippetRowV;

    open spec fn view(&self) -> SnippetRowV {
        SnippetRowV {
            id: self.id as int,
            name: self.name@,
            content: self.content@,
            deleted: self.deleted,
            last_updated: self.last_updated as int,
        }
    }
}

impl DeepView for SnippetRow {
    type V = SnippetRowV;

    open spec fn deep_view(&self) -> SnippetRowV {
        self.view()
    }
}

/// One row of the tags table: shared vocabulary, never touched by snippet
/// deletion. Tag names are unique across all rows, deleted or not.
#[derive(Clone, Debug, PartialEq, Eq)]
pub struct TagRow {
    pub id: i64,
    pub name: String,
    pub deleted: bool,
    pub last_updated: i64,
}

/// The mathematical value of a `TagRow`.
#[verifier::ext_equal]
pub ghost struct TagRowV {
    pub id: int,
    pub name: Seq<char>,
    pub deleted: bool,
    pub last_updated: int,
}

impl View for TagRow {
    type V = TagRowV;

    open spec fn view(&self) -> TagRowV {
        TagRowV {
            id: self.id as int,
            name: self.name@,
            deleted: self.deleted,
            last_updated: self.last_updated as int,
        }
    }
}

impl DeepView for TagRow {
    type V = TagRowV;

    open spec fn deep_view(&self) -> TagRowV {
        self.view()
    }
}

/// One row of the snippet-tag association table, unique on
/// `(snippet_id, tag_id)`; its own tombstone flag lets the same pair be
/// removed and re-added without a second row.
#[derive(Clone, Debug, PartialEq, Eq)]
pub struct SnippetTagRow {
    pub id: i64,
    pub snippet_id: i64,
    pub tag_id: i64,
    pub deleted: bool,
    pub last_updated: i64,
}

/// The mathematical value of a `SnippetTagRow`.
#[verifier::ext_equal]
pub ghost struct SnippetTagRowV {
    pub id: int,
    pub snippet_id: int,
    pub tag_id: int,
    pub deleted: bool,
    pub last_updated: int,
}

impl View for SnippetTagRow {
    type V = SnippetTagRowV;

    open spec fn view(&self) -> SnippetTagRowV {
        SnippetTagRowV {
            id: self.id as int,
            snippet_id: self.snippet_id as int,
            tag_id: self.tag_id as int,
            deleted: self.deleted,
            last_updated: self.last_updated as int,
        }
    }
}

impl DeepView for SnippetTagRow {
    type V = SnippetTagRowV;

    open spec fn deep_view(&self) -> SnippetTagRowV {
        self.view()
    }
}

/// The change sets one sync attempt pushes: the snippet, tag and
/// association rows stamped after the watermark.
pub type SyncData = (Vec<SnippetRow>, Vec<TagRow>, Vec<SnippetTagRow>);

/// One row of the metadata table: persisted scalar state under a unique key.
#[derive(Clone, Debug, PartialEq, Eq)]
pub struct MetaRow {
    pub key: String,
    pub value: String,
}

/// The mathematical value of a `MetaRow`.
#[verifier::ext_equal]
pub ghost struct MetaRowV {
    pub key: Seq<char>,
    pub value: Seq<char>,
}

impl View for MetaRow {
    type V = MetaRowV;

    open spec fn view(&self) -> MetaRowV {
        MetaRowV { key: self.key@, value: self.value@ }
    }
}

impl DeepView for MetaRow {
    type V = MetaRowV;

    open spec fn deep_view(&self) -> MetaRowV {
        self.view()
    }
}

} // verus!
