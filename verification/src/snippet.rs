use vstd::prelude::*;

verus! {

/// A snippet as handed to callers: a named text record together with the
/// names of the tags it currently carries.
#[derive(Clone, Debug, PartialEq, Eq)]
pub struct Snippet {
    pub id: i64,
    pub name: String,
    pub tags: Vec<String>,
    pub content: String,
}

/// The mathematical value of a `Snippet`.
#[verifier::ext_equal]
pub ghost struct SnippetV {
    pub id: int,
    pub name: Seq<char>,
    pub tags: Seq<Seq<char>>,
    pub content: Seq<char>,
}

impl View for Snippet {
    type V = SnippetV;

    open spec fn view(&self) -> SnippetV {
        SnippetV {
            id: self.id as int,
            name: self.name@,
            tags: self.tags.deep_view(),
            content: self.content@,
        }
    }
}

impl DeepView for Snippet {
    type V = SnippetV;

    open spec fn deep_view(&self) -> SnippetV {
        self.view()
    }
}

} // verus!
