//! The null source: lists nothing and reads nothing. A safe default when no
//! real source is configured.

use vstd::prelude::*;

use crate::doc::OrgDoc;
use crate::doc::OrgSource;
use crate::text::file_name_of;
use crate::text::valid_doc_name;

verus! {

/// A source with no documents.
pub struct EmptyOrgSource;

/// The document an empty source would serve; it has no content.
pub struct EmptyDoc;

impl OrgDoc for EmptyDoc {
    open spec fn text(&self) -> Seq<char> {
        Seq::empty()
    }

    fn content(&self) -> (s: &str)
        ensures
            s@ == self.text(),
    {
        let s = "";
        proof {
            reveal_strlit("");
            assert(s@ =~= Seq::<char>::empty());
        }
        s
    }
}

impl OrgSource for EmptyOrgSource {
    type Doc = EmptyDoc;

    open spec fn names(&self) -> Seq<Seq<char>> {
        Seq::empty()
    }

    open spec fn content_of(&self, name: Seq<char>) -> Seq<char> {
        Seq::empty()
    }

    open spec fn display_of(&self, id: Seq<char>) -> Seq<char> {
        id
    }

    fn list(&self) -> (ids: Vec<String>)
        ensures
            ids@.len() == self.names().len(),
            forall|i: int|
                0 <= i < ids@.len() ==> (#[trigger] ids@[i])@ == seq!['/'] + self.names()[i],
            forall|i: int| 0 <= i < ids@.len() ==> valid_doc_name(#[trigger] self.names()[i]),
            forall|i: int, j: int|
                0 <= i < j < self.names().len() ==> #[trigger] self.names()[i]
                    != #[trigger] self.names()[j],
    {
        Vec::new()
    }

    fn read(&self, doc: &str) -> (r: Result<EmptyDoc, ()>)
        ensures
            (match r {
                Ok(d) => {
                    &&& file_name_of(doc@) is Some
                    &&& self.names().contains(file_name_of(doc@)->Some_0)
                    &&& d.text() == self.content_of(file_name_of(doc@)->Some_0)
                },
                Err(_) => !(file_name_of(doc@) is Some && self.names().contains(
                    file_name_of(doc@)->Some_0,
                )),
            }),
    {
        Err(())
    }

    fn doc_name(&self, doc: &str) -> (n: String)
        ensures
            n@ == self.display_of(doc@),
    {
        doc.to_owned()
    }
}

} // verus!
