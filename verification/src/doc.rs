//! The document-source abstraction and the in-memory (static) variant.
//!
//! A source hands out identifiers — `/` followed by a registered name — and
//! content. Reading goes by an identifier's file-name component, so every
//! identifier `list` returns is valid input to `read` on the same source.

use vstd::prelude::*;

use crate::text::file_name;
use crate::text::file_name_of;
use crate::text::str_eq;
use crate::text::valid_doc_name;

verus! {

/// A document: raw text content, UTF-8, immutable.
pub trait OrgDoc {
    /// The document's text.
    spec fn text(&self) -> Seq<char>;

    /// The raw content.
    fn content(&self) -> (s: &str)
        ensures
            s@ == self.text(),
    ;
}

/// A source of documents, shared read-only while serving.
pub trait OrgSource {
    type Doc: OrgDoc;

    /// The registered document names, in listing order.
    spec fn names(&self) -> Seq<Seq<char>>;

    /// The content registered under `name` (meaningful only for registered
    /// names).
    spec fn content_of(&self, name: Seq<char>) -> Seq<char>;

    /// The display name derived from an identifier.
    spec fn display_of(&self, id: Seq<char>) -> Seq<char>;

    /// Lists one identifier per document: `/` followed by the name, each name
    /// listed once. Listing never fails; a source with nothing to offer
    /// returns an empty list.
    fn list(&self) -> (ids: Vec<String>)
        ensures
            ids@.len() == self.names().len(),
            forall|i: int|
                0 <= i < ids@.len() ==> (#[trigger] ids@[i])@ == seq!['/'] + self.names()[i],
            forall|i: int| 0 <= i < ids@.len() ==> valid_doc_name(#[trigger] self.names()[i]),
            forall|i: int, j: int|
                0 <= i < j < self.names().len() ==> #[trigger] self.names()[i]
                    != #[trigger] self.names()[j],
    ;

    /// Reads the document named by `doc`'s file-name component. Fails with
    /// `Err` — NotFound — exactly when that component is missing or names no
    /// registered document.
    fn read(&self, doc: &str) -> (r: Result<Self::Doc, ()>)
        ensures
            (match r {
                Ok(d) => {
                    &&& file_name_of(doc@) is Some
                    &&& self.names().contains(file_name_of(doc@)->Some_0)
                    &&& d.text() == self.content_of(file_name_of(doc@)->Some_0)
                },
                Err(_) => !(file_name_of(doc@) is Some && self.names().contains(
                    file_name_of(doc@)->Some_0,
                )),
            }),
    ;

    /// A human-readable name for an identifier.
    fn doc_name(&self, doc: &str) -> (n: String)
        ensures
            n@ == self.display_of(doc@),
    ;
}

/// A document whose content is a string fixed for the program's lifetime.
#[derive(Clone, Copy)]
pub struct StaticOrgDoc(pub &'static str);

impl OrgDoc for StaticOrgDoc {
    open spec fn text(&self) -> Seq<char> {
        self.0@
    }

    fn content(&self) -> (s: &str)
        ensures
            s@ == self.text(),
    {
        self.0
    }
}

/// An explicit name-to-content registry, populated before serving begins and
/// read-only thereafter.
pub struct StaticOrgSource {
    docs: Vec<(String, StaticOrgDoc)>,
}

/// The index of the entry registered under `n`.
pub open spec fn name_index(entries: Seq<(Seq<char>, Seq<char>)>, n: Seq<char>) -> int {
    choose|i: int| 0 <= i < entries.len() && entries[i].0 == n
}

impl StaticOrgSource {
    /// The registry: each registered name with its content, in registration
    /// order.
    pub closed spec fn entries(&self) -> Seq<(Seq<char>, Seq<char>)> {
        self.docs@.map_values(|p: (String, StaticOrgDoc)| (p.0@, p.1.0@))
    }

    /// Registered names are distinct and valid; holds of every reachable
    /// registry value.
    #[verifier::type_invariant]
    pub closed spec fn wf(&self) -> bool {
        &&& forall|i: int, j: int|
            0 <= i < j < self.entries().len() ==> (#[trigger] self.entries()[i]).0 != (
            #[trigger] self.entries()[j]).0
        &&& forall|i: int|
            0 <= i < self.entries().len() ==> valid_doc_name((#[trigger] self.entries()[i]).0)
    }

    /// Registers `content` under `name`; a name registered before keeps its
    /// place and gets the new content.
    pub fn add_doc(&mut self, name: &str, content: &'static str)
        requires
            valid_doc_name(name@),
        ensures
            old(self).names().contains(name@) ==> final(self).entries() == old(
                self,
            ).entries().update(name_index(old(self).entries(), name@), (name@, content@)),
            !old(self).names().contains(name@) ==> final(self).entries() == old(
                self,
            ).entries().push((name@, content@)),
    {
        proof {
            use_type_invariant(&*self);
        }
        let ghost old_entries = self.entries();
        let mut docs: Vec<(String, StaticOrgDoc)> = Vec::new();
        core::mem::swap(&mut docs, &mut self.docs);
        let mut i: usize = 0;
        let n = docs.len();
        while i < n
            invariant
                n == docs@.len(),
                0 <= i <= n,
                old_entries == docs@.map_values(|p: (String, StaticOrgDoc)| (p.0@, p.1.0@)),
                old_entries == old(self).entries(),
                valid_doc_name(name@),
                forall|k: int| 0 <= k < i ==> (#[trigger] old_entries[k]).0 != name@,
                forall|a: int, b: int|
                    0 <= a < b < old_entries.len() ==> (#[trigger] old_entries[a]).0 != (
                    #[trigger] old_entries[b]).0,
                forall|a: int|
                    0 <= a < old_entries.len() ==> valid_doc_name((#[trigger] old_entries[a]).0),
            decreases n - i,
        {
            if str_eq(docs[i].0.as_str(), name) {
                proof {
                    assert(old_entries[i as int] == (docs@[i as int].0@, docs@[i as int].1.0@));
                    assert(old_entries[i as int].0 == name@);
                }
                docs.set(i, (String::from_str(name), StaticOrgDoc(content)));
                proof {
                    let new_entries = docs@.map_values(
                        |p: (String, StaticOrgDoc)| (p.0@, p.1.0@),
                    );
                    assert(new_entries =~= old_entries.update(i as int, (name@, content@)));
                    assert(old(self).names()[i as int] == old_entries[i as int].0);
                    assert(old(self).names().contains(name@));
                    assert(name_index(old_entries, name@) == i as int) by {
                        let w = name_index(old_entries, name@);
                        assert(0 <= w < old_entries.len() && old_entries[w].0 == name@);
                        if w < i {
                            assert(old_entries[w].0 != name@);
                        }
                        if i < w {
                            assert(old_entries[i as int].0 != old_entries[w].0);
                        }
                    }
                    assert forall|a: int, b: int|
                        0 <= a < b < new_entries.len() implies (#[trigger] new_entries[a]).0 != (
                    #[trigger] new_entries[b]).0 by {
                        assert(new_entries[a].0 == old_entries[a].0);
                        assert(new_entries[b].0 == old_entries[b].0);
                    }
                    assert forall|a: int|
                        0 <= a < new_entries.len() implies valid_doc_name(
                        (#[trigger] new_entries[a]).0,
                    ) by {
                        assert(new_entries[a].0 == old_entries[a].0);
                    }
                }
                self.docs = docs;
                return ;
            }
            i = i + 1;
        }
        docs.push((String::from_str(name), StaticOrgDoc(content)));
        proof {
            let new_entries = docs@.map_values(|p: (String, StaticOrgDoc)| (p.0@, p.1.0@));
            assert(new_entries =~= old_entries.push((name@, content@)));
            assert(!old(self).names().contains(name@)) by {
                if old(self).names().contains(name@) {
                    let w = choose|k: int|
                        0 <= k < old(self).names().len() && old(self).names()[k] == name@;
                    assert(old(self).names()[w] == old_entries[w].0);
                    assert(old_entries[w].0 == name@);
                }
            }
            assert forall|a: int, b: int|
                0 <= a < b < new_entries.len() implies (#[trigger] new_entries[a]).0 != (
            #[trigger] new_entries[b]).0 by {
                if b < old_entries.len() {
                    assert(new_entries[a].0 == old_entries[a].0);
                    assert(new_entries[b].0 == old_entries[b].0);
                } else {
                    assert(new_entries[a].0 == old_entries[a].0);
                    assert(new_entries[b].0 == name@);
                }
            }
            assert forall|a: int|
                0 <= a < new_entries.len() implies valid_doc_name(
                (#[trigger] new_entries[a]).0,
            ) by {
                if a < old_entries.len() {
                    assert(new_entries[a].0 == old_entries[a].0);
                }
            }
        }
        self.docs = docs;
    }
}

impl Default for StaticOrgSource {
    /// An empty registry.
    fn default() -> (s: StaticOrgSource)
        ensures
            s.entries() == Seq::<(Seq<char>, Seq<char>)>::empty(),
    {
        let s = StaticOrgSource { docs: Vec::new() };
        proof {
            assert(s.entries() =~= Seq::<(Seq<char>, Seq<char>)>::empty());
        }
        s
    }
}

impl OrgSource for StaticOrgSource {
    type Doc = StaticOrgDoc;

    open spec fn names(&self) -> Seq<Seq<char>> {
        self.entries().map_values(|e: (Seq<char>, Seq<char>)| e.0)
    }

    open spec fn content_of(&self, name: Seq<char>) -> Seq<char> {
        self.entries()[name_index(self.entries(), name)].1
    }

    /// Identifiers are shown as they are.
    open spec fn display_of(&self, id: Seq<char>) -> Seq<char> {
        id
    }

    fn list(&self) -> (ids: Vec<String>)
        ensures
            ids@.len() == self.names().len(),
            forall|i: int|
                0 <= i < ids@.len() ==> (#[trigger] ids@[i])@ == seq!['/'] + self.names()[i],
            forall|i: int| 0 <= i < ids@.len() ==> valid_doc_name(#[trigger] self.names()[i]),
            forall|i: int, j: int|
                0 <= i < j < self.names().len() ==> #[trigger] self.names()[i]
                    != #[trigger] self.names()[j],
    {
        proof {
            use_type_invariant(self);
            reveal_strlit("/");
            assert forall|i: int, j: int|
                0 <= i < j < self.names().len() implies #[trigger] self.names()[i]
                != #[trigger] self.names()[j] by {
                assert(self.names()[i] == self.entries()[i].0);
                assert(self.names()[j] == self.entries()[j].0);
            }
        }
        let mut ids: Vec<String> = Vec::new();
        let n = self.docs.len();
        let mut i: usize = 0;
        while i < n
            invariant
                n == self.docs@.len(),
                n == self.names().len(),
                0 <= i <= n,
                ids@.len() == i,
                forall|k: int|
                    0 <= k < i ==> (#[trigger] ids@[k])@ == seq!['/'] + self.names()[k],
                "/"@ == seq!['/'],
            decreases n - i,
        {
            let mut id = String::from_str("/");
            id.append(self.docs[i].0.as_str());
            proof {
                assert(self.names()[i as int] == self.docs@[i as int].0@);
            }
            ids.push(id);
            i = i + 1;
        }
        ids
    }

    fn read(&self, doc: &str) -> (r: Result<StaticOrgDoc, ()>)
        ensures
            (match r {
                Ok(d) => {
                    &&& file_name_of(doc@) is Some
                    &&& self.names().contains(file_name_of(doc@)->Some_0)
                    &&& d.text() == self.content_of(file_name_of(doc@)->Some_0)
                },
                Err(_) => !(file_name_of(doc@) is Some && self.names().contains(
                    file_name_of(doc@)->Some_0,
                )),
            }),
    {
        proof {
            use_type_invariant(self);
        }
        let name = match file_name(doc) {
            Some(name) => name,
            None => {
                return Err(());
            },
        };
        let n = self.docs.len();
        let mut i: usize = 0;
        while i < n
            invariant
                n == self.docs@.len(),
                0 <= i <= n,
                file_name_of(doc@) is Some,
                name@ == file_name_of(doc@)->Some_0,
                forall|k: int| 0 <= k < i ==> (#[trigger] self.entries()[k]).0 != name@,
            decreases n - i,
        {
            if str_eq(self.docs[i].0.as_str(), name.as_str()) {
                proof {
                    use_type_invariant(self);
                    assert(self.entries()[i as int].0 == name@);
                    assert(self.names()[i as int] == name@);
                    assert(self.names().contains(name@));
                    assert(name_index(self.entries(), name@) == i as int) by {
                        let w = name_index(self.entries(), name@);
                        assert(0 <= w < self.entries().len() && self.entries()[w].0 == name@);
                        if w < i {
                            assert(self.entries()[w].0 != name@);
                        }
                        if i < w {
                            assert(self.entries()[i as int].0 != self.entries()[w].0);
                        }
                    }
                }
                return Ok(StaticOrgDoc(self.docs[i].1.0));
            }
            i = i + 1;
        }
        proof {
            assert(!self.names().contains(name@)) by {
                if self.names().contains(name@) {
                    let w = choose|k: int|
                        0 <= k < self.names().len() && self.names()[k] == name@;
                    assert(self.names()[w] == self.entries()[w].0);
                    assert(self.entries()[w].0 == name@);
                }
            }
        }
        Err(())
    }

    fn doc_name(&self, doc: &str) -> (n: String)
        ensures
            n@ == self.display_of(doc@),
    {
        doc.to_owned()
    }
}

/// Registered entries read back as registered: the listed identifier built
/// from an entry's name has that name as its file-name component, and the
/// source's content for it is the entry's content.
pub proof fn lemma_static_entry_readable(s: &StaticOrgSource, i: int)
    requires
        s.wf(),
        0 <= i < s.entries().len(),
    ensures
        file_name_of(seq!['/'] + s.entries()[i].0) == Some(s.entries()[i].0),
        s.names()[i] == s.entries()[i].0,
        s.names().contains(s.entries()[i].0),
        s.content_of(s.entries()[i].0) == s.entries()[i].1,
{
    crate::text::lemma_file_name_of_slash_name(s.entries()[i].0);
    assert(seq!['/'].add(s.entries()[i].0) =~= seq!['/'] + s.entries()[i].0);
    let w = name_index(s.entries(), s.entries()[i].0);
    assert(0 <= w < s.entries().len() && s.entries()[w].0 == s.entries()[i].0);
    if w != i {
        if w < i {
            assert(s.entries()[w].0 != s.entries()[i].0);
        } else {
            assert(s.entries()[i].0 != s.entries()[w].0);
        }
    }
}

} // verus!
