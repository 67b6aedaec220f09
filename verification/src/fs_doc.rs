//! The filesystem-backed source: one absolute root directory as sandbox.
//!
//! The verified part is the variant's policy — which directory entries are
//! listed, and how an identifier resolves to a path that cannot leave the
//! root. The directory enumeration and the file reads themselves are I/O and
//! live with the surrounding program, which feeds plain strings in and out.

use vstd::prelude::*;

use crate::doc::OrgDoc;
use crate::text::file_name;
use crate::text::file_name_of;
use crate::text::lemma_file_name_valid;
use crate::text::str_eq;
use crate::text::valid_doc_name;

verus! {

/// A document read out of the root directory.
pub struct FilesystemDoc(String);

impl OrgDoc for FilesystemDoc {
    closed spec fn text(&self) -> Seq<char> {
        self.0@
    }

    fn content(&self) -> (s: &str)
        ensures
            s@ == self.text(),
    {
        self.0.as_str()
    }
}

impl FilesystemDoc {
    /// Wraps content that was read from a file.
    pub fn new(content: String) -> (d: FilesystemDoc)
        ensures
            d.text() == content@,
    {
        FilesystemDoc(content)
    }
}

/// A source rooted at one absolute directory; identifiers resolve strictly
/// inside it.
pub struct FilesystemSource {
    root: String,
}

/// A directory entry that is served: its name ends in `.org`.
pub open spec fn is_org_name(n: Seq<char>) -> bool {
    n.len() >= 5 && n.subrange(n.len() - 4, n.len() as int) == ".org"@
}

/// The identifiers derived from a directory listing: `/` + name for each
/// served entry, in listing order.
pub open spec fn org_ids(names: Seq<Seq<char>>) -> Seq<Seq<char>>
    decreases names.len(),
{
    if names.len() == 0 {
        Seq::empty()
    } else {
        (if is_org_name(names[0]) {
            seq![seq!['/'] + names[0]]
        } else {
            Seq::empty()
        }) + org_ids(names.drop_first())
    }
}

/// Whether `name` ends in `.org`.
fn has_org_suffix(name: &str) -> (b: bool)
    ensures
        b == is_org_name(name@),
{
    let n = name.unicode_len();
    if n < 5 {
        return false;
    }
    let suffix = name.substring_char(n - 4, n);
    str_eq(suffix, ".org")
}

/// Filters a directory listing down to the served identifiers: entries whose
/// name ends in `.org`, each returned as `/` + name. Everything else — other
/// suffixes, other file kinds — is left out.
pub fn list_org_entries(entries: &Vec<String>) -> (ids: Vec<String>)
    ensures
        ids@.map_values(|s: String| s@) == org_ids(entries@.map_values(|s: String| s@)),
{
    let ghost all = entries@.map_values(|s: String| s@);
    let mut ids: Vec<String> = Vec::new();
    let n = entries.len();
    let mut i: usize = 0;
    proof {
        assert(all.skip(0) =~= all);
        assert(ids@.map_values(|s: String| s@) =~= Seq::<Seq<char>>::empty());
    }
    while i < n
        invariant
            n == entries@.len(),
            all == entries@.map_values(|s: String| s@),
            0 <= i <= n,
            ids@.map_values(|s: String| s@) + org_ids(all.skip(i as int)) == org_ids(all),
        decreases n - i,
    {
        let ghost before = ids@.map_values(|s: String| s@);
        proof {
            assert(all.skip(i as int)[0] == all[i as int]);
            assert(all.skip(i as int).drop_first() =~= all.skip(i as int + 1));
            assert(all[i as int] == entries@[i as int]@);
        }
        if has_org_suffix(entries[i].as_str()) {
            let mut id = String::from_str("/");
            id.append(entries[i].as_str());
            proof {
                reveal_strlit("/");
                assert(id@ =~= seq!['/'] + all[i as int]);
            }
            ids.push(id);
            proof {
                assert(ids@.map_values(|s: String| s@) =~= before + seq![seq!['/'] + all[i as int]]);
            }
        }
        i = i + 1;
    }
    proof {
        assert(all.skip(n as int) =~= Seq::<Seq<char>>::empty());
        assert(org_ids(Seq::empty()) =~= Seq::<Seq<char>>::empty());
        assert(ids@.map_values(|s: String| s@) =~= ids@.map_values(|s: String| s@) + org_ids(
            all.skip(n as int),
        ));
    }
    ids
}

impl FilesystemSource {
    /// The sandbox root path.
    pub closed spec fn root_path(&self) -> Seq<char> {
        self.root@
    }

    /// A source rooted at `path`, which must be absolute.
    pub fn new(path: &str) -> (s: FilesystemSource)
        requires
            path@.len() > 0,
            path@[0] == '/',
        ensures
            s.root_path() == path@,
    {
        FilesystemSource { root: path.to_owned() }
    }

    /// Resolves an identifier to the path to open: the root joined with the
    /// identifier's file-name component alone, every other path segment of
    /// the identifier discarded. `None` — NotFound to the caller — when there
    /// is no such component; no identifier resolves outside the root.
    pub fn resolve(&self, doc: &str) -> (r: Option<String>)
        ensures
            (match r {
                Some(p) => {
                    &&& file_name_of(doc@) is Some
                    &&& valid_doc_name(file_name_of(doc@)->Some_0)
                    &&& p@ == self.root_path() + seq!['/'] + (file_name_of(doc@)->Some_0)
                },
                None => file_name_of(doc@) is None,
            }),
    {
        match file_name(doc) {
            None => None,
            Some(name) => {
                let mut p = self.root.clone();
                p.append("/");
                p.append(name.as_str());
                proof {
                    reveal_strlit("/");
                    lemma_file_name_valid(doc@);
                    assert(p@ =~= self.root_path() + seq!['/'] + name@);
                }
                Some(p)
            },
        }
    }

    /// The display name of an identifier: its file-name component. The
    /// identifiers this source lists always have one.
    pub fn doc_name(&self, doc: &str) -> (n: String)
        requires
            file_name_of(doc@) is Some,
        ensures
            n@ == file_name_of(doc@)->Some_0,
    {
        match file_name(doc) {
            Some(n) => n,
            None => {
                proof {
                    assert(false);
                }
                String::new()
            },
        }
    }
}

/// The sandbox guarantee: a resolved path starts with the root, a separator
/// follows, and the rest — the file-name component — contains no separator.
/// Whatever identifier is asked for, only a direct child of the root is ever
/// opened; a file that matches elsewhere stays out of reach.
pub proof fn lemma_resolved_path_in_root(root: Seq<char>, name: Seq<char>)
    requires
        valid_doc_name(name),
    ensures
        (root + seq!['/'] + name).take(root.len() as int) == root,
        (root + seq!['/'] + name)[root.len() as int] == '/',
        forall|k: int|
            root.len() + 1 <= k < (root + seq!['/'] + name).len() ==> (root + seq!['/'] + name)[k]
                != '/',
{
    let p = root + seq!['/'] + name;
    assert(p.take(root.len() as int) =~= root);
    assert forall|k: int| root.len() + 1 <= k < p.len() implies p[k] != '/' by {
        assert(p[k] == name[k - root.len() - 1]);
    }
}

} // verus!
