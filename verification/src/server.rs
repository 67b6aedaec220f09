//! The operations the surrounding server calls on a source: the index
//! listing, and the collection of matching action items across all of a
//! source's documents for one requested keyword.

use vstd::prelude::*;

use crate::doc::OrgDoc;
use crate::doc::OrgSource;
use crate::parser::ParserConfig;
use crate::parser::TodoItem;
use crate::parser::doc_to_items;
use crate::parser::items_of;
use crate::text::lemma_file_name_of_slash_name;
use crate::text::str_eq;

verus! {

/// The records of `items` whose keyword equals `kw`, in order.
pub open spec fn matching(items: Seq<(nat, Seq<char>, Seq<char>)>, kw: Seq<char>) -> Seq<
    (nat, Seq<char>, Seq<char>),
>
    decreases items.len(),
{
    if items.len() == 0 {
        Seq::empty()
    } else {
        (if items[0].1 == kw {
            seq![items[0]]
        } else {
            Seq::empty()
        }) + matching(items.drop_first(), kw)
    }
}

/// The aggregation over a whole source: for each name in listing order, the
/// matching records of its content, concatenated in that order.
pub open spec fn collected(
    names: Seq<Seq<char>>,
    contents: spec_fn(Seq<char>) -> Seq<char>,
    open: Seq<Seq<char>>,
    closed: Seq<Seq<char>>,
    kw: Seq<char>,
) -> Seq<(nat, Seq<char>, Seq<char>)>
    decreases names.len(),
{
    if names.len() == 0 {
        Seq::empty()
    } else {
        matching(items_of(contents(names[0]), open, closed), kw) + collected(
            names.drop_first(),
            contents,
            open,
            closed,
            kw,
        )
    }
}

/// Matching is a literal equality test: every record it keeps carries the
/// requested keyword, whatever table the records came from.
pub proof fn lemma_matching_exact(items: Seq<(nat, Seq<char>, Seq<char>)>, kw: Seq<char>)
    ensures
        forall|j: int|
            0 <= j < matching(items, kw).len() ==> (#[trigger] matching(items, kw)[j]).1 == kw,
    decreases items.len(),
{
    if items.len() > 0 {
        lemma_matching_exact(items.drop_first(), kw);
        let head = if items[0].1 == kw {
            seq![items[0]]
        } else {
            Seq::<(nat, Seq<char>, Seq<char>)>::empty()
        };
        let rest = matching(items.drop_first(), kw);
        assert forall|j: int| 0 <= j < matching(items, kw).len() implies (#[trigger] matching(
            items,
            kw,
        )[j]).1 == kw by {
            if j < head.len() {
                assert(matching(items, kw)[j] == head[0]);
            } else {
                assert(matching(items, kw)[j] == rest[j - head.len()]);
            }
        }
    }
}

/// So does the aggregation over a whole source.
pub proof fn lemma_collected_exact(
    names: Seq<Seq<char>>,
    contents: spec_fn(Seq<char>) -> Seq<char>,
    open: Seq<Seq<char>>,
    closed: Seq<Seq<char>>,
    kw: Seq<char>,
)
    ensures
        forall|j: int|
            0 <= j < collected(names, contents, open, closed, kw).len() ==> (#[trigger] collected(
                names,
                contents,
                open,
                closed,
                kw,
            )[j]).1 == kw,
    decreases names.len(),
{
    if names.len() > 0 {
        lemma_collected_exact(names.drop_first(), contents, open, closed, kw);
        lemma_matching_exact(items_of(contents(names[0]), open, closed), kw);
        let head = matching(items_of(contents(names[0]), open, closed), kw);
        let rest = collected(names.drop_first(), contents, open, closed, kw);
        let all = collected(names, contents, open, closed, kw);
        assert forall|j: int| 0 <= j < all.len() implies (#[trigger] all[j]).1 == kw by {
            if j < head.len() {
                assert(all[j] == head[j]);
            } else {
                assert(all[j] == rest[j - head.len()]);
            }
        }
    }
}

/// Extracts one document and keeps the records whose keyword equals
/// `keyword` exactly. The requested keyword need not be registered in the
/// table; one outside it simply matches nothing.
pub fn todos_in_doc(content: &str, config: &ParserConfig, keyword: &str) -> (matched: Vec<
    TodoItem,
>)
    ensures
        matched@.map_values(|it: TodoItem| it@) == matching(
            items_of(content@, config.open_kws(), config.closed_kws()),
            keyword@,
        ),
{
    let mut all = doc_to_items(content, config);
    let ghost items = all@.map_values(|it: TodoItem| it@);
    let mut out: Vec<TodoItem> = Vec::new();
    proof {
        assert(out@.map_values(|it: TodoItem| it@) =~= Seq::<(nat, Seq<char>, Seq<char>)>::empty());
    }
    while all.len() > 0
        invariant
            out@.map_values(|it: TodoItem| it@) + matching(
                all@.map_values(|it: TodoItem| it@),
                keyword@,
            ) == matching(items, keyword@),
        decreases all@.len(),
    {
        let ghost pre = all@.map_values(|it: TodoItem| it@);
        let ghost before = out@.map_values(|it: TodoItem| it@);
        let it = all.remove(0);
        proof {
            assert(all@.map_values(|it: TodoItem| it@) =~= pre.drop_first());
            assert(pre[0] == it@);
        }
        if str_eq(it.keyword(), keyword) {
            out.push(it);
            proof {
                assert(out@.map_values(|it: TodoItem| it@) =~= before + seq![it@]);
                assert(before + (seq![it@] + matching(pre.drop_first(), keyword@)) =~= before + seq![
                    it@,
                ] + matching(pre.drop_first(), keyword@));
            }
        } else {
            proof {
                assert(before + (Seq::<(nat, Seq<char>, Seq<char>)>::empty() + matching(
                    pre.drop_first(),
                    keyword@,
                )) =~= before + matching(pre.drop_first(), keyword@));
            }
        }
    }
    proof {
        assert(all@.map_values(|it: TodoItem| it@) =~= Seq::<(nat, Seq<char>, Seq<char>)>::empty());
        assert(out@.map_values(|it: TodoItem| it@) + matching(
            Seq::<(nat, Seq<char>, Seq<char>)>::empty(),
            keyword@,
        ) =~= out@.map_values(|it: TodoItem| it@));
    }
    out
}

/// Collects, across all of `source`'s documents in listing order, the
/// records whose keyword equals `keyword`. A document that fails to read is
/// skipped and the rest still contribute — though for a source meeting its
/// listing contract the failure cannot arise, since every listed identifier
/// names a registered document.
pub fn todos_by_keyword<S: OrgSource>(source: &S, config: &ParserConfig, keyword: &str) -> (items:
    Vec<TodoItem>)
    ensures
        items@.map_values(|it: TodoItem| it@) == collected(
            source.names(),
            |n: Seq<char>| source.content_of(n),
            config.open_kws(),
            config.closed_kws(),
            keyword@,
        ),
{
    let ghost cf = |n: Seq<char>| source.content_of(n);
    let ghost names = source.names();
    let ghost o = config.open_kws();
    let ghost c = config.closed_kws();
    let ids = source.list();
    let mut out: Vec<TodoItem> = Vec::new();
    let n = ids.len();
    let mut i: usize = 0;
    proof {
        assert(names.skip(0) =~= names);
        assert(out@.map_values(|it: TodoItem| it@) =~= Seq::<(nat, Seq<char>, Seq<char>)>::empty());
    }
    while i < n
        invariant
            n == ids@.len(),
            names == source.names(),
            cf == (|m: Seq<char>| source.content_of(m)),
            o == config.open_kws(),
            c == config.closed_kws(),
            ids@.len() == names.len(),
            0 <= i <= n,
            forall|k: int| 0 <= k < n ==> (#[trigger] ids@[k])@ == seq!['/'] + names[k],
            forall|k: int| 0 <= k < n ==> crate::text::valid_doc_name(#[trigger] names[k]),
            out@.map_values(|it: TodoItem| it@) + collected(names.skip(i as int), cf, o, c, keyword@)
                == collected(names, cf, o, c, keyword@),
        decreases n - i,
    {
        let ghost nm = names[i as int];
        proof {
            lemma_file_name_of_slash_name(nm);
            assert(seq!['/'].add(nm) =~= seq!['/'] + nm);
            assert(crate::text::file_name_of(ids@[i as int]@) == Some(nm));
            assert(names.skip(i as int)[0] == nm);
            assert(names.skip(i as int).drop_first() =~= names.skip(i as int + 1));
        }
        let ghost before = out@.map_values(|it: TodoItem| it@);
        match source.read(ids[i].as_str()) {
            Ok(d) => {
                proof {
                    assert(d.text() == source.content_of(nm));
                    assert(cf(nm) == source.content_of(nm));
                }
                let mut part = todos_in_doc(d.content(), config, keyword);
                let ghost part_items = part@.map_values(|it: TodoItem| it@);
                out.append(&mut part);
                proof {
                    assert(out@.map_values(|it: TodoItem| it@) =~= before + part_items);
                    assert(before + (part_items + collected(
                        names.skip(i as int + 1),
                        cf,
                        o,
                        c,
                        keyword@,
                    )) =~= before + part_items + collected(
                        names.skip(i as int + 1),
                        cf,
                        o,
                        c,
                        keyword@,
                    ));
                }
            },
            Err(_) => {
                // Unreachable for a source meeting its listing contract: the
                // identifier came from `list`, so its name is registered.
                proof {
                    assert(names.contains(nm));
                }
            },
        }
        i = i + 1;
    }
    proof {
        assert(names.skip(n as int) =~= Seq::<Seq<char>>::empty());
        assert(out@.map_values(|it: TodoItem| it@) + collected(
            Seq::<Seq<char>>::empty(),
            cf,
            o,
            c,
            keyword@,
        ) =~= out@.map_values(|it: TodoItem| it@));
    }
    out
}

/// The index listing: one `(display name, link)` pair per document, in
/// listing order. An empty source yields no entries; each link is the
/// document's listed identifier.
pub fn index_entries<S: OrgSource>(source: &S) -> (entries: Vec<(String, String)>)
    ensures
        entries@.len() == source.names().len(),
        forall|i: int|
            0 <= i < entries@.len() ==> {
                &&& (#[trigger] entries@[i]).1@ == seq!['/'] + source.names()[i]
                &&& entries@[i].0@ == source.display_of(seq!['/'] + source.names()[i])
            },
{
    let ids = source.list();
    let mut out: Vec<(String, String)> = Vec::new();
    let n = ids.len();
    let mut i: usize = 0;
    while i < n
        invariant
            n == ids@.len(),
            ids@.len() == source.names().len(),
            0 <= i <= n,
            forall|k: int|
                0 <= k < n ==> (#[trigger] ids@[k])@ == seq!['/'] + source.names()[k],
            out@.len() == i,
            forall|k: int|
                0 <= k < i ==> {
                    &&& (#[trigger] out@[k]).1@ == seq!['/'] + source.names()[k]
                    &&& out@[k].0@ == source.display_of(seq!['/'] + source.names()[k])
                },
        decreases n - i,
    {
        let name = source.doc_name(ids[i].as_str());
        let link = ids[i].clone();
        out.push((name, link));
        i = i + 1;
    }
    out
}

} // verus!
