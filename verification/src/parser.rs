//! The outline extractor: turns raw document text into the ordered sequence
//! of headline records whose leading keyword token is registered in the
//! configured keyword table.
//!
//! A headline is a line of one or more `*` followed by a space; its level is
//! the number of `*`. The title is the rest of the line after leading spaces;
//! its first space-delimited token is the keyword candidate. Only an exact,
//! case-sensitive match against a table member yields a record; every other
//! line is skipped, so extraction always completes.

use vstd::prelude::*;

use crate::text::first_ix;
use crate::text::lemma_first_ix_is;
use crate::text::lemma_run_len_is;
use crate::text::run_len;
use crate::text::str_eq;

verus! {

/// Number of leading `*` markers of a line.
pub open spec fn stars_of(line: Seq<char>) -> int {
    run_len(line, '*')
}

/// A headline: at least one `*`, followed directly by a space.
pub open spec fn is_headline(line: Seq<char>) -> bool {
    &&& 1 <= stars_of(line)
    &&& stars_of(line) < line.len()
    &&& line[stars_of(line)] == ' '
}

/// The title of a headline: everything after the markers and the spaces that
/// follow them.
pub open spec fn title_of(line: Seq<char>) -> Seq<char> {
    let t = line.skip(stars_of(line));
    t.skip(run_len(t, ' '))
}

/// The keyword candidate: the title's first space-delimited token.
pub open spec fn keyword_of(title: Seq<char>) -> Seq<char> {
    title.take(first_ix(title, ' '))
}

/// The heading text: the title after its first token and the spaces that
/// follow it.
pub open spec fn heading_of(title: Seq<char>) -> Seq<char> {
    let r = title.skip(first_ix(title, ' '));
    r.skip(run_len(r, ' '))
}

/// Membership in a keyword table given as its open and closed keyword lists.
pub open spec fn in_table(open: Seq<Seq<char>>, closed: Seq<Seq<char>>, kw: Seq<char>) -> bool {
    open.contains(kw) || closed.contains(kw)
}

/// The record one line contributes: `Some((level, keyword, heading))` when
/// the line is a headline whose keyword token is in the table, else `None`.
pub open spec fn line_item(line: Seq<char>, open: Seq<Seq<char>>, closed: Seq<Seq<char>>) -> Option<
    (nat, Seq<char>, Seq<char>),
> {
    if is_headline(line) && in_table(open, closed, keyword_of(title_of(line))) {
        Some(
            (
                stars_of(line) as nat,
                keyword_of(title_of(line)),
                heading_of(title_of(line)),
            ),
        )
    } else {
        None
    }
}

/// An optional record as a zero- or one-element sequence.
pub open spec fn opt_items(o: Option<(nat, Seq<char>, Seq<char>)>) -> Seq<
    (nat, Seq<char>, Seq<char>),
> {
    match o {
        Some(it) => seq![it],
        None => Seq::empty(),
    }
}

/// All records of a document, in document order: the document is split at
/// `\n` and each line contributes through `line_item`.
pub open spec fn items_of(doc: Seq<char>, open: Seq<Seq<char>>, closed: Seq<Seq<char>>) -> Seq<
    (nat, Seq<char>, Seq<char>),
>
    decreases doc.len(),
{
    let i = first_ix(doc, '\n');
    if 0 <= i < doc.len() {
        opt_items(line_item(doc.take(i), open, closed)) + items_of(
            doc.skip(i + 1),
            open,
            closed,
        )
    } else {
        opt_items(line_item(doc, open, closed))
    }
}

/// An empty document yields no records.
pub proof fn lemma_items_of_empty(open: Seq<Seq<char>>, closed: Seq<Seq<char>>)
    ensures
        items_of(Seq::empty(), open, closed) == Seq::<(nat, Seq<char>, Seq<char>)>::empty(),
{
    let e = Seq::<char>::empty();
    assert(first_ix(e, '\n') == 0);
    assert(stars_of(e) == 0);
    assert(line_item(e, open, closed) is None);
    assert(items_of(e, open, closed) =~= Seq::<(nat, Seq<char>, Seq<char>)>::empty());
}

/// Every record a document yields carries a keyword of the table it was
/// extracted with, and a positive level.
pub proof fn lemma_items_of_well_formed(
    doc: Seq<char>,
    open: Seq<Seq<char>>,
    closed: Seq<Seq<char>>,
)
    ensures
        forall|j: int|
            0 <= j < items_of(doc, open, closed).len() ==> {
                &&& in_table(open, closed, (#[trigger] items_of(doc, open, closed)[j]).1)
                &&& items_of(doc, open, closed)[j].0 >= 1
            },
    decreases doc.len(),
{
    let i = first_ix(doc, '\n');
    crate::text::lemma_first_ix(doc, '\n');
    let all = items_of(doc, open, closed);
    if 0 <= i < doc.len() {
        lemma_items_of_well_formed(doc.skip(i + 1), open, closed);
        let head = opt_items(line_item(doc.take(i), open, closed));
        let rest = items_of(doc.skip(i + 1), open, closed);
        assert forall|j: int| 0 <= j < all.len() implies {
            &&& in_table(open, closed, (#[trigger] all[j]).1)
            &&& all[j].0 >= 1
        } by {
            if j < head.len() {
                assert(all[j] == head[0]);
            } else {
                assert(all[j] == rest[j - head.len()]);
            }
        }
    } else {
        let head = opt_items(line_item(doc, open, closed));
        assert forall|j: int| 0 <= j < all.len() implies {
            &&& in_table(open, closed, (#[trigger] all[j]).1)
            &&& all[j].0 >= 1
        } by {
            assert(all[j] == head[0]);
        }
    }
}

/// The keyword table: two lists of case-sensitive keywords, *open* ones
/// (work still to do) and *closed* ones (work finished). Built once, then
/// read-only.
pub struct ParserConfig {
    open: Vec<String>,
    closed: Vec<String>,
}

/// One extracted headline record.
pub struct TodoItem {
    level: usize,
    keyword: String,
    heading: String,
}

impl View for TodoItem {
    type V = (nat, Seq<char>, Seq<char>);

    closed spec fn view(&self) -> (nat, Seq<char>, Seq<char>) {
        (self.level as nat, self.keyword@, self.heading@)
    }
}

impl TodoItem {
    /// The keyword that matched the table.
    pub fn keyword(&self) -> (k: &str)
        ensures
            k@ == self@.1,
    {
        self.keyword.as_str()
    }

    /// The heading text, without the keyword token.
    pub fn heading(&self) -> (h: &str)
        ensures
            h@ == self@.2,
    {
        self.heading.as_str()
    }

    /// Nesting depth; 1 is a top-level headline.
    pub fn level(&self) -> (l: usize)
        ensures
            l as nat == self@.0,
    {
        self.level
    }
}

/// Whether some member of `v` reads as `kw`.
fn vec_contains_str(v: &Vec<String>, kw: &str) -> (r: bool)
    ensures
        r == v@.map_values(|s: String| s@).contains(kw@),
{
    let ghost m = v@.map_values(|s: String| s@);
    let mut j: usize = 0;
    while j < v.len()
        invariant
            m == v@.map_values(|s: String| s@),
            0 <= j <= v@.len(),
            forall|k: int| 0 <= k < j ==> m[k] != kw@,
        decreases v@.len() - j,
    {
        if str_eq(v[j].as_str(), kw) {
            assert(m[j as int] == kw@);
            return true;
        }
        j = j + 1;
    }
    assert(!m.contains(kw@)) by {
        if m.contains(kw@) {
            let w = choose|k: int| 0 <= k < m.len() && m[k] == kw@;
            assert(m[w] != kw@);
        }
    }
    false
}

impl ParserConfig {
    /// The open keywords, as the table was built.
    pub closed spec fn open_kws(&self) -> Seq<Seq<char>> {
        self.open@.map_values(|s: String| s@)
    }

    /// The closed keywords, as the table was built.
    pub closed spec fn closed_kws(&self) -> Seq<Seq<char>> {
        self.closed@.map_values(|s: String| s@)
    }

    /// Builds a table from explicit open (`todo`) and closed (`done`)
    /// keyword lists.
    pub fn with_keywords(todo: &[&str], done: &[&str]) -> (c: ParserConfig)
        ensures
            c.open_kws() == todo@.map_values(|s: &str| s@),
            c.closed_kws() == done@.map_values(|s: &str| s@),
    {
        let open = copy_keywords(todo);
        let closed = copy_keywords(done);
        let c = ParserConfig { open, closed };
        proof {
            assert(c.open_kws() =~~= todo@.map_values(|s: &str| s@));
            assert(c.closed_kws() =~~= done@.map_values(|s: &str| s@));
        }
        c
    }

    /// Whether `kw` is registered, in either list.
    pub fn is_registered(&self, kw: &str) -> (r: bool)
        ensures
            r == in_table(self.open_kws(), self.closed_kws(), kw@),
    {
        vec_contains_str(&self.open, kw) || vec_contains_str(&self.closed, kw)
    }
}

/// Copies borrowed keywords into an owned list with the same contents.
fn copy_keywords(kws: &[&str]) -> (v: Vec<String>)
    ensures
        v@.map_values(|s: String| s@) == kws@.map_values(|s: &str| s@),
{
    let mut v: Vec<String> = Vec::new();
    let n = kws.len();
    let mut j: usize = 0;
    while j < n
        invariant
            n == kws@.len(),
            0 <= j <= n,
            v@.len() == j,
            forall|k: int| 0 <= k < j ==> (#[trigger] v@[k])@ == kws@[k]@,
        decreases n - j,
    {
        let s = vstd::slice::slice_index_get(kws, j);
        v.push(String::from_str(s));
        j = j + 1;
    }
    proof {
        assert(v@.map_values(|s: String| s@) =~~= kws@.map_values(|s: &str| s@));
    }
    v
}

impl Default for ParserConfig {
    /// The default table: open `TODO`, closed `DONE`.
    fn default() -> (c: ParserConfig)
        ensures
            c.open_kws() == seq!["TODO"@],
            c.closed_kws() == seq!["DONE"@],
    {
        let c = ParserConfig::with_keywords(&["TODO"], &["DONE"]);
        proof {
            assert(c.open_kws() =~~= seq!["TODO"@]);
            assert(c.closed_kws() =~~= seq!["DONE"@]);
        }
        c
    }
}

/// Parses one line; returns the record it contributes, if any.
fn line_to_item(line: &str, config: &ParserConfig) -> (r: Option<TodoItem>)
    ensures
        (match r {
            Some(it) => line_item(line@, config.open_kws(), config.closed_kws()) == Some(it@),
            None => line_item(line@, config.open_kws(), config.closed_kws()) is None,
        }),
{
    let n = line.unicode_len();
    let mut k: usize = 0;
    while k < n && line.get_char(k) == '*'
        invariant
            n == line@.len(),
            0 <= k <= n,
            forall|j: int| 0 <= j < k ==> line@[j] == '*',
        decreases n - k,
    {
        k = k + 1;
    }
    proof {
        lemma_run_len_is(line@, '*', k as int);
    }
    if k == 0 || k == n {
        return None;
    }
    if line.get_char(k) != ' ' {
        return None;
    }
    // The line is a headline of level `k`; find where the title starts.
    let mut t: usize = k;
    while t < n && line.get_char(t) == ' '
        invariant
            n == line@.len(),
            k <= t <= n,
            forall|j: int| k <= j < t ==> line@[j] == ' ',
        decreases n - t,
    {
        t = t + 1;
    }
    let ghost after = line@.skip(k as int);
    proof {
        assert forall|j: int| 0 <= j < t - k implies after[j] == ' ' by {
            assert(line@[k + j] == ' ');
        }
        lemma_run_len_is(after, ' ', t - k as int);
        assert(title_of(line@) =~= line@.skip(t as int));
    }
    let ghost title = line@.skip(t as int);
    // The keyword candidate runs to the first space of the title.
    let mut e: usize = t;
    while e < n && line.get_char(e) != ' '
        invariant
            n == line@.len(),
            t <= e <= n,
            forall|j: int| t <= j < e ==> line@[j] != ' ',
        decreases n - e,
    {
        e = e + 1;
    }
    proof {
        assert forall|j: int| 0 <= j < e - t implies title[j] != ' ' by {
            assert(line@[t + j] != ' ');
        }
        lemma_first_ix_is(title, ' ', e - t as int);
        assert(keyword_of(title) =~= line@.subrange(t as int, e as int));
    }
    let kw = line.substring_char(t, e);
    if !config.is_registered(kw) {
        return None;
    }
    // The heading starts after the keyword token and the spaces behind it.
    let mut h: usize = e;
    while h < n && line.get_char(h) == ' '
        invariant
            n == line@.len(),
            e <= h <= n,
            forall|j: int| e <= j < h ==> line@[j] == ' ',
        decreases n - h,
    {
        h = h + 1;
    }
    let ghost rest = title.skip(e - t as int);
    proof {
        assert(rest =~= line@.skip(e as int));
        assert forall|j: int| 0 <= j < h - e implies rest[j] == ' ' by {
            assert(line@[e + j] == ' ');
        }
        lemma_run_len_is(rest, ' ', h - e as int);
        assert(heading_of(title) =~= line@.subrange(h as int, n as int));
    }
    let heading = line.substring_char(h, n);
    let item = TodoItem { level: k, keyword: String::from_str(kw), heading: String::from_str(heading) };
    Some(item)
}

/// Extracts every keyword-bearing headline of `doc`, in document order.
pub fn doc_to_items(doc: &str, config: &ParserConfig) -> (items: Vec<TodoItem>)
    ensures
        items@.map_values(|it: TodoItem| it@) == items_of(
            doc@,
            config.open_kws(),
            config.closed_kws(),
        ),
{
    let ghost o = config.open_kws();
    let ghost c = config.closed_kws();
    let n = doc.unicode_len();
    let mut items: Vec<TodoItem> = Vec::new();
    let mut pos: usize = 0;
    let mut i: usize = 0;
    proof {
        assert(doc@.skip(0) =~= doc@);
        assert(items@.map_values(|it: TodoItem| it@) =~= Seq::<(nat, Seq<char>, Seq<char>)>::empty());
    }
    while i < n
        invariant
            n == doc@.len(),
            0 <= pos <= i <= n,
            o == config.open_kws(),
            c == config.closed_kws(),
            forall|j: int| pos <= j < i ==> doc@[j] != '\n',
            items@.map_values(|it: TodoItem| it@) + items_of(doc@.skip(pos as int), o, c)
                == items_of(doc@, o, c),
        decreases n - i,
    {
        if doc.get_char(i) == '\n' {
            let ghost tail = doc@.skip(pos as int);
            proof {
                assert forall|j: int| 0 <= j < i - pos implies tail[j] != '\n' by {
                    assert(doc@[pos + j] != '\n');
                }
                lemma_first_ix_is(tail, '\n', i - pos as int);
                assert(tail.take(i - pos as int) =~= doc@.subrange(pos as int, i as int));
                assert(tail.skip(i - pos as int + 1) =~= doc@.skip(i as int + 1));
            }
            let line = doc.substring_char(pos, i);
            let ghost before = items@.map_values(|it: TodoItem| it@);
            match line_to_item(line, config) {
                Some(item) => {
                    items.push(item);
                    proof {
                        assert(items@.map_values(|it: TodoItem| it@) =~= before.push(item@));
                        assert(opt_items(line_item(line@, o, c)) =~= seq![item@]);
                        assert(before.push(item@) =~= before + seq![item@]);
                        assert(before + opt_items(line_item(line@, o, c)) + items_of(
                            doc@.skip(i as int + 1),
                            o,
                            c,
                        ) =~= before + (opt_items(line_item(line@, o, c)) + items_of(
                            doc@.skip(i as int + 1),
                            o,
                            c,
                        )));
                    }
                },
                None => {
                    proof {
                        assert(opt_items(line_item(line@, o, c))
                            =~= Seq::<(nat, Seq<char>, Seq<char>)>::empty());
                        assert(before + (opt_items(line_item(line@, o, c)) + items_of(
                            doc@.skip(i as int + 1),
                            o,
                            c,
                        )) =~= before + items_of(doc@.skip(i as int + 1), o, c));
                    }
                },
            }
            pos = i + 1;
        }
        i = i + 1;
    }
    let ghost tail = doc@.skip(pos as int);
    proof {
        assert forall|j: int| 0 <= j < tail.len() implies tail[j] != '\n' by {
            assert(doc@[pos + j] != '\n');
        }
        lemma_first_ix_is(tail, '\n', tail.len() as int);
        assert(tail =~= doc@.subrange(pos as int, n as int));
    }
    let line = doc.substring_char(pos, n);
    let ghost before = items@.map_values(|it: TodoItem| it@);
    match line_to_item(line, config) {
        Some(item) => {
            items.push(item);
            proof {
                assert(items@.map_values(|it: TodoItem| it@) =~= before.push(item@));
                assert(before.push(item@) =~= before + opt_items(line_item(line@, o, c)));
            }
        },
        None => {
            proof {
                assert(before + opt_items(line_item(line@, o, c)) =~= before);
            }
        },
    }
    items
}

} // verus!
