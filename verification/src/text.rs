//! Character-sequence utilities shared by the document sources and the
//! outline extractor: segment splitting, leading-run counting, and the
//! file-name component of an identifier.

use vstd::prelude::*;

verus! {

/// Index of the first occurrence of `c` in `s`, or `s.len()` if `c` does not
/// occur.
pub open spec fn first_ix(s: Seq<char>, c: char) -> int
    decreases s.len(),
{
    if s.len() == 0 {
        0
    } else if s[0] == c {
        0
    } else {
        1 + first_ix(s.drop_first(), c)
    }
}

pub proof fn lemma_first_ix(s: Seq<char>, c: char)
    ensures
        0 <= first_ix(s, c) <= s.len(),
        first_ix(s, c) < s.len() ==> s[first_ix(s, c)] == c,
        forall|k: int| 0 <= k < first_ix(s, c) ==> s[k] != c,
    decreases s.len(),
{
    if s.len() != 0 && s[0] != c {
        lemma_first_ix(s.drop_first(), c);
        assert forall|k: int| 0 <= k < first_ix(s, c) implies s[k] != c by {
            if k > 0 {
                assert(s.drop_first()[k - 1] != c);
            }
        }
    }
}

/// `first_ix` is the only index with the properties `lemma_first_ix` gives it.
pub proof fn lemma_first_ix_is(s: Seq<char>, c: char, m: int)
    requires
        0 <= m <= s.len(),
        forall|k: int| 0 <= k < m ==> s[k] != c,
        m < s.len() ==> s[m] == c,
    ensures
        first_ix(s, c) == m,
    decreases s.len(),
{
    if s.len() != 0 && s[0] != c {
        assert(m != 0);
        assert forall|k: int| 0 <= k < m - 1 implies s.drop_first()[k] != c by {
            assert(s[k + 1] != c);
        }
        lemma_first_ix_is(s.drop_first(), c, m - 1);
    }
}

/// Length of the longest prefix of `s` made of `c` alone.
pub open spec fn run_len(s: Seq<char>, c: char) -> int
    decreases s.len(),
{
    if s.len() == 0 {
        0
    } else if s[0] != c {
        0
    } else {
        1 + run_len(s.drop_first(), c)
    }
}

pub proof fn lemma_run_len_is(s: Seq<char>, c: char, m: int)
    requires
        0 <= m <= s.len(),
        forall|k: int| 0 <= k < m ==> s[k] == c,
        m < s.len() ==> s[m] != c,
    ensures
        run_len(s, c) == m,
    decreases s.len(),
{
    if s.len() != 0 && s[0] == c {
        assert(m != 0);
        assert forall|k: int| 0 <= k < m - 1 implies s.drop_first()[k] == c by {
            assert(s[k + 1] == c);
        }
        lemma_run_len_is(s.drop_first(), c, m - 1);
    }
}

/// Character-by-character string equality; `==` on `&str` is not available to
/// verified code.
pub fn str_eq(a: &str, b: &str) -> (r: bool)
    ensures
        r == (a@ == b@),
{
    let na = a.unicode_len();
    let nb = b.unicode_len();
    if na != nb {
        assert(a@ != b@) by {
            assert(a@.len() != b@.len());
        }
        return false;
    }
    let mut i: usize = 0;
    while i < na
        invariant
            na == a@.len() == b@.len(),
            0 <= i <= na,
            forall|k: int| 0 <= k < i ==> a@[k] == b@[k],
        decreases na - i,
    {
        if a.get_char(i) != b.get_char(i) {
            return false;
        }
        i = i + 1;
    }
    proof {
        assert(a@ =~= b@);
    }
    true
}

/// The segment of `s` after its last `/` (all of `s` when there is none).
pub open spec fn last_segment(s: Seq<char>) -> Seq<char>
    decreases s.len(),
{
    let i = first_ix(s, '/');
    if 0 <= i < s.len() {
        last_segment(s.skip(i + 1))
    } else {
        s
    }
}

/// The file-name component of a document identifier, as a path's file name:
/// trailing separators and trailing `.` segments are ignored, and the last
/// remaining segment is the component. There is none when nothing remains or
/// when that segment is the parent entry `..`.
pub open spec fn file_name_of(s: Seq<char>) -> Option<Seq<char>>
    decreases s.len(),
{
    if s.len() == 0 {
        None
    } else if s.last() == '/' {
        file_name_of(s.drop_last())
    } else if s.last() == '.' && (s.len() == 1 || s[s.len() - 2] == '/') {
        file_name_of(s.drop_last())
    } else if last_segment(s) == seq!['.', '.'] {
        None
    } else {
        Some(last_segment(s))
    }
}

/// A name that can stand as one registered document: non-empty, without `/`,
/// and not one of the relative path entries `.` and `..`.
pub open spec fn valid_doc_name(n: Seq<char>) -> bool {
    &&& n.len() > 0
    &&& forall|k: int| 0 <= k < n.len() ==> n[k] != '/'
    &&& n != seq!['.']
    &&& n != seq!['.', '.']
}

/// A slash-free sequence is its own last segment.
pub proof fn lemma_last_segment_no_slash(s: Seq<char>)
    requires
        forall|k: int| 0 <= k < s.len() ==> s[k] != '/',
    ensures
        last_segment(s) == s,
{
    lemma_first_ix_is(s, '/', s.len() as int);
}

/// Prefixing a valid name with `/` leaves exactly that name as the file-name
/// component. This is why every identifier a source lists can be read back.
pub proof fn lemma_file_name_of_slash_name(n: Seq<char>)
    requires
        valid_doc_name(n),
    ensures
        file_name_of(seq!['/'].add(n)) == Some(n),
{
    let s = seq!['/'].add(n);
    assert(s.len() == n.len() + 1);
    assert(s.last() == n.last());
    assert(s.last() != '/');
    assert(!(s.last() == '.' && (s.len() == 1 || s[s.len() - 2] == '/'))) by {
        if s.last() == '.' {
            if n.len() == 1 {
                assert(n =~= seq!['.']);
            } else {
                assert(s[s.len() - 2] == n[n.len() - 2]);
            }
        }
    }
    lemma_first_ix_is(s, '/', 0);
    assert(s.skip(1) =~= n);
    lemma_last_segment_no_slash(n);
    assert(last_segment(s) == n);
}

/// The last segment never contains a `/`.
pub proof fn lemma_last_segment_no_slash_inside(s: Seq<char>)
    ensures
        forall|k: int| 0 <= k < last_segment(s).len() ==> last_segment(s)[k] != '/',
    decreases s.len(),
{
    lemma_first_ix(s, '/');
    let i = first_ix(s, '/');
    if 0 <= i < s.len() {
        lemma_last_segment_no_slash_inside(s.skip(i + 1));
        assert(last_segment(s) == last_segment(s.skip(i + 1)));
    } else {
        assert(i == s.len());
        assert(last_segment(s) == s);
        assert(forall|k: int| 0 <= k < s.len() ==> s[k] != '/');
    }
}

/// The last segment is never longer than the whole sequence.
pub proof fn lemma_last_segment_len(s: Seq<char>)
    ensures
        last_segment(s).len() <= s.len(),
    decreases s.len(),
{
    lemma_first_ix(s, '/');
    let i = first_ix(s, '/');
    if 0 <= i < s.len() {
        lemma_last_segment_len(s.skip(i + 1));
    }
}

/// When a sequence does not end in `/`, its last segment is its non-empty
/// suffix, preceded by a `/` unless it is the whole sequence.
pub proof fn lemma_last_segment_suffix(s: Seq<char>)
    requires
        s.len() > 0,
        s.last() != '/',
    ensures
        last_segment(s).len() > 0,
        last_segment(s) == s.skip(s.len() - last_segment(s).len()),
        last_segment(s).len() == s.len() || s[s.len() - last_segment(s).len() - 1] == '/',
    decreases s.len(),
{
    lemma_first_ix(s, '/');
    let i = first_ix(s, '/');
    let t = last_segment(s);
    if 0 <= i < s.len() {
        let rest = s.skip(i + 1);
        assert(rest.len() > 0 && rest.last() != '/') by {
            assert(s.last() != '/');
            assert(i < s.len() - 1);
            assert(rest.last() == s.last());
        }
        lemma_last_segment_suffix(rest);
        lemma_last_segment_len(rest);
        assert(last_segment(s) == last_segment(rest));
        assert(t == rest.skip(rest.len() - t.len()));
        assert(t.len() <= rest.len() < s.len());
        assert(rest.skip(rest.len() - t.len()) =~= s.skip(s.len() - t.len()));
        if t.len() == rest.len() {
            assert(s[s.len() - t.len() - 1] == s[i]);
        } else {
            assert(rest.len() - t.len() - 1 >= 0);
            assert(rest[rest.len() - t.len() - 1] == s[i + 1 + (rest.len() - t.len() - 1)]);
            assert(s[s.len() - t.len() - 1] == rest[rest.len() - t.len() - 1]);
        }
    } else {
        assert(t == s);
        assert(s.skip(0) =~= s);
    }
}

/// A file-name component is always a name a source could register: non-empty,
/// slash-free, and not a relative path entry.
pub proof fn lemma_file_name_valid(s: Seq<char>)
    ensures
        file_name_of(s) is Some ==> valid_doc_name(file_name_of(s)->Some_0),
    decreases s.len(),
{
    if s.len() == 0 {
    } else if s.last() == '/' || (s.last() == '.' && (s.len() == 1 || s[s.len() - 2] == '/')) {
        lemma_file_name_valid(s.drop_last());
    } else if last_segment(s) == seq!['.', '.'] {
    } else {
        let t = last_segment(s);
        lemma_last_segment_no_slash_inside(s);
        lemma_last_segment_suffix(s);
        assert(t != seq!['.']) by {
            if t == seq!['.'] {
                assert(t.len() == 1);
                assert(t == s.skip(s.len() - 1));
                assert(t[0] == s[s.len() - 1]);
                assert(s.last() == '.');
                assert(t.len() == s.len() || s[s.len() - 2] == '/');
            }
        }
    }
}

/// Skipping up to (and including) a `/` does not change the last segment.
pub proof fn lemma_last_segment_skip(s: Seq<char>, i: int)
    requires
        0 <= i < s.len(),
        s[i] == '/',
        forall|k: int| 0 <= k < i ==> s[k] != '/',
    ensures
        last_segment(s) == last_segment(s.skip(i + 1)),
{
    lemma_first_ix_is(s, '/', i);
}

/// Extracts the file-name component of `doc`, as `file_name_of` names it.
pub fn file_name(doc: &str) -> (r: Option<String>)
    ensures
        (match r {
            Some(n) => file_name_of(doc@) == Some(n@),
            None => file_name_of(doc@) is None,
        }),
{
    let len = doc.unicode_len();
    // Drop trailing separators and trailing `.` segments, one character per
    // step, exactly as `file_name_of` recurses.
    let mut e: usize = len;
    proof {
        assert(doc@.take(len as int) =~= doc@);
    }
    while e > 0 && (doc.get_char(e - 1) == '/' || (doc.get_char(e - 1) == '.' && (e == 1
        || doc.get_char(e - 2) == '/')))
        invariant
            len == doc@.len(),
            0 <= e <= len,
            file_name_of(doc@) == file_name_of(doc@.take(e as int)),
        decreases e,
    {
        proof {
            let cur = doc@.take(e as int);
            assert(cur.last() == doc@[e - 1]);
            assert(e >= 2 ==> cur[e - 2] == doc@[e - 2]);
            assert(cur.drop_last() =~= doc@.take(e - 1));
        }
        e = e - 1;
    }
    if e == 0 {
        proof {
            assert(doc@.take(0) =~= Seq::<char>::empty());
        }
        return None;
    }
    let ghost trimmed = doc@.take(e as int);
    proof {
        assert(trimmed.last() == doc@[e - 1] && trimmed.last() != '/');
        assert(e >= 2 ==> trimmed[e - 2] == doc@[e - 2]);
    }
    // Find where the last segment of what remains starts.
    let mut start: usize = 0;
    let mut i: usize = 0;
    proof {
        assert(trimmed.skip(0) =~= trimmed);
    }
    while i < e
        invariant
            len == doc@.len(),
            trimmed == doc@.take(e as int),
            0 <= start <= i <= e <= len,
            last_segment(trimmed) == last_segment(trimmed.skip(start as int)),
            forall|k: int| start <= k < i ==> doc@[k] != '/',
        decreases e - i,
    {
        if doc.get_char(i) == '/' {
            proof {
                let tail = trimmed.skip(start as int);
                assert(tail[i - start] == trimmed[i as int]);
                assert(trimmed[i as int] == doc@[i as int]);
                assert forall|k: int| 0 <= k < i - start implies tail[k] != '/' by {
                    assert(tail[k] == doc@[start + k]);
                }
                lemma_last_segment_skip(tail, i - start);
                assert(tail.skip(i - start + 1) =~= trimmed.skip(i + 1));
            }
            start = i + 1;
        }
        i = i + 1;
    }
    let seg = doc.substring_char(start, e);
    proof {
        let tail = trimmed.skip(start as int);
        assert forall|k: int| 0 <= k < tail.len() implies tail[k] != '/' by {
            assert(tail[k] == doc@[start + k]);
        }
        lemma_last_segment_no_slash(tail);
        assert(seg@ =~= tail);
        assert(last_segment(trimmed) == seg@);
    }
    if str_eq(seg, "..") {
        proof {
            reveal_strlit("..");
            assert(seg@ =~= seq!['.', '.']);
        }
        None
    } else {
        proof {
            reveal_strlit("..");
            assert(seg@ != seq!['.', '.']) by {
                if seg@ == seq!['.', '.'] {
                    assert(seg@ =~= ".."@);
                }
            }
        }
        Some(String::from_str(seg))
    }
}

} // verus!
