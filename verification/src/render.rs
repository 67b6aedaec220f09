//! Rendering a document's headlines as HTML heading elements: each headline
//! of level `n` becomes `<hn>title</hn>`; everything else is left out. A
//! leading keyword of the default table (`TODO`, `DONE`) is stripped from the
//! shown title, as extraction strips it from headings.

use vstd::prelude::*;

use crate::doc::OrgDoc;
use crate::doc::StaticOrgDoc;
use crate::parser::heading_of;
use crate::parser::in_table;
use crate::parser::is_headline;
use crate::parser::keyword_of;
use crate::parser::stars_of;
use crate::parser::title_of;
use crate::text::first_ix;
use crate::text::lemma_first_ix_is;
use crate::text::lemma_run_len_is;
use crate::text::str_eq;

verus! {

/// The digit character for `d` (meaningful for `d < 10`).
pub open spec fn digit_char(d: nat) -> char {
    if d == 0 {
        '0'
    } else if d == 1 {
        '1'
    } else if d == 2 {
        '2'
    } else if d == 3 {
        '3'
    } else if d == 4 {
        '4'
    } else if d == 5 {
        '5'
    } else if d == 6 {
        '6'
    } else if d == 7 {
        '7'
    } else if d == 8 {
        '8'
    } else {
        '9'
    }
}

/// The decimal digits of `n`, most significant first.
pub open spec fn decimal(n: nat) -> Seq<char>
    decreases n,
{
    if n < 10 {
        seq![digit_char(n)]
    } else {
        decimal(n / 10).push(digit_char(n % 10))
    }
}

/// What one line contributes to the rendering: a heading element for a
/// headline, nothing otherwise.
pub open spec fn rendered_line(line: Seq<char>) -> Seq<char> {
    if is_headline(line) {
        let shown = if in_table(seq!["TODO"@], seq!["DONE"@], keyword_of(title_of(line))) {
            heading_of(title_of(line))
        } else {
            title_of(line)
        };
        "<h"@ + decimal(stars_of(line) as nat) + ">"@ + shown + "</h"@ + decimal(
            stars_of(line) as nat,
        ) + ">"@
    } else {
        Seq::empty()
    }
}

/// The rendering of a whole document, line by line in document order.
pub open spec fn rendered(doc: Seq<char>) -> Seq<char>
    decreases doc.len(),
{
    let i = first_ix(doc, '\n');
    if 0 <= i < doc.len() {
        rendered_line(doc.take(i)) + rendered(doc.skip(i + 1))
    } else {
        rendered_line(doc)
    }
}

/// The digit character of `d`, as a string.
fn digit_str(d: usize) -> (s: &'static str)
    requires
        d < 10,
    ensures
        s@ == seq![digit_char(d as nat)],
{
    if d == 0 {
        let s = "0";
        proof {
            reveal_strlit("0");
            assert(s@ =~= seq![digit_char(d as nat)]);
        }
        s
    } else if d == 1 {
        let s = "1";
        proof {
            reveal_strlit("1");
            assert(s@ =~= seq![digit_char(d as nat)]);
        }
        s
    } else if d == 2 {
        let s = "2";
        proof {
            reveal_strlit("2");
            assert(s@ =~= seq![digit_char(d as nat)]);
        }
        s
    } else if d == 3 {
        let s = "3";
        proof {
            reveal_strlit("3");
            assert(s@ =~= seq![digit_char(d as nat)]);
        }
        s
    } else if d == 4 {
        let s = "4";
        proof {
            reveal_strlit("4");
            assert(s@ =~= seq![digit_char(d as nat)]);
        }
        s
    } else if d == 5 {
        let s = "5";
        proof {
            reveal_strlit("5");
            assert(s@ =~= seq![digit_char(d as nat)]);
        }
        s
    } else if d == 6 {
        let s = "6";
        proof {
            reveal_strlit("6");
            assert(s@ =~= seq![digit_char(d as nat)]);
        }
        s
    } else if d == 7 {
        let s = "7";
        proof {
            reveal_strlit("7");
            assert(s@ =~= seq![digit_char(d as nat)]);
        }
        s
    } else if d == 8 {
        let s = "8";
        proof {
            reveal_strlit("8");
            assert(s@ =~= seq![digit_char(d as nat)]);
        }
        s
    } else {
        let s = "9";
        proof {
            reveal_strlit("9");
            assert(s@ =~= seq![digit_char(d as nat)]);
        }
        s
    }
}

/// Appends the decimal digits of `n`.
fn push_decimal(n: usize, out: &mut String)
    ensures
        final(out)@ == old(out)@ + decimal(n as nat),
    decreases n,
{
    if n < 10 {
        out.append(digit_str(n));
        proof {
            assert(out@ =~= old(out)@ + decimal(n as nat));
        }
    } else {
        push_decimal(n / 10, out);
        out.append(digit_str(n % 10));
        proof {
            assert(decimal(n as nat) == decimal((n as nat) / 10).push(digit_char((n as nat) % 10)));
            assert(out@ =~= old(out)@ + decimal(n as nat));
        }
    }
}

/// Appends what `line` contributes to the rendering.
fn append_rendered_line(line: &str, out: &mut String)
    ensures
        final(out)@ == old(out)@ + rendered_line(line@),
{
    let n = line.unicode_len();
    let mut k: usize = 0;
    while k < n && line.get_char(k) == '*'
        invariant
            n == line@.len(),
            0 <= k <= n,
            forall|j: int| 0 <= j < k ==> line@[j] == '*',
        decreases n - k,
    {
        k = k + 1;
    }
    proof {
        lemma_run_len_is(line@, '*', k as int);
    }
    if k == 0 || k == n {
        proof {
            assert(old(out)@ + rendered_line(line@) =~= old(out)@);
        }
        return ;
    }
    if line.get_char(k) != ' ' {
        proof {
            assert(old(out)@ + rendered_line(line@) =~= old(out)@);
        }
        return ;
    }
    let mut t: usize = k;
    while t < n && line.get_char(t) == ' '
        invariant
            n == line@.len(),
            k <= t <= n,
            forall|j: int| k <= j < t ==> line@[j] == ' ',
        decreases n - t,
    {
        t = t + 1;
    }
    let ghost after = line@.skip(k as int);
    proof {
        assert forall|j: int| 0 <= j < t - k implies after[j] == ' ' by {
            assert(line@[k + j] == ' ');
        }
        lemma_run_len_is(after, ' ', t - k as int);
        assert(title_of(line@) =~= line@.skip(t as int));
    }
    let ghost title = line@.skip(t as int);
    let mut e: usize = t;
    while e < n && line.get_char(e) != ' '
        invariant
            n == line@.len(),
            t <= e <= n,
            forall|j: int| t <= j < e ==> line@[j] != ' ',
        decreases n - e,
    {
        e = e + 1;
    }
    proof {
        assert forall|j: int| 0 <= j < e - t implies title[j] != ' ' by {
            assert(line@[t + j] != ' ');
        }
        lemma_first_ix_is(title, ' ', e - t as int);
        assert(keyword_of(title) =~= line@.subrange(t as int, e as int));
    }
    let kw = line.substring_char(t, e);
    let ghost kwv = keyword_of(title);
    proof {
        assert(in_table(seq!["TODO"@], seq!["DONE"@], kwv) == (kwv == "TODO"@ || kwv == "DONE"@))
            by {
            if seq!["TODO"@].contains(kwv) {
                let w = choose|x: int| 0 <= x < 1 && seq!["TODO"@][x] == kwv;
                assert(seq!["TODO"@][w] == kwv);
            }
            if seq!["DONE"@].contains(kwv) {
                let w = choose|x: int| 0 <= x < 1 && seq!["DONE"@][x] == kwv;
                assert(seq!["DONE"@][w] == kwv);
            }
            if kwv == "TODO"@ {
                assert(seq!["TODO"@][0] == kwv);
            }
            if kwv == "DONE"@ {
                assert(seq!["DONE"@][0] == kwv);
            }
        }
    }
    let shown: &str;
    if str_eq(kw, "TODO") || str_eq(kw, "DONE") {
        let mut h: usize = e;
        while h < n && line.get_char(h) == ' '
            invariant
                n == line@.len(),
                e <= h <= n,
                forall|j: int| e <= j < h ==> line@[j] == ' ',
            decreases n - h,
        {
            h = h + 1;
        }
        let ghost rest = title.skip(e - t as int);
        proof {
            assert(rest =~= line@.skip(e as int));
            assert forall|j: int| 0 <= j < h - e implies rest[j] == ' ' by {
                assert(line@[e + j] == ' ');
            }
            lemma_run_len_is(rest, ' ', h - e as int);
            assert(heading_of(title) =~= line@.subrange(h as int, n as int));
        }
        shown = line.substring_char(h, n);
    } else {
        shown = line.substring_char(t, n);
        proof {
            assert(title =~= line@.subrange(t as int, n as int));
        }
    }
    out.append("<h");
    push_decimal(k, out);
    out.append(">");
    out.append(shown);
    out.append("</h");
    push_decimal(k, out);
    out.append(">");
    proof {
        assert(out@ =~= old(out)@ + rendered_line(line@));
    }
}

/// Renders `content`, line by line in document order.
fn render(content: &str) -> (out: String)
    ensures
        out@ == rendered(content@),
{
    let n = content.unicode_len();
    let mut out = String::new();
    let mut pos: usize = 0;
    let mut i: usize = 0;
    proof {
        assert(content@.skip(0) =~= content@);
        assert(out@ =~= Seq::<char>::empty());
    }
    while i < n
        invariant
            n == content@.len(),
            0 <= pos <= i <= n,
            forall|j: int| pos <= j < i ==> content@[j] != '\n',
            out@ + rendered(content@.skip(pos as int)) == rendered(content@),
        decreases n - i,
    {
        if content.get_char(i) == '\n' {
            let ghost tail = content@.skip(pos as int);
            proof {
                assert forall|j: int| 0 <= j < i - pos implies tail[j] != '\n' by {
                    assert(content@[pos + j] != '\n');
                }
                lemma_first_ix_is(tail, '\n', i - pos as int);
                assert(tail.take(i - pos as int) =~= content@.subrange(pos as int, i as int));
                assert(tail.skip(i - pos as int + 1) =~= content@.skip(i as int + 1));
            }
            let line = content.substring_char(pos, i);
            let ghost before = out@;
            append_rendered_line(line, &mut out);
            proof {
                assert(before + (rendered_line(line@) + rendered(content@.skip(i as int + 1)))
                    =~= before + rendered_line(line@) + rendered(content@.skip(i as int + 1)));
            }
            pos = i + 1;
        }
        i = i + 1;
    }
    let ghost tail = content@.skip(pos as int);
    proof {
        assert forall|j: int| 0 <= j < tail.len() implies tail[j] != '\n' by {
            assert(content@[pos + j] != '\n');
        }
        lemma_first_ix_is(tail, '\n', tail.len() as int);
        assert(tail =~= content@.subrange(pos as int, n as int));
    }
    let line = content.substring_char(pos, n);
    append_rendered_line(line, &mut out);
    out
}

/// A document that knows how to render itself as HTML headings.
pub trait DocRender: OrgDoc {
    /// The document's headlines as HTML heading elements.
    fn render(&self) -> (out: String)
        ensures
            out@ == rendered(self.text()),
    ;
}

impl DocRender for StaticOrgDoc {
    fn render(&self) -> (out: String)
        ensures
            out@ == rendered(self.text()),
    {
        render(self.content())
    }
}

} // verus!
