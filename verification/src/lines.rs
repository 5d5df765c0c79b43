//! Splitting a document into lines.
//!
//! A line is a maximal run of text between line breaks; the break itself is
//! not part of the line. A break is a newline, or a carriage return followed
//! by a newline; a final break yields no extra empty line.

use vstd::prelude::*;
use vstd::string::*;

use crate::text::chars_vec;

verus! {

/// Position of the first newline in `s`, or `s.len()` when there is none.
pub open spec fn first_newline(s: Seq<char>) -> nat
    decreases s.len(),
{
    if s.len() == 0 {
        0
    } else if s[0] == '\n' {
        0
    } else {
        1 + first_newline(s.drop_first())
    }
}

/// A line as split, with a carriage return that preceded the newline
/// removed.
pub open spec fn trim_carriage(line: Seq<char>) -> Seq<char> {
    if line.len() > 0 && line[line.len() - 1] == '\r' {
        line.drop_last()
    } else {
        line
    }
}

/// The lines of a document, in order, without their terminators.
pub open spec fn lines_of(s: Seq<char>) -> Seq<Seq<char>>
    decreases s.len(),
{
    if s.len() == 0 {
        Seq::empty()
    } else {
        let k = first_newline(s);
        if k >= s.len() {
            seq![s]
        } else {
            seq![trim_carriage(s.subrange(0, k as int))] + lines_of(
                s.subrange((k + 1) as int, s.len() as int),
            )
        }
    }
}

/// The views of a vector of line slices.
pub open spec fn views_of(ls: Seq<&str>) -> Seq<Seq<char>> {
    ls.map_values(|l: &str| l@)
}

/// Pins `first_newline` down from what the characters show: everything
/// before `k` is no newline, and `k` is one or the end.
proof fn lemma_first_newline_at(s: Seq<char>, k: nat)
    requires
        k <= s.len(),
        forall|m: int| 0 <= m < k ==> s[m] != '\n',
        k == s.len() || s[k as int] == '\n',
    ensures
        first_newline(s) == k,
    decreases s.len(),
{
    if s.len() == 0 {
    } else if s[0] == '\n' {
        assert(k == 0);
    } else {
        assert(k >= 1);
        assert(forall|m: int| 0 <= m < k - 1 ==> s.drop_first()[m] == s[m + 1]);
        lemma_first_newline_at(s.drop_first(), (k - 1) as nat);
    }
}

/// The line slices of `contents`, in document order.
pub fn split_lines<'a>(contents: &'a str) -> (r: Vec<&'a str>)
    ensures
        views_of(r@) == lines_of(contents@),
{
    let cs: Vec<char> = chars_vec(contents);
    let n: usize = cs.len();
    let mut r: Vec<&'a str> = Vec::new();
    let mut i: usize = 0;
    proof {
        assert(contents@.subrange(0, n as int) =~= contents@);
        assert(views_of(r@) =~= Seq::<Seq<char>>::empty());
        assert(views_of(r@) + lines_of(contents@) =~= lines_of(contents@));
    }
    while i < n
        invariant
            cs@ == contents@,
            n == cs@.len(),
            i <= n,
            lines_of(contents@) == views_of(r@) + lines_of(
                contents@.subrange(i as int, n as int),
            ),
        decreases n - i,
    {
        let start: usize = i;
        let mut j: usize = i;
        while j < n && cs[j] != '\n'
            invariant
                cs@ == contents@,
                n == cs@.len(),
                start <= j <= n,
                forall|m: int| start <= m < j ==> cs@[m] != '\n',
            decreases n - j,
        {
            j = j + 1;
        }
        let ghost suffix = contents@.subrange(start as int, n as int);
        proof {
            assert(forall|m: int| 0 <= m < j - start ==> suffix[m] == contents@[start + m]);
            lemma_first_newline_at(suffix, (j - start) as nat);
        }
        let line_end: usize = if j < n {
            if j > start && cs[j - 1] == '\r' {
                j - 1
            } else {
                j
            }
        } else {
            n
        };
        let line: &'a str = contents.substring_char(start, line_end);
        let ghost r0 = r@;
        r.push(line);
        proof {
            assert(views_of(r@) =~= views_of(r0).push(line@));
        }
        if j < n {
            proof {
                let head = suffix.subrange(0, (j - start) as int);
                let rest = suffix.subrange((j - start + 1) as int, suffix.len() as int);
                assert(lines_of(suffix) == seq![trim_carriage(head)] + lines_of(rest));
                assert(head =~= contents@.subrange(start as int, j as int));
                if j > start && contents@[j - 1] == '\r' {
                    assert(head[head.len() - 1] == contents@[j - 1]);
                    assert(trim_carriage(head) =~= contents@.subrange(
                        start as int,
                        (j - 1) as int,
                    ));
                } else {
                    assert(trim_carriage(head) =~= head);
                }
                assert(trim_carriage(head) == line@);
                assert(rest =~= contents@.subrange((j + 1) as int, n as int));
                assert(views_of(r0) + (seq![line@] + lines_of(rest)) =~= views_of(r0).push(
                    line@,
                ) + lines_of(rest));
            }
            i = j + 1;
        } else {
            proof {
                assert(first_newline(suffix) >= suffix.len());
                assert(lines_of(suffix) == seq![suffix]);
                assert(line@ =~= suffix);
                assert(contents@.subrange(n as int, n as int) =~= Seq::<char>::empty());
                assert(lines_of(contents@.subrange(n as int, n as int))
                    == Seq::<Seq<char>>::empty());
                assert(views_of(r0) + seq![line@] =~= views_of(r0).push(line@)
                    + Seq::<Seq<char>>::empty());
            }
            i = n;
        }
    }
    proof {
        assert(contents@.subrange(n as int, n as int) =~= Seq::<char>::empty());
        assert(lines_of(contents@.subrange(n as int, n as int)) == Seq::<Seq<char>>::empty());
        assert(views_of(r@) + Seq::<Seq<char>>::empty() =~= views_of(r@));
    }
    r
}

} // verus!
