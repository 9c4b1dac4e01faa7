//! Splitting a text into lines: a line is the text between line separators,
//! where a separator is a newline or a carriage return followed by a newline,
//! and a trailing separator does not add an empty final line.

use vstd::prelude::*;

verus! {

/// Index of the first newline in `s`, or `s.len()` when there is none.
pub open spec fn first_nl(s: Seq<char>) -> nat
    decreases s.len(),
{
    if s.len() == 0 {
        0
    } else if s[0] == '\n' {
        0
    } else {
        1 + first_nl(s.drop_first())
    }
}

/// `first_nl` is the one index with no newline before it that either sits on
/// a newline or at the end of the sequence.
proof fn lemma_first_nl_is(s: Seq<char>, k: int)
    requires
        0 <= k <= s.len(),
        forall|m: int| 0 <= m < k ==> s[m] != '\n',
        k == s.len() || s[k] == '\n',
    ensures
        first_nl(s) == k,
    decreases k,
{
    if k == 0 {
    } else {
        assert(s[0] != '\n');
        assert forall|m: int| 0 <= m < k - 1 implies s.drop_first()[m] != '\n' by {
            assert(s[m + 1] != '\n');
        }
        lemma_first_nl_is(s.drop_first(), k - 1);
    }
}

/// The content of a line found before a newline: a carriage return directly
/// before the separator is part of the separator, not of the line.
pub open spec fn strip_cr(l: Seq<char>) -> Seq<char> {
    if l.len() > 0 && l[l.len() - 1] == '\r' {
        l.drop_last()
    } else {
        l
    }
}

/// The lines of `s`, in order. A final line without a trailing separator is
/// kept as it stands (including a bare final carriage return).
pub open spec fn spec_lines(s: Seq<char>) -> Seq<Seq<char>>
    decreases s.len(),
{
    if s.len() == 0 {
        Seq::empty()
    } else {
        let k = first_nl(s);
        if k < s.len() {
            seq![strip_cr(s.subrange(0, k as int))] + spec_lines(
                s.subrange(k as int + 1, s.len() as int),
            )
        } else {
            seq![s]
        }
    }
}

/// The views of a sequence of borrowed lines.
pub open spec fn line_views(v: Seq<&str>) -> Seq<Seq<char>> {
    v.map_values(|l: &str| l@)
}

/// Splits `contents` into its lines, each a borrowed view into `contents`.
pub fn split_lines<'a>(contents: &'a str) -> (r: Vec<&'a str>)
    ensures
        line_views(r@) == spec_lines(contents@),
{
    let n = contents.unicode_len();
    let mut r: Vec<&'a str> = Vec::new();
    if n == 0 {
        proof {
            assert(line_views(r@) =~= spec_lines(contents@));
        }
        return r;
    }
    let mut start: usize = 0;
    proof {
        assert(contents@.subrange(0, n as int) =~= contents@);
        assert(line_views(r@) + spec_lines(contents@) =~= spec_lines(contents@));
    }
    while start < n
        invariant
            start <= n,
            n == contents@.len(),
            spec_lines(contents@) == line_views(r@) + spec_lines(
                contents@.subrange(start as int, n as int),
            ),
        decreases n - start,
    {
        let ghost r_old = r@;
        let ghost start0 = start as int;
        let ghost rem = contents@.subrange(start0, n as int);
        let mut j: usize = start;
        while j < n && contents.get_char(j) != '\n'
            invariant
                start <= j <= n,
                n == contents@.len(),
                forall|k: int| start <= k < j ==> contents@[k] != '\n',
            decreases n - j,
        {
            j += 1;
        }
        proof {
            assert forall|m: int| 0 <= m < j - start0 implies rem[m] != '\n' by {
                assert(contents@[start0 + m] != '\n');
            }
            lemma_first_nl_is(rem, j - start0);
        }
        if j == n {
            let line = contents.substring_char(start, n);
            r.push(line);
            proof {
                assert(line@ == rem);
                assert(spec_lines(rem) == seq![rem]);
                assert(line_views(r@) =~= line_views(r_old) + seq![line@]);
                assert(contents@.subrange(n as int, n as int).len() == 0);
                assert(spec_lines(contents@.subrange(n as int, n as int))
                    == Seq::<Seq<char>>::empty());
                assert(line_views(r_old) + seq![rem] =~= (line_views(r_old) + seq![line@])
                    + Seq::<Seq<char>>::empty());
            }
            start = n;
        } else {
            // contents@[j] == '\n'
            let end = if j > start && contents.get_char(j - 1) == '\r' {
                j - 1
            } else {
                j
            };
            let line = contents.substring_char(start, end);
            r.push(line);
            proof {
                let k = first_nl(rem) as int;
                assert(k == j - start0);
                let head = rem.subrange(0, k);
                assert(head =~= contents@.subrange(start0, j as int));
                if j > start0 && contents@[j - 1] == '\r' {
                    assert(head.len() > 0 && head[head.len() - 1] == '\r');
                    assert(strip_cr(head) =~= contents@.subrange(start0, j - 1));
                    assert(line@ == strip_cr(head));
                } else {
                    assert(line@ == strip_cr(head));
                }
                assert(rem.subrange(k + 1, rem.len() as int) =~= contents@.subrange(
                    j + 1,
                    n as int,
                ));
                assert(spec_lines(rem) == seq![strip_cr(head)] + spec_lines(
                    contents@.subrange(j + 1, n as int),
                ));
                assert(line_views(r@) =~= line_views(r_old) + seq![line@]);
                assert(line_views(r_old) + (seq![line@] + spec_lines(
                    contents@.subrange(j + 1, n as int),
                )) =~= (line_views(r_old) + seq![line@]) + spec_lines(
                    contents@.subrange(j + 1, n as int),
                ));
            }
            start = j + 1;
        }
    }
    proof {
        assert(contents@.subrange(n as int, n as int).len() == 0);
        assert(spec_lines(contents@.subrange(n as int, n as int)) == Seq::<Seq<char>>::empty());
        assert(line_views(r@) =~= line_views(r@) + Seq::<Seq<char>>::empty());
    }
    r
}

} // verus!
