//! Splitting the piped input into units, one per line.
//!
//! The raw stream is first trimmed of incidental whitespace (see
//! [`crate::text::trim_blanks`]); what remains is split at line feeds, with a
//! carriage return directly before a line feed removed, so that both `\n` and
//! `\r\n` endings delimit units. An empty stream yields no units at all.

use vstd::prelude::*;

verus! {

/// Index of the first line feed in `s`, or `s.len()` when there is none.
pub open spec fn first_newline(s: Seq<char>) -> int
    decreases s.len(),
{
    if s.len() == 0 {
        0
    } else if s[0] == '\n' {
        0
    } else {
        1 + first_newline(s.drop_first())
    }
}

/// `first_newline` is in range, points at a line feed when it is not
/// `s.len()`, and nothing before it is a line feed.
pub proof fn lemma_first_newline_bounds(s: Seq<char>)
    ensures
        0 <= first_newline(s) <= s.len(),
        first_newline(s) < s.len() ==> s[first_newline(s)] == '\n',
        forall|k: int| 0 <= k < first_newline(s) ==> s[k] != '\n',
    decreases s.len(),
{
    if s.len() > 0 && s[0] != '\n' {
        lemma_first_newline_bounds(s.drop_first());
        assert(forall|k: int|
            1 <= k < first_newline(s) ==> s[k] == s.drop_first()[k - 1] && s[k] != '\n');
    }
}

/// A position with no line feed before it, holding one itself or sitting at
/// the end, is where `first_newline` points.
pub proof fn lemma_first_newline_at(s: Seq<char>, i: int)
    requires
        0 <= i <= s.len(),
        forall|k: int| 0 <= k < i ==> s[k] != '\n',
        i == s.len() || s[i] == '\n',
    ensures
        first_newline(s) == i,
    decreases i,
{
    if i > 0 {
        lemma_first_newline_at(s.drop_first(), i - 1);
    }
}

/// `line` with a single trailing carriage return removed, if one is there.
pub open spec fn strip_cr(line: Seq<char>) -> Seq<char> {
    if line.len() > 0 && line[line.len() - 1] == '\r' {
        line.drop_last()
    } else {
        line
    }
}

/// The units of `s`: the segments between line feeds, each with a carriage
/// return before the line feed removed. The empty sequence has no units; a
/// final segment after the last line feed is a unit only when it is there at
/// all, so a trailing line feed adds nothing.
pub open spec fn split_lines_spec(s: Seq<char>) -> Seq<Seq<char>>
    decreases s.len(),
{
    if s.len() == 0 {
        Seq::empty()
    } else {
        let i = first_newline(s);
        if 0 <= i < s.len() {
            seq![strip_cr(s.subrange(0, i))] + split_lines_spec(
                s.subrange(i + 1, s.len() as int),
            )
        } else {
            seq![s]
        }
    }
}

/// No unit carries a line feed: splitting happens exactly at them.
pub proof fn lemma_split_lines_no_newline(s: Seq<char>)
    ensures
        forall|i: int|
            0 <= i < split_lines_spec(s).len() ==> !(#[trigger] split_lines_spec(s)[i]).contains(
                '\n',
            ),
    decreases s.len(),
{
    if s.len() > 0 {
        lemma_first_newline_bounds(s);
        let i = first_newline(s);
        if 0 <= i < s.len() {
            let head = strip_cr(s.subrange(0, i));
            let tail = s.subrange(i + 1, s.len() as int);
            lemma_split_lines_no_newline(tail);
            assert(!head.contains('\n')) by {
                assert(forall|k: int| 0 <= k < head.len() ==> head[k] == s[k] && s[k] != '\n');
            }
            assert forall|ii: int|
                0 <= ii < split_lines_spec(s).len() implies !(
            #[trigger] split_lines_spec(s)[ii]).contains('\n') by {
                if ii == 0 {
                    assert(split_lines_spec(s)[0] == head);
                } else {
                    assert(split_lines_spec(s)[ii] == split_lines_spec(tail)[ii - 1]);
                }
            }
        } else {
            assert(!s.contains('\n')) by {
                assert(forall|k: int| 0 <= k < s.len() ==> s[k] != '\n');
            }
            assert(split_lines_spec(s) == seq![s]);
            assert(split_lines_spec(s)[0] == s);
        }
    }
}

/// Splits the piped input into one unit per line.
pub fn split_pipe_by_lines(pipe: &str) -> (r: Vec<String>)
    ensures
        r.deep_view() == split_lines_spec(pipe@),
        forall|i: int| 0 <= i < r.len() ==> !(#[trigger] r.deep_view()[i]).contains('\n'),
{
    let n = pipe.unicode_len();
    let mut r: Vec<String> = Vec::new();
    let mut pos: usize = 0;
    proof {
        assert(pipe@.subrange(0, n as int) =~= pipe@);
        assert(r.deep_view() =~= Seq::<Seq<char>>::empty());
        assert(Seq::<Seq<char>>::empty() + split_lines_spec(pipe@) =~= split_lines_spec(pipe@));
    }
    while pos < n
        invariant
            pos <= n,
            n == pipe@.len(),
            r.deep_view() + split_lines_spec(pipe@.subrange(pos as int, n as int))
                == split_lines_spec(pipe@),
        decreases n - pos,
    {
        let ghost rest = pipe@.subrange(pos as int, n as int);
        let mut j: usize = pos;
        while j < n && pipe.get_char(j) != '\n'
            invariant
                pos <= j <= n,
                n == pipe@.len(),
                forall|k: int| pos <= k < j ==> pipe@[k] != '\n',
            decreases n - j,
        {
            j = j + 1;
        }
        proof {
            assert(forall|k: int| 0 <= k < j - pos ==> rest[k] != '\n');
            lemma_first_newline_at(rest, j - pos);
        }
        let ghost old_rdv = r.deep_view();
        if j < n {
            let line_end = if j > pos && pipe.get_char(j - 1) == '\r' {
                j - 1
            } else {
                j
            };
            let seg = String::from_str(pipe.substring_char(pos, line_end));
            r.push(seg);
            proof {
                assert(strip_cr(rest.subrange(0, j - pos)) =~= pipe@.subrange(
                    pos as int,
                    line_end as int,
                ));
                assert(rest.subrange(j - pos + 1, rest.len() as int) =~= pipe@.subrange(
                    j + 1,
                    n as int,
                ));
                assert(r.deep_view() =~= old_rdv + seq![seg@]);
                assert((old_rdv + seq![seg@]) + split_lines_spec(pipe@.subrange(j + 1, n as int))
                    =~= old_rdv + (seq![seg@] + split_lines_spec(
                    pipe@.subrange(j + 1, n as int),
                )));
            }
            pos = j + 1;
        } else {
            let seg = String::from_str(pipe.substring_char(pos, n));
            r.push(seg);
            proof {
                assert(seg@ =~= rest);
                assert(split_lines_spec(pipe@.subrange(n as int, n as int)) =~= Seq::<Seq<char>>::empty());
                assert(r.deep_view() =~= old_rdv + seq![seg@]);
                assert((old_rdv + seq![seg@]) + Seq::<Seq<char>>::empty() =~= old_rdv + seq![rest]);
            }
            pos = n;
        }
    }
    proof {
        assert(split_lines_spec(pipe@.subrange(pos as int, n as int)) =~= Seq::<Seq<char>>::empty());
        assert(r.deep_view() + Seq::<Seq<char>>::empty() =~= r.deep_view());
        lemma_split_lines_no_newline(pipe@);
    }
    r
}

} // verus!
