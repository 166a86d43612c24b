//! Whitespace trimming over character sequences.
//!
//! Both the input normalizer and the template builder strip incidental
//! whitespace from the edges of a string; the model of that operation and its
//! executable form live here.

use vstd::prelude::*;

verus! {

/// The blank characters that trimming removes: ASCII space, tab, carriage
/// return and line feed.
pub open spec fn is_blank(c: char) -> bool {
    c == ' ' || c == '\t' || c == '\r' || c == '\n'
}

/// `s` with every leading blank character removed.
pub open spec fn trim_front(s: Seq<char>) -> Seq<char>
    decreases s.len(),
{
    if s.len() > 0 && is_blank(s[0]) {
        trim_front(s.drop_first())
    } else {
        s
    }
}

/// `s` with every trailing blank character removed.
pub open spec fn trim_back(s: Seq<char>) -> Seq<char>
    decreases s.len(),
{
    if s.len() > 0 && is_blank(s[s.len() - 1]) {
        trim_back(s.drop_last())
    } else {
        s
    }
}

/// `s` with leading and trailing blanks removed.
pub open spec fn trim_spec(s: Seq<char>) -> Seq<char> {
    trim_back(trim_front(s))
}

/// If the first `a` characters of `s` are blank and the character at `a`
/// (when there is one) is not, trimming the front keeps exactly `s[a..]`.
pub proof fn lemma_trim_front_subrange(s: Seq<char>, a: int)
    requires
        0 <= a <= s.len(),
        forall|k: int| 0 <= k < a ==> is_blank(s[k]),
        a == s.len() || !is_blank(s[a]),
    ensures
        trim_front(s) == s.subrange(a, s.len() as int),
    decreases a,
{
    if a == 0 {
        assert(s =~= s.subrange(0, s.len() as int));
    } else {
        lemma_trim_front_subrange(s.drop_first(), a - 1);
        assert(s.drop_first().subrange(a - 1, s.drop_first().len() as int) =~= s.subrange(
            a,
            s.len() as int,
        ));
    }
}

/// If every character of `s` from `b` on is blank and the character just
/// before `b` (when there is one) is not, trimming the back keeps `s[..b]`.
pub proof fn lemma_trim_back_subrange(s: Seq<char>, b: int)
    requires
        0 <= b <= s.len(),
        forall|k: int| b <= k < s.len() ==> is_blank(s[k]),
        b == 0 || !is_blank(s[b - 1]),
    ensures
        trim_back(s) == s.subrange(0, b),
    decreases s.len() - b,
{
    if b == s.len() {
        assert(s =~= s.subrange(0, b));
    } else {
        lemma_trim_back_subrange(s.drop_last(), b);
        assert(s.drop_last().subrange(0, b) =~= s.subrange(0, b));
    }
}

/// Trimming a string whose edges are already clean changes nothing.
pub proof fn lemma_trim_noop(s: Seq<char>)
    requires
        s.len() > 0,
        !is_blank(s[0]),
        !is_blank(s[s.len() - 1]),
    ensures
        trim_spec(s) == s,
{
    lemma_trim_front_subrange(s, 0);
    assert(trim_front(s) =~= s);
    lemma_trim_back_subrange(s, s.len() as int);
    assert(trim_back(s) =~= s);
}

/// Whether `c` is one of the blank characters that trimming removes.
pub fn is_blank_char(c: char) -> (r: bool)
    ensures
        r == is_blank(c),
{
    c == ' ' || c == '\t' || c == '\r' || c == '\n'
}

/// Removes leading and trailing blank characters from `s`.
pub fn trim_blanks(s: &str) -> (r: String)
    ensures
        r@ == trim_spec(s@),
{
    let n = s.unicode_len();
    let mut a: usize = 0;
    while a < n && is_blank_char(s.get_char(a))
        invariant
            0 <= a <= n,
            n == s@.len(),
            forall|k: int| 0 <= k < a ==> is_blank(s@[k]),
        decreases n - a,
    {
        a = a + 1;
    }
    if a == n {
        proof {
            lemma_trim_front_subrange(s@, a as int);
            assert(trim_front(s@) =~= Seq::<char>::empty());
            assert(trim_spec(s@) =~= Seq::<char>::empty());
        }
        String::new()
    } else {
        let mut b: usize = n;
        while is_blank_char(s.get_char(b - 1))
            invariant
                a < b <= n,
            n == s@.len(),
            !is_blank(s@[a as int]),
            forall|k: int| b <= k < n ==> is_blank(s@[k]),
            decreases b,
        {
            b = b - 1;
        }
        let r = String::from_str(s.substring_char(a, b));
        proof {
            lemma_trim_front_subrange(s@, a as int);
            let tail = s@.subrange(a as int, s@.len() as int);
            lemma_trim_back_subrange(tail, b - a);
            assert(tail.subrange(0, b - a) =~= s@.subrange(a as int, b as int));
        }
        r
    }
}

} // verus!
