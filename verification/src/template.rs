//! Building the command template out of the caller's tokens.
//!
//! The tokens are joined with one ASCII space between consecutive tokens and
//! the result is trimmed of incidental whitespace. An empty token list leaves
//! nothing to execute and is rejected.

use vstd::prelude::*;

use crate::errors::XaError;
use crate::text::is_blank;
use crate::text::lemma_trim_noop;
use crate::text::trim_blanks;
use crate::text::trim_spec;

verus! {

/// The tokens joined with exactly one space between consecutive tokens.
pub open spec fn join_spec(tokens: Seq<Seq<char>>) -> Seq<char>
    decreases tokens.len(),
{
    if tokens.len() == 0 {
        Seq::empty()
    } else if tokens.len() == 1 {
        tokens[0]
    } else {
        join_spec(tokens.drop_last()) + seq![' '] + tokens.last()
    }
}

/// The template the tokens produce: joined with single spaces, then trimmed.
pub open spec fn template_spec(tokens: Seq<Seq<char>>) -> Seq<char> {
    trim_spec(join_spec(tokens))
}

/// Chains the given tokens together with a single space between consecutive
/// ones, then removes leading and trailing whitespace from the result.
pub fn chain_args_with_space(args: &Vec<String>) -> (r: String)
    ensures
        r@ == template_spec(args.deep_view()),
{
    let ghost dv = args.deep_view();
    let mut joined = String::new();
    let mut k: usize = 0;
    proof {
        assert(dv.take(0) =~= Seq::<Seq<char>>::empty());
    }
    while k < args.len()
        invariant
            k <= args.len(),
            dv == args.deep_view(),
            joined@ == join_spec(dv.take(k as int)),
        decreases args.len() - k,
    {
        let ghost before = joined@;
        if k > 0 {
            joined.append(" ");
        }
        joined.append(args[k].as_str());
        proof {
            reveal_strlit(" ");
            assert(" "@ =~= seq![' ']);
            assert(dv[k as int] == args@[k as int]@);
            if k == 0 {
                assert(dv.take(1) =~= seq![dv[0]]);
                assert(joined@ =~= dv[0]);
            } else {
                assert(dv.take(k + 1).drop_last() =~= dv.take(k as int));
                assert(dv.take(k + 1).last() == dv[k as int]);
                assert(joined@ =~= before + seq![' '] + dv[k as int]);
            }
        }
        k = k + 1;
    }
    proof {
        assert(dv.take(args.len() as int) =~= dv);
    }
    trim_blanks(joined.as_str())
}

/// Builds the template, rejecting an empty token list: the system would have
/// nothing to execute.
pub fn build_template(args: &Vec<String>) -> (r: Result<String, XaError>)
    ensures
        r is Err <==> args.len() == 0,
        r matches Err(e) ==> e == XaError::EmptyTemplateError,
        r matches Ok(t) ==> t@ == template_spec(args.deep_view()),
{
    if args.len() == 0 {
        Err(XaError::EmptyTemplateError)
    } else {
        Ok(chain_args_with_space(args))
    }
}

/// The joined tokens, when each token has at least one character, start with
/// the first token's first character and end with the last token's last one.
proof fn lemma_join_edges(tokens: Seq<Seq<char>>)
    requires
        tokens.len() > 0,
        forall|i: int| 0 <= i < tokens.len() ==> (#[trigger] tokens[i]).len() > 0,
    ensures
        join_spec(tokens).len() > 0,
        join_spec(tokens)[0] == tokens[0][0],
        join_spec(tokens).last() == tokens.last().last(),
    decreases tokens.len(),
{
    if tokens.len() > 1 {
        lemma_join_edges(tokens.drop_last());
        assert(tokens.drop_last()[0] == tokens[0]);
        let j = join_spec(tokens.drop_last()) + seq![' '] + tokens.last();
        assert(j[0] == join_spec(tokens.drop_last())[0]);
        assert(j.last() == tokens.last().last());
    }
}

/// In the joined tokens, when no token holds a blank character, the only
/// blanks are the inserted separators — plain spaces — and no two blanks sit
/// next to each other.
proof fn lemma_join_single_spaces(tokens: Seq<Seq<char>>)
    requires
        tokens.len() > 0,
        forall|i: int| 0 <= i < tokens.len() ==> (#[trigger] tokens[i]).len() > 0,
        forall|i: int, k: int|
            0 <= i < tokens.len() && 0 <= k < tokens[i].len() ==> !is_blank(
                #[trigger] tokens[i][k],
            ),
    ensures
        forall|k: int|
            0 <= k < join_spec(tokens).len() && is_blank(#[trigger] join_spec(tokens)[k])
                ==> join_spec(tokens)[k] == ' ',
        forall|k: int|
            0 <= k && k + 1 < join_spec(tokens).len() ==> !(is_blank(
                #[trigger] join_spec(tokens)[k],
            ) && is_blank(join_spec(tokens)[k + 1])),
    decreases tokens.len(),
{
    let r = join_spec(tokens);
    if tokens.len() == 1 {
        assert(r == tokens[0]);
    } else {
        let front = tokens.drop_last();
        let rd = join_spec(front);
        lemma_join_single_spaces(front);
        lemma_join_edges(front);
        assert(front[0] == tokens[0]);
        assert(front.last() == tokens[front.len() - 1]);
        assert(!is_blank(rd[rd.len() - 1]));
        let last = tokens.last();
        assert(r == rd + seq![' '] + last);
        assert forall|k: int| 0 <= k < r.len() && is_blank(#[trigger] r[k]) implies r[k]
            == ' ' by {
            if k < rd.len() {
                assert(r[k] == rd[k]);
            } else if k == rd.len() {
                assert(r[k] == ' ');
            } else {
                assert(r[k] == last[k - rd.len() - 1]);
            }
        }
        assert forall|k: int| 0 <= k && k + 1 < r.len() implies !(is_blank(#[trigger] r[k])
            && is_blank(r[k + 1])) by {
            if k + 1 < rd.len() {
                assert(r[k] == rd[k] && r[k + 1] == rd[k + 1]);
            } else if k + 1 == rd.len() {
                assert(r[k] == rd[k]);
            } else if k + 1 == rd.len() + 1 {
                assert(r[k + 1] == last[0]);
            } else {
                assert(r[k] == last[k - rd.len() - 1]);
            }
        }
    }
}

/// Law: for a non-empty token list whose tokens are themselves non-empty and
/// free of blank characters, the built template is exactly the tokens joined
/// with one space between consecutive tokens — the final trim removes
/// nothing — it neither starts nor ends with a blank character, the only
/// blank characters in it are plain spaces, and no two of them are adjacent.
pub proof fn lemma_template_well_spaced(tokens: Seq<Seq<char>>)
    requires
        tokens.len() > 0,
        forall|i: int| 0 <= i < tokens.len() ==> (#[trigger] tokens[i]).len() > 0,
        forall|i: int, k: int|
            0 <= i < tokens.len() && 0 <= k < tokens[i].len() ==> !is_blank(
                #[trigger] tokens[i][k],
            ),
    ensures
        template_spec(tokens) == join_spec(tokens),
        join_spec(tokens).len() > 0,
        !is_blank(join_spec(tokens)[0]),
        !is_blank(join_spec(tokens)[join_spec(tokens).len() - 1]),
        forall|k: int|
            0 <= k < join_spec(tokens).len() && is_blank(#[trigger] join_spec(tokens)[k])
                ==> join_spec(tokens)[k] == ' ',
        forall|k: int|
            0 <= k && k + 1 < join_spec(tokens).len() ==> !(is_blank(
                #[trigger] join_spec(tokens)[k],
            ) && is_blank(join_spec(tokens)[k + 1])),
{
    lemma_join_edges(tokens);
    assert(!is_blank(tokens[0][0]));
    assert(!is_blank(tokens.last().last()));
    lemma_trim_noop(join_spec(tokens));
    lemma_join_single_spaces(tokens);
}

} // verus!
