//! Merging one input unit into the command template.
//!
//! Append mode puts the unit after the template with one separating space.
//! Replace mode substitutes the unit's text for every literal occurrence of
//! the two-character placeholder `{}`, scanning left to right; a template
//! without a placeholder passes through unchanged. The unit is inserted
//! verbatim — no shell quoting or escaping is added here, so callers quote
//! fragile characters in their template themselves.

use vstd::prelude::*;

use crate::template::chain_args_with_space;
use crate::template::template_spec;

verus! {

/// How one input unit is merged into the command template.
#[derive(Clone, Copy, PartialEq, Eq, Structural, Debug)]
pub enum SubstitutionMode {
    /// The unit is appended after the template, separated by one space.
    Append,
    /// Every literal `{}` in the template is replaced by the unit.
    Replace,
}

/// Whether the placeholder `{}` sits at position `i` of `s`.
pub open spec fn placeholder_at(s: Seq<char>, i: int) -> bool {
    0 <= i && i + 1 < s.len() && s[i] == '{' && s[i + 1] == '}'
}

/// Whether `s` holds an occurrence of the placeholder `{}`.
pub open spec fn has_placeholder(s: Seq<char>) -> bool {
    exists|i: int| placeholder_at(s, i)
}

/// `t` with every occurrence of `{}` replaced by `u`, scanning left to right.
pub open spec fn replace_spec(t: Seq<char>, u: Seq<char>) -> Seq<char>
    decreases t.len(),
{
    if t.len() >= 2 && t[0] == '{' && t[1] == '}' {
        u + replace_spec(t.skip(2), u)
    } else if t.len() >= 1 {
        seq![t[0]] + replace_spec(t.skip(1), u)
    } else {
        Seq::empty()
    }
}

/// What expanding one template with one unit produces under each mode.
pub open spec fn expand_spec(t: Seq<char>, u: Seq<char>, mode: SubstitutionMode) -> Seq<char> {
    match mode {
        SubstitutionMode::Append => t + seq![' '] + u,
        SubstitutionMode::Replace => replace_spec(t, u),
    }
}

/// Merges one input unit into the template under the given mode, producing
/// the final command string.
pub fn expand(template: &str, unit: &str, mode: SubstitutionMode) -> (r: String)
    ensures
        r@ == expand_spec(template@, unit@, mode),
{
    match mode {
        SubstitutionMode::Append => {
            let mut r = String::from_str(template);
            r.append(" ");
            r.append(unit);
            proof {
                reveal_strlit(" ");
                assert(" "@ =~= seq![' ']);
            }
            r
        },
        SubstitutionMode::Replace => {
            let n = template.unicode_len();
            let mut r = String::new();
            let mut i: usize = 0;
            proof {
                assert(template@.skip(0) =~= template@);
                assert(Seq::<char>::empty() + replace_spec(template@, unit@) =~= replace_spec(
                    template@,
                    unit@,
                ));
            }
            while i < n
                invariant
                    i <= n,
                    n == template@.len(),
                    r@ + replace_spec(template@.skip(i as int), unit@) == replace_spec(
                        template@,
                        unit@,
                    ),
                decreases n - i,
            {
                let ghost rest = template@.skip(i as int);
                let ghost before = r@;
                if i + 1 < n && template.get_char(i) == '{' && template.get_char(i + 1) == '}' {
                    r.append(unit);
                    proof {
                        assert(rest[0] == '{' && rest[1] == '}');
                        assert(rest.skip(2) =~= template@.skip(i + 2));
                        assert((before + unit@) + replace_spec(template@.skip(i + 2), unit@)
                            =~= before + (unit@ + replace_spec(rest.skip(2), unit@)));
                    }
                    i = i + 2;
                } else {
                    let c = template.substring_char(i, i + 1);
                    r.append(c);
                    proof {
                        assert(rest.len() >= 1 && rest[0] == template@[i as int]);
                        assert(i + 1 < n ==> rest[1] == template@[i + 1]);
                        assert(c@ =~= seq![rest[0]]);
                        assert(rest.skip(1) =~= template@.skip(i + 1));
                        assert((before + c@) + replace_spec(template@.skip(i + 1), unit@)
                            =~= before + (seq![rest[0]] + replace_spec(rest.skip(1), unit@)));
                    }
                    i = i + 1;
                }
            }
            proof {
                assert(template@.skip(n as int) =~= Seq::<char>::empty());
                assert(r@ + replace_spec(Seq::<char>::empty(), unit@) =~= r@);
            }
            r
        },
    }
}

/// Builds the final command string for one piped unit: chains the tokens into
/// a template and expands it under the given mode.
pub fn build_cmd(cmd_vec: &Vec<String>, piped_args: &str, mode: SubstitutionMode) -> (r: String)
    ensures
        r@ == expand_spec(template_spec(cmd_vec.deep_view()), piped_args@, mode),
{
    let template = chain_args_with_space(cmd_vec);
    expand(template.as_str(), piped_args, mode)
}

/// Law: replacement on a template without any placeholder changes nothing, so
/// Replace mode degenerates to a no-op there.
pub proof fn lemma_replace_without_placeholder_is_noop(t: Seq<char>, u: Seq<char>)
    requires
        !has_placeholder(t),
    ensures
        replace_spec(t, u) == t,
    decreases t.len(),
{
    if t.len() >= 2 && t[0] == '{' && t[1] == '}' {
        assert(placeholder_at(t, 0));
    } else if t.len() >= 1 {
        assert(!has_placeholder(t.skip(1))) by {
            if has_placeholder(t.skip(1)) {
                let i = choose|i: int| placeholder_at(t.skip(1), i);
                assert(t.skip(1)[i] == t[i + 1] && t.skip(1)[i + 1] == t[i + 2]);
                assert(placeholder_at(t, i + 1));
            }
        }
        lemma_replace_without_placeholder_is_noop(t.skip(1), u);
        assert(seq![t[0]] + t.skip(1) =~= t);
    } else {
        assert(t =~= Seq::<char>::empty());
    }
}

/// Law: replacing with a non-empty unit that carries no brace characters
/// leaves no placeholder in the result — every occurrence is gone. The result
/// is empty only for an empty template, and its first character is the unit's
/// first where the template opens with the placeholder, the template's own
/// first character otherwise.
pub proof fn lemma_replace_clears_placeholders(t: Seq<char>, u: Seq<char>)
    requires
        u.len() > 0,
        forall|k: int| 0 <= k < u.len() ==> u[k] != '{' && u[k] != '}',
    ensures
        !has_placeholder(replace_spec(t, u)),
        t.len() > 0 ==> replace_spec(t, u).len() > 0,
        t.len() > 0 ==> replace_spec(t, u)[0] == (if placeholder_at(t, 0) {
            u[0]
        } else {
            t[0]
        }),
    decreases t.len(),
{
    let r = replace_spec(t, u);
    if t.len() >= 2 && t[0] == '{' && t[1] == '}' {
        let tail = t.skip(2);
        let rt = replace_spec(tail, u);
        lemma_replace_clears_placeholders(tail, u);
        assert forall|i: int| !placeholder_at(r, i) by {
            if placeholder_at(r, i) {
                if i < u.len() {
                    assert(r[i] == u[i]);
                } else {
                    assert(r[i] == rt[i - u.len()] && r[i + 1] == rt[i + 1 - u.len()]);
                    assert(placeholder_at(rt, i - u.len()));
                }
            }
        }
        assert(r[0] == u[0]);
    } else if t.len() >= 1 {
        let tail = t.skip(1);
        let rt = replace_spec(tail, u);
        lemma_replace_clears_placeholders(tail, u);
        assert(rt.len() == 0 ==> tail.len() == 0);
        assert forall|i: int| !placeholder_at(r, i) by {
            if placeholder_at(r, i) {
                if i == 0 {
                    assert(r[0] == t[0] && t[0] == '{');
                    assert(r[1] == rt[0]);
                    assert(tail.len() > 0);
                    if placeholder_at(tail, 0) {
                        assert(rt[0] == u[0]);
                    } else {
                        assert(rt[0] == tail[0] && tail[0] == t[1]);
                        assert(placeholder_at(t, 0));
                    }
                } else {
                    assert(r[i] == rt[i - 1] && r[i + 1] == rt[i]);
                    assert(placeholder_at(rt, i - 1));
                }
            }
        }
        assert(r[0] == t[0]);
    } else {
        assert forall|i: int| !placeholder_at(r, i) by {}
    }
}

} // verus!
