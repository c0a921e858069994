use vstd::prelude::*;

use crate::render::{
    lemma_matches_skip, matches_at, render_spec, tok_email, tok_project_description,
    tok_project_name, tok_username, FieldValues,
};

verus! {

/// Whether one of the four placeholder tokens starts at position `i` of `s`.
pub open spec fn any_token_at(s: Seq<char>, i: int) -> bool {
    ||| matches_at(s, i, tok_username())
    ||| matches_at(s, i, tok_email())
    ||| matches_at(s, i, tok_project_name())
    ||| matches_at(s, i, tok_project_description())
}

/// No placeholder token occurs anywhere in `s`.
pub open spec fn token_free(s: Seq<char>) -> bool {
    forall|i: int| !(#[trigger] any_token_at(s, i))
}

/// `s` holds no brace character at all.
pub open spec fn brace_free(s: Seq<char>) -> bool {
    forall|i: int| 0 <= i < s.len() ==> (#[trigger] s[i]) != '{' && s[i] != '}'
}

/// None of the four field values holds a brace character, so no value can
/// form placeholder syntax on its own or against its surroundings.
pub open spec fn values_brace_free(v: FieldValues) -> bool {
    &&& brace_free(v.username)
    &&& brace_free(v.email)
    &&& brace_free(v.project_name)
    &&& brace_free(v.project_description)
}

/// No two adjacent open braces occur in `s`.
pub open spec fn no_double_brace(s: Seq<char>) -> bool {
    forall|i: int|
        0 <= i && i + 1 < s.len() ==> !((#[trigger] s[i]) == '{' && s[i + 1] == '{')
}

/// Every pair of adjacent open braces in `s` starts one of the four exact
/// placeholder tokens: the template text holds no stray or partial
/// placeholder syntax.
pub open spec fn tokens_wellformed(s: Seq<char>) -> bool {
    forall|i: int|
        0 <= i && i + 1 < s.len() && (#[trigger] s[i]) == '{' && s[i + 1] == '{'
            ==> any_token_at(s, i)
}

proof fn lemma_token_starts(s: Seq<char>, i: int)
    requires
        any_token_at(s, i),
    ensures
        0 <= i,
        i + 2 <= s.len(),
        s[i] == '{',
        s[i + 1] == '{',
{
    if matches_at(s, i, tok_username()) {
        assert(s.subrange(i, i + 12)[0] == s[i]);
        assert(s.subrange(i, i + 12)[1] == s[i + 1]);
    } else if matches_at(s, i, tok_email()) {
        assert(s.subrange(i, i + 9)[0] == s[i]);
        assert(s.subrange(i, i + 9)[1] == s[i + 1]);
    } else if matches_at(s, i, tok_project_name()) {
        assert(s.subrange(i, i + 16)[0] == s[i]);
        assert(s.subrange(i, i + 16)[1] == s[i + 1]);
    } else {
        assert(s.subrange(i, i + 23)[0] == s[i]);
        assert(s.subrange(i, i + 23)[1] == s[i + 1]);
    }
}

proof fn lemma_no_double_brace_token_free(s: Seq<char>)
    requires
        no_double_brace(s),
    ensures
        token_free(s),
{
    assert forall|i: int| !(#[trigger] any_token_at(s, i)) by {
        if any_token_at(s, i) {
            lemma_token_starts(s, i);
        }
    }
}

proof fn lemma_any_token_skip(s: Seq<char>, k: int, i: int)
    requires
        0 <= k <= s.len(),
        0 <= i,
    ensures
        any_token_at(s.skip(k), i) == any_token_at(s, k + i),
{
    lemma_matches_skip(s, k, i, tok_username());
    lemma_matches_skip(s, k, i, tok_email());
    lemma_matches_skip(s, k, i, tok_project_name());
    lemma_matches_skip(s, k, i, tok_project_description());
}

proof fn lemma_wellformed_skip(s: Seq<char>, k: int)
    requires
        tokens_wellformed(s),
        0 <= k <= s.len(),
    ensures
        tokens_wellformed(s.skip(k)),
{
    assert forall|i: int|
        0 <= i && i + 1 < s.skip(k).len() && (#[trigger] s.skip(k)[i]) == '{' && s.skip(k)[i + 1]
            == '{' implies any_token_at(s.skip(k), i) by {
        assert(s.skip(k)[i] == s[k + i]);
        assert(s.skip(k)[i + 1] == s[k + i + 1]);
        assert(any_token_at(s, k + i));
        lemma_any_token_skip(s, k, i);
    }
}

/// Law: rendering token-free text changes nothing. A text in which no
/// placeholder token occurs comes out of a render pass untouched.
pub proof fn lemma_render_token_free_identity(s: Seq<char>, v: FieldValues)
    requires
        token_free(s),
    ensures
        render_spec(s, v) == s,
    decreases s.len(),
{
    if s.len() == 0 {
        assert(render_spec(s, v) =~= s);
    } else {
        assert(!any_token_at(s, 0));
        assert forall|i: int| !(#[trigger] any_token_at(s.skip(1), i)) by {
            if 0 <= i {
                lemma_any_token_skip(s, 1, i);
            }
        }
        lemma_render_token_free_identity(s.skip(1), v);
        assert(render_spec(s, v) =~= s);
    }
}

proof fn lemma_render_first_char(s: Seq<char>, v: FieldValues)
    requires
        render_spec(s, v).len() > 0,
        render_spec(s, v)[0] == '{',
        values_brace_free(v),
    ensures
        s.len() > 0,
        s[0] == '{',
    decreases s.len(),
{
    if s.len() == 0 {
        assert(render_spec(s, v).len() == 0);
    } else if any_token_at(s, 0) {
        lemma_token_starts(s, 0);
    } else {
        assert(render_spec(s, v) == seq![s[0]] + render_spec(s.skip(1), v));
        assert(render_spec(s, v)[0] == s[0]);
    }
}

proof fn lemma_bracefree_concat_ndb(a: Seq<char>, b: Seq<char>)
    requires
        brace_free(a),
        no_double_brace(b),
    ensures
        no_double_brace(a + b),
{
    assert forall|i: int| #![trigger (a + b)[i]]
        0 <= i && i + 1 < (a + b).len() implies !(((a + b)[i]) == '{' && (a + b)[i + 1]
        == '{') by {
        if i + 1 < a.len() {
            assert((a + b)[i] == a[i]);
        } else if i < a.len() {
            assert((a + b)[i] == a[i]);
        } else {
            assert((a + b)[i] == b[i - a.len()]);
            assert((a + b)[i + 1] == b[i + 1 - a.len()]);
        }
    }
}

proof fn lemma_char_concat_ndb(c: char, b: Seq<char>)
    requires
        no_double_brace(b),
        !(c == '{' && b.len() > 0 && b[0] == '{'),
    ensures
        no_double_brace(seq![c] + b),
{
    assert forall|i: int| #![trigger (seq![c] + b)[i]]
        0 <= i && i + 1 < (seq![c] + b).len() implies !(((seq![c] + b)[i]) == '{' && (seq![c]
        + b)[i + 1] == '{') by {
        if i == 0 {
            assert((seq![c] + b)[0] == c);
            if b.len() > 0 {
                assert((seq![c] + b)[1] == b[0]);
            }
        } else {
            assert((seq![c] + b)[i] == b[i - 1]);
            assert((seq![c] + b)[i + 1] == b[i]);
        }
    }
}

proof fn lemma_render_no_double_brace(s: Seq<char>, v: FieldValues)
    requires
        tokens_wellformed(s),
        values_brace_free(v),
    ensures
        no_double_brace(render_spec(s, v)),
    decreases s.len(),
{
    if s.len() == 0 {
    } else if matches_at(s, 0, tok_username()) {
        lemma_wellformed_skip(s, 12);
        lemma_render_no_double_brace(s.skip(12), v);
        lemma_bracefree_concat_ndb(v.username, render_spec(s.skip(12), v));
    } else if matches_at(s, 0, tok_email()) {
        lemma_wellformed_skip(s, 9);
        lemma_render_no_double_brace(s.skip(9), v);
        lemma_bracefree_concat_ndb(v.email, render_spec(s.skip(9), v));
    } else if matches_at(s, 0, tok_project_name()) {
        lemma_wellformed_skip(s, 16);
        lemma_render_no_double_brace(s.skip(16), v);
        lemma_bracefree_concat_ndb(v.project_name, render_spec(s.skip(16), v));
    } else if matches_at(s, 0, tok_project_description()) {
        lemma_wellformed_skip(s, 23);
        lemma_render_no_double_brace(s.skip(23), v);
        lemma_bracefree_concat_ndb(v.project_description, render_spec(s.skip(23), v));
    } else {
        lemma_wellformed_skip(s, 1);
        lemma_render_no_double_brace(s.skip(1), v);
        let rest = render_spec(s.skip(1), v);
        if s[0] == '{' && rest.len() > 0 && rest[0] == '{' {
            lemma_render_first_char(s.skip(1), v);
            assert(s.skip(1)[0] == s[1]);
            assert(any_token_at(s, 0));
        }
        lemma_char_concat_ndb(s[0], rest);
    }
}

/// Law: one render pass leaves no placeholder token behind. If no field
/// value holds a brace, and every double open brace of the input starts one
/// of the four exact tokens, then no token occurs in the rendered output.
pub proof fn lemma_render_removes_tokens(s: Seq<char>, v: FieldValues)
    requires
        tokens_wellformed(s),
        values_brace_free(v),
    ensures
        token_free(render_spec(s, v)),
{
    lemma_render_no_double_brace(s, v);
    lemma_no_double_brace_token_free(render_spec(s, v));
}

/// Law: rendering is idempotent. Under the same conditions, rendering the
/// already-rendered output with the same field values changes nothing.
pub proof fn lemma_render_idempotent(s: Seq<char>, v: FieldValues)
    requires
        tokens_wellformed(s),
        values_brace_free(v),
    ensures
        render_spec(render_spec(s, v), v) == render_spec(s, v),
{
    lemma_render_removes_tokens(s, v);
    lemma_render_token_free_identity(render_spec(s, v), v);
}

} // verus!
