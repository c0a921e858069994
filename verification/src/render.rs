use vstd::prelude::*;

use crate::TemplateData;

verus! {

/// The four substitutable field values of a render context, at the
/// specification level: each field as a sequence of characters.
pub struct FieldValues {
    pub username: Seq<char>,
    pub email: Seq<char>,
    pub project_name: Seq<char>,
    pub project_description: Seq<char>,
}

/// The placeholder token that stands for the username field.
pub open spec fn tok_username() -> Seq<char> {
    seq!['{', '{', 'u', 's', 'e', 'r', 'n', 'a', 'm', 'e', '}', '}']
}

/// The placeholder token that stands for the email field.
pub open spec fn tok_email() -> Seq<char> {
    seq!['{', '{', 'e', 'm', 'a', 'i', 'l', '}', '}']
}

/// The placeholder token that stands for the project name field.
pub open spec fn tok_project_name() -> Seq<char> {
    seq!['{', '{', 'p', 'r', 'o', 'j', 'e', 'c', 't', '_', 'n', 'a', 'm', 'e', '}', '}']
}

/// The placeholder token that stands for the project description field.
pub open spec fn tok_project_description() -> Seq<char> {
    seq!['{', '{', 'p', 'r', 'o', 'j', 'e', 'c', 't', '_', 'd', 'e', 's', 'c', 'r', 'i', 'p',
        't', 'i', 'o', 'n', '}', '}']
}

/// Whether the token `tok` occurs in `s` starting at position `i`.
pub open spec fn matches_at(s: Seq<char>, i: int, tok: Seq<char>) -> bool {
    &&& 0 <= i
    &&& i + tok.len() <= s.len()
    &&& s.subrange(i, i + tok.len() as int) == tok
}

/// One left-to-right substitution pass: at each position, if one of the
/// four placeholder tokens starts there, the corresponding field value is
/// emitted and the scan continues after the token; otherwise the character
/// itself is emitted. Emitted field values are never rescanned, so a value
/// containing placeholder syntax is not expanded further.
pub open spec fn render_spec(s: Seq<char>, v: FieldValues) -> Seq<char>
    decreases s.len(),
{
    if s.len() == 0 {
        Seq::empty()
    } else if matches_at(s, 0, tok_username()) {
        v.username + render_spec(s.skip(tok_username().len() as int), v)
    } else if matches_at(s, 0, tok_email()) {
        v.email + render_spec(s.skip(tok_email().len() as int), v)
    } else if matches_at(s, 0, tok_project_name()) {
        v.project_name + render_spec(s.skip(tok_project_name().len() as int), v)
    } else if matches_at(s, 0, tok_project_description()) {
        v.project_description + render_spec(s.skip(tok_project_description().len() as int), v)
    } else {
        seq![s[0]] + render_spec(s.skip(1), v)
    }
}

/// A token occurrence shifted across `skip` is the same occurrence in the
/// original sequence.
pub proof fn lemma_matches_skip(s: Seq<char>, k: int, i: int, tok: Seq<char>)
    requires
        0 <= k <= s.len(),
        0 <= i,
    ensures
        matches_at(s.skip(k), i, tok) == matches_at(s, k + i, tok),
{
    if i + tok.len() <= s.skip(k).len() {
        assert(s.skip(k).subrange(i, i + tok.len() as int) =~= s.subrange(
            k + i,
            k + i + tok.len() as int,
        ));
    }
}

/// Checks whether `tok` occurs in `content` starting at character position `i`.
fn matches_token(content: &str, n: usize, i: usize, tok: &str, tn: usize) -> (b: bool)
    requires
        n == content@.len(),
        i <= n,
        tn == tok@.len(),
    ensures
        b == matches_at(content@, i as int, tok@),
{
    if tn > n - i {
        return false;
    }
    let mut j: usize = 0;
    while j < tn
        invariant
            j <= tn,
            i + tn <= n,
            n == content@.len(),
            tn == tok@.len(),
            forall|k: int| 0 <= k < j ==> content@[i + k] == tok@[k],
        decreases tn - j,
    {
        if content.get_char(i + j) != tok.get_char(j) {
            proof {
                if matches_at(content@, i as int, tok@) {
                    assert(content@.subrange(i as int, i as int + tn as int)[j as int]
                        == tok@[j as int]);
                }
            }
            return false;
        }
        j += 1;
    }
    proof {
        assert(content@.subrange(i as int, i as int + tn as int) =~= tok@);
    }
    true
}

impl View for TemplateData {
    type V = FieldValues;

    open spec fn view(&self) -> FieldValues {
        FieldValues {
            username: self.username@,
            email: self.email@,
            project_name: self.project_name@,
            project_description: self.project_description@,
        }
    }
}

proof fn lemma_token_literals()
    ensures
        "{{username}}"@ == tok_username(),
        "{{email}}"@ == tok_email(),
        "{{project_name}}"@ == tok_project_name(),
        "{{project_description}}"@ == tok_project_description(),
{
    reveal_strlit("{{username}}");
    reveal_strlit("{{email}}");
    reveal_strlit("{{project_name}}");
    reveal_strlit("{{project_description}}");
    assert("{{username}}"@ =~= tok_username());
    assert("{{email}}"@ =~= tok_email());
    assert("{{project_name}}"@ =~= tok_project_name());
    assert("{{project_description}}"@ =~= tok_project_description());
}

/// Replaces every occurrence of the four placeholder tokens in `content`
/// with the corresponding field of `data`, in one left-to-right pass.
#[verifier::loop_isolation(false)]
pub fn fill_template_content(content: &str, data: &TemplateData) -> (r: String)
    ensures
        r@ == render_spec(content@, data@),
{
    proof {
        lemma_token_literals();
    }
    let t_user = "{{username}}";
    let t_email = "{{email}}";
    let t_name = "{{project_name}}";
    let t_desc = "{{project_description}}";
    let n: usize = content.unicode_len();
    let mut out = String::new();
    proof {
        assert(content@.skip(0) =~= content@);
        assert(out@ + render_spec(content@, data@) =~= render_spec(content@, data@));
    }
    let mut i: usize = 0;
    while i < n
        invariant
            i <= n,
            render_spec(content@, data@) == out@ + render_spec(
                content@.skip(i as int),
                data@,
            ),
        decreases n - i,
    {
        proof {
            lemma_matches_skip(content@, i as int, 0, tok_username());
            lemma_matches_skip(content@, i as int, 0, tok_email());
            lemma_matches_skip(content@, i as int, 0, tok_project_name());
            lemma_matches_skip(content@, i as int, 0, tok_project_description());
        }
        let ghost rest = content@.skip(i as int);
        if matches_token(content, n, i, t_user, 12) {
            out.append(data.username.as_str());
            proof {
                assert(rest.skip(12) =~= content@.skip(i as int + 12));
                assert(out@ + render_spec(content@.skip(i as int + 12), data@)
                    =~= render_spec(content@, data@));
            }
            i = i + 12;
        } else if matches_token(content, n, i, t_email, 9) {
            out.append(data.email.as_str());
            proof {
                assert(rest.skip(9) =~= content@.skip(i as int + 9));
                assert(out@ + render_spec(content@.skip(i as int + 9), data@)
                    =~= render_spec(content@, data@));
            }
            i = i + 9;
        } else if matches_token(content, n, i, t_name, 16) {
            out.append(data.project_name.as_str());
            proof {
                assert(rest.skip(16) =~= content@.skip(i as int + 16));
                assert(out@ + render_spec(content@.skip(i as int + 16), data@)
                    =~= render_spec(content@, data@));
            }
            i = i + 16;
        } else if matches_token(content, n, i, t_desc, 23) {
            out.append(data.project_description.as_str());
            proof {
                assert(rest.skip(23) =~= content@.skip(i as int + 23));
                assert(out@ + render_spec(content@.skip(i as int + 23), data@)
                    =~= render_spec(content@, data@));
            }
            i = i + 23;
        } else {
            let piece = content.substring_char(i, i + 1);
            out.append(piece);
            proof {
                assert(rest[0] == content@[i as int]);
                assert(piece@ =~= seq![rest[0]]);
                assert(rest.skip(1) =~= content@.skip(i as int + 1));
                assert(out@ + render_spec(content@.skip(i as int + 1), data@)
                    =~= render_spec(content@, data@));
            }
            i = i + 1;
        }
    }
    proof {
        assert(content@.skip(n as int) =~= Seq::<char>::empty());
        assert(out@ + render_spec(content@.skip(n as int), data@) =~= out@);
    }
    out
}

} // verus!
