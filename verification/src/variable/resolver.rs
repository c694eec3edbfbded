//! Two-phase template substitution.
//!
//! Phase one replaces `${NAME}` references out of an environment map; phase
//! two replaces `{{name}}` references out of the session variable store.
//! Unmatched references are left verbatim, and replacement text is never
//! rescanned.

use vstd::prelude::*;

use crate::text::is_digit;
use crate::text::str_chars;
use crate::text::chars_string;
use crate::variable::types::VariableContext;

verus! {

/// First character of a session variable name.
pub open spec fn is_ident_start(c: char) -> bool {
    ('a' <= c && c <= 'z') || ('A' <= c && c <= 'Z') || c == '_'
}

/// Later characters of a session variable name.
pub open spec fn is_ident_char(c: char) -> bool {
    is_ident_start(c) || is_digit(c)
}

/// First character of an environment variable name.
pub open spec fn is_env_start(c: char) -> bool {
    ('A' <= c && c <= 'Z') || c == '_'
}

/// Later characters of an environment variable name.
pub open spec fn is_env_char(c: char) -> bool {
    is_env_start(c) || is_digit(c)
}

/// End of the run of characters satisfying `f` that starts at `i`.
pub open spec fn run_end(s: Seq<char>, i: int, f: spec_fn(char) -> bool) -> int
    decreases s.len() - i,
{
    if i < 0 || i >= s.len() || !f(s[i]) {
        i
    } else {
        run_end(s, i + 1, f)
    }
}

pub proof fn lemma_run_end(s: Seq<char>, i: int, f: spec_fn(char) -> bool)
    requires
        0 <= i <= s.len(),
    ensures
        i <= run_end(s, i, f) <= s.len(),
        forall|k: int| i <= k < run_end(s, i, f) ==> f(s[k]),
        run_end(s, i, f) < s.len() ==> !f(s[run_end(s, i, f)]),
    decreases s.len() - i,
{
    if i < s.len() && f(s[i]) {
        lemma_run_end(s, i + 1, f);
    }
}

/// A run that is known to stop exactly at `j` is the run the spec computes.
pub proof fn lemma_run_end_is(s: Seq<char>, i: int, j: int, f: spec_fn(char) -> bool)
    requires
        0 <= i <= j <= s.len(),
        forall|k: int| i <= k < j ==> f(s[k]),
        j < s.len() ==> !f(s[j]),
    ensures
        run_end(s, i, f) == j,
    decreases j - i,
{
    if i < j {
        lemma_run_end_is(s, i + 1, j, f);
    }
}

/// A well-formed `{{name}}` reference at position `i`: the name and the
/// index one past the closing braces.
pub open spec fn var_match_at(s: Seq<char>, i: int) -> Option<(Seq<char>, int)> {
    if 0 <= i && i + 2 < s.len() && s[i] == '{' && s[i + 1] == '{' && is_ident_start(s[i + 2]) {
        let j = run_end(s, i + 3, |c: char| is_ident_char(c));
        if j + 2 <= s.len() && s[j] == '}' && s[j + 1] == '}' {
            Some((s.subrange(i + 2, j), j + 2))
        } else {
            None
        }
    } else {
        None
    }
}

/// A well-formed `${NAME}` reference at position `i`: the name and the
/// index one past the closing brace.
pub open spec fn env_match_at(s: Seq<char>, i: int) -> Option<(Seq<char>, int)> {
    if 0 <= i && i + 2 < s.len() && s[i] == '$' && s[i + 1] == '{' && is_env_start(s[i + 2]) {
        let j = run_end(s, i + 3, |c: char| is_env_char(c));
        if j + 1 <= s.len() && s[j] == '}' {
            Some((s.subrange(i + 2, j), j + 1))
        } else {
            None
        }
    } else {
        None
    }
}

pub proof fn lemma_var_match_bounds(s: Seq<char>, i: int)
    requires
        var_match_at(s, i) is Some,
    ensures
        ({
            let (name, end) = var_match_at(s, i)->0;
            i + 4 < end <= s.len() && name.len() > 0
        }),
{
    lemma_run_end(s, i + 3, |c: char| is_ident_char(c));
}

pub proof fn lemma_env_match_bounds(s: Seq<char>, i: int)
    requires
        env_match_at(s, i) is Some,
    ensures
        ({
            let (name, end) = env_match_at(s, i)->0;
            i + 3 < end <= s.len() && name.len() > 0
        }),
{
    lemma_run_end(s, i + 3, |c: char| is_env_char(c));
}

/// Phase-two substitution from position `i` on: each `{{name}}` whose name
/// the map holds becomes the mapped value; everything else is copied.
pub open spec fn subst_vars_from(s: Seq<char>, m: Map<Seq<char>, Seq<char>>, i: int) -> Seq<char>
    decreases s.len() - i,
{
    if i < 0 || i >= s.len() {
        Seq::empty()
    } else {
        match var_match_at(s, i) {
            Some(p) => {
                if i < p.1 <= s.len() {
                    (if m.contains_key(p.0) {
                        m[p.0]
                    } else {
                        s.subrange(i, p.1)
                    }) + subst_vars_from(s, m, p.1)
                } else {
                    Seq::empty()
                }
            },
            None => seq![s[i]] + subst_vars_from(s, m, i + 1),
        }
    }
}

pub open spec fn subst_vars(s: Seq<char>, m: Map<Seq<char>, Seq<char>>) -> Seq<char> {
    subst_vars_from(s, m, 0)
}

/// Phase-one substitution from position `i` on, over `${NAME}` references.
pub open spec fn subst_env_from(s: Seq<char>, m: Map<Seq<char>, Seq<char>>, i: int) -> Seq<char>
    decreases s.len() - i,
{
    if i < 0 || i >= s.len() {
        Seq::empty()
    } else {
        match env_match_at(s, i) {
            Some(p) => {
                if i < p.1 <= s.len() {
                    (if m.contains_key(p.0) {
                        m[p.0]
                    } else {
                        s.subrange(i, p.1)
                    }) + subst_env_from(s, m, p.1)
                } else {
                    Seq::empty()
                }
            },
            None => seq![s[i]] + subst_env_from(s, m, i + 1),
        }
    }
}

pub open spec fn subst_env(s: Seq<char>, m: Map<Seq<char>, Seq<char>>) -> Seq<char> {
    subst_env_from(s, m, 0)
}

/// Both phases, in the load-bearing order: environment references first,
/// then session variables.
pub open spec fn resolve_spec(
    s: Seq<char>,
    env: Map<Seq<char>, Seq<char>>,
    vars: Map<Seq<char>, Seq<char>>,
) -> Seq<char> {
    subst_vars(subst_env(s, env), vars)
}

/// No `{{name}}` reference in `s` names a variable the map holds.
pub open spec fn no_bound_var(s: Seq<char>, m: Map<Seq<char>, Seq<char>>) -> bool {
    forall|i: int|
        0 <= i < s.len() ==> match #[trigger] var_match_at(s, i) {
            Some(p) => !m.contains_key(p.0),
            None => true,
        }
}

/// No `${NAME}` reference in `s` names a variable the map holds.
pub open spec fn no_bound_env(s: Seq<char>, m: Map<Seq<char>, Seq<char>>) -> bool {
    forall|i: int|
        0 <= i < s.len() ==> match #[trigger] env_match_at(s, i) {
            Some(p) => !m.contains_key(p.0),
            None => true,
        }
}

proof fn lemma_subst_vars_noop_from(s: Seq<char>, m: Map<Seq<char>, Seq<char>>, i: int)
    requires
        no_bound_var(s, m),
        0 <= i <= s.len(),
    ensures
        subst_vars_from(s, m, i) == s.skip(i),
    decreases s.len() - i,
{
    if i >= s.len() {
        assert(subst_vars_from(s, m, i) =~= s.skip(i));
    } else {
        match var_match_at(s, i) {
            Some(p) => {
                lemma_var_match_bounds(s, i);
                lemma_subst_vars_noop_from(s, m, p.1);
                assert(s.subrange(i, p.1) + s.skip(p.1) =~= s.skip(i));
            },
            None => {
                lemma_subst_vars_noop_from(s, m, i + 1);
                assert(seq![s[i]] + s.skip(i + 1) =~= s.skip(i));
            },
        }
    }
}

/// Substituting session variables in a string with no substitutable
/// reference changes nothing.
pub proof fn lemma_subst_vars_noop(s: Seq<char>, m: Map<Seq<char>, Seq<char>>)
    requires
        no_bound_var(s, m),
    ensures
        subst_vars(s, m) == s,
{
    lemma_subst_vars_noop_from(s, m, 0);
    assert(s.skip(0) == s);
}

proof fn lemma_subst_env_noop_from(s: Seq<char>, m: Map<Seq<char>, Seq<char>>, i: int)
    requires
        no_bound_env(s, m),
        0 <= i <= s.len(),
    ensures
        subst_env_from(s, m, i) == s.skip(i),
    decreases s.len() - i,
{
    if i >= s.len() {
        assert(subst_env_from(s, m, i) =~= s.skip(i));
    } else {
        match env_match_at(s, i) {
            Some(p) => {
                lemma_env_match_bounds(s, i);
                lemma_subst_env_noop_from(s, m, p.1);
                assert(s.subrange(i, p.1) + s.skip(p.1) =~= s.skip(i));
            },
            None => {
                lemma_subst_env_noop_from(s, m, i + 1);
                assert(seq![s[i]] + s.skip(i + 1) =~= s.skip(i));
            },
        }
    }
}

/// Substituting environment references in a string with no substitutable
/// reference changes nothing.
pub proof fn lemma_subst_env_noop(s: Seq<char>, m: Map<Seq<char>, Seq<char>>)
    requires
        no_bound_env(s, m),
    ensures
        subst_env(s, m) == s,
{
    lemma_subst_env_noop_from(s, m, 0);
    assert(s.skip(0) == s);
}

/// Law: once one pass of resolution leaves no substitutable placeholder,
/// resolving again changes nothing — `resolve(resolve(s)) == resolve(s)`.
pub proof fn lemma_resolve_idempotent(
    s: Seq<char>,
    env: Map<Seq<char>, Seq<char>>,
    vars: Map<Seq<char>, Seq<char>>,
)
    requires
        no_bound_env(resolve_spec(s, env, vars), env),
        no_bound_var(resolve_spec(s, env, vars), vars),
    ensures
        resolve_spec(resolve_spec(s, env, vars), env, vars) == resolve_spec(s, env, vars),
{
    let r = resolve_spec(s, env, vars);
    lemma_subst_env_noop(r, env);
    lemma_subst_vars_noop(r, vars);
}

/// A valid session variable name.
pub open spec fn is_var_name(s: Seq<char>) -> bool {
    s.len() > 0 && is_ident_start(s[0]) && forall|k: int| 0 <= k < s.len() ==> is_ident_char(
        #[trigger] s[k],
    )
}

/// Law: a template that is exactly one `{{name}}` reference resolves to the
/// stored value of that name, verbatim. This is the link that carries a
/// captured value of one request into the next request's template.
pub proof fn lemma_template_resolves(
    name: Seq<char>,
    env: Map<Seq<char>, Seq<char>>,
    vars: Map<Seq<char>, Seq<char>>,
)
    requires
        is_var_name(name),
        vars.contains_key(name),
    ensures
        resolve_spec(seq!['{', '{'] + name + seq!['}', '}'], env, vars) == vars[name],
{
    let t = seq!['{', '{'] + name + seq!['}', '}'];
    let n = name.len() as int;
    assert(t.len() == n + 4);
    assert(t[0] == '{' && t[1] == '{');
    assert(t[n + 2] == '}' && t[n + 3] == '}');
    assert(forall|k: int| 0 <= k < n ==> t[k + 2] == name[k]);
    // Phase one is a no-op: nothing in the template is a `$`.
    assert(no_bound_env(t, env)) by {
        assert forall|i: int| 0 <= i < t.len() implies env_match_at(t, i) is None by {
            if i == 0 || i == 1 {
                assert(t[i] == '{');
            } else if i < n + 2 {
                assert(t[i] == name[i - 2]);
                assert(is_ident_char(t[i]));
                assert(t[i] != '$');
            } else {
                assert(t[i] == '}');
            }
        }
    }
    lemma_subst_env_noop(t, env);
    // Phase two matches the whole template at position zero.
    assert(is_ident_start(t[2]));
    lemma_run_end_is(t, 3, n + 2, |c: char| is_ident_char(c));
    assert(run_end(t, 3, |c: char| is_ident_char(c)) == n + 2);
    assert(t.subrange(2, n + 2) =~= name);
    assert(var_match_at(t, 0) == Some((name, n + 4)));
    assert(subst_vars_from(t, vars, n + 4) =~= Seq::<char>::empty());
    assert(subst_vars(t, vars) =~= vars[name]);
}

/// Stateless template substitution over a variable store.
pub struct VariableResolver;

impl VariableResolver {
    /// Replace each `{{name}}` whose name the store holds; leave the rest
    /// verbatim.
    pub fn substitute(text: &str, context: &VariableContext) -> (r: String)
        ensures
            r@ == subst_vars(text@, context@),
    {
        let s = str_chars(text);
        let out = Self::subst_pass(&s, context, false);
        chars_string(&out)
    }

    /// Replace each `${NAME}` whose name the given environment map holds;
    /// leave the rest verbatim.
    pub fn resolve_env_vars(text: &str, env: &VariableContext) -> (r: String)
        ensures
            r@ == subst_env(text@, env@),
    {
        let s = str_chars(text);
        let out = Self::subst_pass(&s, env, true);
        chars_string(&out)
    }

    /// Both phases in order: environment references first, then session
    /// variables.
    pub fn resolve(text: &str, env: &VariableContext, context: &VariableContext) -> (r: String)
        ensures
            r@ == resolve_spec(text@, env@, context@),
    {
        let with_env = Self::resolve_env_vars(text, env);
        Self::substitute(with_env.as_str(), context)
    }

    /// One substitution pass; `env_form` selects the `${NAME}` grammar over
    /// the `{{name}}` one.
    fn subst_pass(s: &Vec<char>, m: &VariableContext, env_form: bool) -> (out: Vec<char>)
        ensures
            env_form ==> out@ == subst_env(s@, m@),
            !env_form ==> out@ == subst_vars(s@, m@),
    {
        let n = s.len();
        let mut out: Vec<char> = Vec::new();
        let mut i: usize = 0;
        while i < n
            invariant
                0 <= i <= n == s@.len(),
                env_form ==> subst_env(s@, m@) == out@ + subst_env_from(s@, m@, i as int),
                !env_form ==> subst_vars(s@, m@) == out@ + subst_vars_from(s@, m@, i as int),
            decreases n - i,
        {
            let ghost old_i = i as int;
            let ghost old_out = out@;
            let opener: char = if env_form {
                '$'
            } else {
                '{'
            };
            let mut matched = false;
            if s[i] == opener && n - i > 2 && s[i + 1] == '{' {
                let c2 = s[i + 2];
                let start_ok: bool = if env_form {
                    ('A' <= c2 && c2 <= 'Z') || c2 == '_'
                } else {
                    ('a' <= c2 && c2 <= 'z') || ('A' <= c2 && c2 <= 'Z') || c2 == '_'
                };
                if start_ok {
                    let mut j: usize = i + 3;
                    while j < n && Self::run_char(s[j], env_form)
                        invariant
                            old_i + 3 <= j <= n == s@.len(),
                            env_form ==> forall|k: int| old_i + 3 <= k < j ==> is_env_char(s@[k]),
                            !env_form ==> forall|k: int|
                                old_i + 3 <= k < j ==> is_ident_char(s@[k]),
                        decreases n - j,
                    {
                        j = j + 1;
                    }
                    proof {
                        if env_form {
                            lemma_run_end_is(s@, old_i + 3, j as int, |c: char| is_env_char(c));
                        } else {
                            lemma_run_end_is(s@, old_i + 3, j as int, |c: char| is_ident_char(c));
                        }
                    }
                    let close_ok: bool = if env_form {
                        j < n && s[j] == '}'
                    } else {
                        n - j > 1 && s[j] == '}' && s[j + 1] == '}'
                    };
                    if close_ok {
                        let end: usize = if env_form {
                            j + 1
                        } else {
                            j + 2
                        };
                        let name_chars = crate::text::copy_range(s, i + 2, j);
                        let name = chars_string(&name_chars);
                        proof {
                            if env_form {
                                assert(env_match_at(s@, old_i) == Some(
                                    (s@.subrange(old_i + 2, j as int), end as int),
                                ));
                            } else {
                                assert(var_match_at(s@, old_i) == Some(
                                    (s@.subrange(old_i + 2, j as int), end as int),
                                ));
                            }
                        }
                        match m.get(name.as_str()) {
                            Some(val) => {
                                let vc = str_chars(val);
                                let mut k: usize = 0;
                                let vn = vc.len();
                                proof {
                                    assert(out@ =~= old_out + vc@.subrange(0, 0));
                                }
                                while k < vn
                                    invariant
                                        0 <= k <= vn == vc@.len(),
                                        out@ == old_out + vc@.subrange(0, k as int),
                                    decreases vn - k,
                                {
                                    out.push(vc[k]);
                                    k = k + 1;
                                    proof {
                                        assert(vc@.subrange(0, k as int) =~= vc@.subrange(
                                            0,
                                            k - 1,
                                        ).push(vc@[k - 1]));
                                        assert(out@ =~= old_out + vc@.subrange(0, k as int));
                                    }
                                }
                                proof {
                                    assert(vc@.subrange(0, vn as int) =~= vc@);
                                    assert(out@ == old_out + m@[s@.subrange(old_i + 2, j as int)]);
                                }
                            },
                            None => {
                                let mut k: usize = i;
                                proof {
                                    assert(out@ =~= old_out + s@.subrange(old_i, old_i));
                                }
                                while k < end
                                    invariant
                                        0 <= old_i <= k <= end <= n == s@.len(),
                                        out@ == old_out + s@.subrange(old_i, k as int),
                                    decreases end - k,
                                {
                                    out.push(s[k]);
                                    k = k + 1;
                                    proof {
                                        let a = s@.subrange(old_i, k as int);
                                        let b = s@.subrange(old_i, k - 1).push(s@[k - 1]);
                                        assert forall|t: int| 0 <= t < a.len() implies a[t]
                                            == b[t] by {
                                            assert(a[t] == s@[old_i + t]);
                                            if t < a.len() - 1 {
                                                assert(b[t] == s@.subrange(old_i, k - 1)[t]);
                                            }
                                        }
                                        assert(a =~= b);
                                        assert(out@ =~= old_out + a);
                                    }
                                }
                            },
                        }
                        i = end;
                        matched = true;
                    }
                }
            }
            if !matched {
                proof {
                    if env_form {
                        assert(env_match_at(s@, old_i) is None);
                    } else {
                        assert(var_match_at(s@, old_i) is None);
                    }
                }
                out.push(s[i]);
                i = i + 1;
                proof {
                    assert(out@ =~= old_out + seq![s@[old_i]]);
                }
            }
            proof {
                if env_form {
                    assert(subst_env(s@, m@) == out@ + subst_env_from(s@, m@, i as int)) by {
                        assert(out@ + subst_env_from(s@, m@, i as int) =~= old_out
                            + subst_env_from(s@, m@, old_i));
                    }
                } else {
                    assert(subst_vars(s@, m@) == out@ + subst_vars_from(s@, m@, i as int)) by {
                        assert(out@ + subst_vars_from(s@, m@, i as int) =~= old_out
                            + subst_vars_from(s@, m@, old_i));
                    }
                }
            }
        }
        proof {
            if env_form {
                assert(out@ + subst_env_from(s@, m@, i as int) =~= out@);
            } else {
                assert(out@ + subst_vars_from(s@, m@, i as int) =~= out@);
            }
        }
        out
    }

    /// Executable twin of the name-character predicates.
    fn run_char(c: char, env_form: bool) -> (r: bool)
        ensures
            env_form ==> r == is_env_char(c),
            !env_form ==> r == is_ident_char(c),
    {
        if env_form {
            ('A' <= c && c <= 'Z') || c == '_' || ('0' <= c && c <= '9')
        } else {
            ('a' <= c && c <= 'z') || ('A' <= c && c <= 'Z') || c == '_' || ('0' <= c && c <= '9')
        }
    }
}

} // verus!
