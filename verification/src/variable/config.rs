//! Building a variable context out of configuration data and command-line
//! overrides.

use vstd::prelude::*;

use crate::variable::resolver::subst_env;
use crate::variable::resolver::VariableResolver;
use crate::variable::types::Environment;
use crate::variable::types::VariableConfig;
use crate::variable::types::VariableContext;

verus! {

/// Builds variable contexts; the reading of configuration files stays with
/// the caller, which hands the parsed data in as plain values.
pub struct ConfigLoader;

/// The context that `build_context` owes: every pair of the chosen
/// environment, its value's `${NAME}` references resolved, then every
/// command-line pair on top.
pub open spec fn built_context_spec(
    env_pairs: Seq<(Seq<char>, Seq<char>)>,
    os_env: Map<Seq<char>, Seq<char>>,
    cli_vars: Seq<(Seq<char>, Seq<char>)>,
) -> Map<Seq<char>, Seq<char>> {
    let resolved = env_pairs.map_values(
        |p: (Seq<char>, Seq<char>)| (p.0, subst_env(p.1, os_env)),
    );
    crate::variable::types::extend_spec(
        crate::variable::types::extend_spec(Map::empty(), resolved),
        cli_vars,
    )
}

/// The pairs of the environment that a run selects: those of the first
/// environment of the chosen name, or none.
pub open spec fn chosen_env_pairs(
    config: &VariableConfig,
    env_name: Option<Seq<char>>,
) -> Seq<(String, String)> {
    match env_name {
        Some(nm) => match crate::variable::types::env_find(config.environments@, nm) {
            Some(j) => config.environments@[j].1.variables@,
            None => Seq::empty(),
        },
        None => Seq::empty(),
    }
}

impl ConfigLoader {
    /// Build the variable context for one run: the chosen environment's
    /// pairs with `${NAME}` references resolved against `os_env`, then the
    /// command-line overrides, which win.
    pub fn build_context(
        config: &VariableConfig,
        env_name: Option<&str>,
        cli_vars: &Vec<(String, String)>,
        os_env: &VariableContext,
    ) -> (r: VariableContext)
        ensures
            r@ == built_context_spec(
                chosen_env_pairs(
                    config,
                    match env_name {
                        Some(nm) => Some(nm@),
                        None => None,
                    },
                ).map_values(|p: (String, String)| (p.0@, p.1@)),
                os_env@,
                crate::variable::types::pairs_view(cli_vars@),
            ),
    {
        let ghost name_view: Option<Seq<char>> = match env_name {
            Some(nm) => Some(nm@),
            None => None,
        };
        let ghost raw = chosen_env_pairs(config, name_view);
        let mut context = VariableContext::new();
        let mut loaded = false;
        if let Some(name) = env_name {
            if let Some(env) = config.get_environment(name) {
                Self::load_environment(&mut context, env, os_env);
                loaded = true;
                proof {
                    assert(raw == env.variables@);
                }
            }
        }
        proof {
            if !loaded {
                assert(raw =~= Seq::<(String, String)>::empty());
                assert(raw.map_values(|p: (String, String)| (p.0@, subst_env(p.1@, os_env@)))
                    =~= Seq::<(Seq<char>, Seq<char>)>::empty());
                assert(context@ =~= Map::<Seq<char>, Seq<char>>::empty());
            }
            let rv = raw.map_values(|p: (String, String)| (p.0@, p.1@));
            let direct = raw.map_values(
                |p: (String, String)| (p.0@, subst_env(p.1@, os_env@)),
            );
            let via = rv.map_values(
                |p: (Seq<char>, Seq<char>)| (p.0, subst_env(p.1, os_env@)),
            );
            assert(direct =~= via);
        }
        context.extend(cli_vars);
        context
    }

    /// Insert every pair of one environment, values resolved against the
    /// OS environment map.
    fn load_environment(context: &mut VariableContext, env: &Environment, os_env: &VariableContext)
        ensures
            final(context)@ == crate::variable::types::extend_spec(
                old(context)@,
                env.variables@.map_values(
                    |p: (String, String)| (p.0@, subst_env(p.1@, os_env@)),
                ),
            ),
    {
        let n = env.variables.len();
        let ghost pv = env.variables@.map_values(
            |p: (String, String)| (p.0@, subst_env(p.1@, os_env@)),
        );
        proof {
            assert(pv.skip(0) =~= pv);
        }
        let mut i: usize = 0;
        while i < n
            invariant
                0 <= i <= n == env.variables@.len(),
                pv == env.variables@.map_values(
                    |p: (String, String)| (p.0@, subst_env(p.1@, os_env@)),
                ),
                crate::variable::types::extend_spec(context@, pv.skip(i as int))
                    == crate::variable::types::extend_spec(old(context)@, pv),
            decreases n - i,
        {
            let ghost pre = context@;
            let resolved = VariableResolver::resolve_env_vars(
                env.variables[i].1.as_str(),
                os_env,
            );
            context.insert(env.variables[i].0.as_str(), resolved.as_str());
            i = i + 1;
            proof {
                assert(pv.skip(i - 1)[0] == pv[i - 1]);
                assert(pv.skip(i - 1).drop_first() =~= pv.skip(i as int));
                assert(crate::variable::types::extend_spec(pre, pv.skip(i - 1))
                    == crate::variable::types::extend_spec(
                    pre.insert(pv[i - 1].0, pv[i - 1].1),
                    pv.skip(i as int),
                ));
            }
        }
        proof {
            assert(pv.skip(n as int) =~= Seq::<(Seq<char>, Seq<char>)>::empty());
        }
    }

    /// Split a `key=value` argument at its first `=`; both sides trimmed.
    pub fn parse_cli_var(s: &str) -> (r: Option<(String, String)>)
        ensures
            match r {
                Some(p) => {
                    &&& crate::text::find_char_from(s@, '=', 0) matches Some(j) && p.0@
                        == crate::text::trim_spec(s@.subrange(0, j)) && p.1@
                        == crate::text::trim_spec(s@.skip(j + 1))
                },
                None => crate::text::find_char_from(s@, '=', 0) is None,
            },
    {
        let v = crate::text::str_chars(s);
        let n = v.len();
        match crate::text::find_char_at(&v, '=', 0) {
            Some(j) => {
                let key = crate::text::trim_chars(&crate::text::copy_range(&v, 0, j));
                let val = crate::text::trim_chars(&crate::text::copy_range(&v, j + 1, n));
                proof {
                    assert(v@.subrange(j + 1, v@.len() as int) =~= s@.skip(j + 1));
                }
                Some((crate::text::chars_string(&key), crate::text::chars_string(&val)))
            },
            None => None,
        }
    }
}

} // verus!
