//! The session variable store: a case-sensitive name-to-value map, mutated
//! only by inserts, never by deletes.

use vstd::prelude::*;

use vstd::hash_map::StringHashMap;

verus! {

/// The variable store threaded through one run.
pub struct VariableContext {
    inner: StringHashMap<String>,
}

impl View for VariableContext {
    type V = Map<Seq<char>, Seq<char>>;

    closed spec fn view(&self) -> Map<Seq<char>, Seq<char>> {
        Map::new(
            |k: Seq<char>| self.inner@.contains_key(k),
            |k: Seq<char>| self.inner@[k]@,
        )
    }
}

/// The map after inserting each pair in order; later pairs overwrite earlier
/// ones of the same name.
pub open spec fn extend_spec(
    m: Map<Seq<char>, Seq<char>>,
    pairs: Seq<(Seq<char>, Seq<char>)>,
) -> Map<Seq<char>, Seq<char>>
    decreases pairs.len(),
{
    if pairs.len() == 0 {
        m
    } else {
        extend_spec(m.insert(pairs[0].0, pairs[0].1), pairs.drop_first())
    }
}

/// The view of a vector of owned string pairs.
pub open spec fn pairs_view(pairs: Seq<(String, String)>) -> Seq<(Seq<char>, Seq<char>)> {
    pairs.map_values(|p: (String, String)| (p.0@, p.1@))
}

impl VariableContext {
    /// An empty store, with a finite domain.
    pub fn new() -> (r: Self)
        ensures
            r@ == Map::<Seq<char>, Seq<char>>::empty(),
            r@.dom().finite(),
    {
        let r = VariableContext { inner: StringHashMap::new() };
        proof {
            assert(r@ =~= Map::<Seq<char>, Seq<char>>::empty());
            assert(r@.dom() =~= Set::<Seq<char>>::empty());
            broadcast use vstd::set::axiom_set_empty_finite;
        }
        r
    }

    /// Insert a variable, overwriting any previous value of the same name.
    /// Over a finite store the domain stays finite and grows by one exactly
    /// when the name was absent.
    pub fn insert(&mut self, key: &str, value: &str)
        ensures
            final(self)@ == old(self)@.insert(key@, value@),
            final(self)@.dom() == old(self)@.dom().insert(key@),
            old(self)@.dom().finite() ==> final(self)@.dom().finite() && final(self)@.dom().len()
                == old(self)@.dom().len() + (if old(self)@.contains_key(key@) {
                0int
            } else {
                1int
            }),
    {
        self.inner.insert(key.to_owned(), value.to_owned());
        proof {
            assert(self@ =~= old(self)@.insert(key@, value@));
            assert(self@.dom() =~= old(self)@.dom().insert(key@));
            if old(self)@.dom().finite() {
                vstd::set::axiom_set_insert_finite(old(self)@.dom(), key@);
                vstd::set::axiom_set_insert_len(old(self)@.dom(), key@);
            }
        }
    }

    /// Alias of `insert`.
    pub fn set(&mut self, key: &str, value: &str)
        ensures
            final(self)@ == old(self)@.insert(key@, value@),
            final(self)@.dom() == old(self)@.dom().insert(key@),
            old(self)@.dom().finite() ==> final(self)@.dom().finite() && final(self)@.dom().len()
                == old(self)@.dom().len() + (if old(self)@.contains_key(key@) {
                0int
            } else {
                1int
            }),
    {
        self.insert(key, value);
    }

    /// Look a variable up.
    pub fn get<'a>(&'a self, key: &str) -> (r: Option<&'a str>)
        ensures
            match r {
                Some(v) => self@.contains_key(key@) && v@ == self@[key@],
                None => !self@.contains_key(key@),
            },
    {
        match self.inner.get(key) {
            Some(v) => Some(v.as_str()),
            None => None,
        }
    }

    /// Insert every pair, in order; later pairs win. A finite store stays
    /// finite.
    pub fn extend(&mut self, vars: &Vec<(String, String)>)
        ensures
            final(self)@ == extend_spec(old(self)@, pairs_view(vars@)),
            old(self)@.dom().finite() ==> final(self)@.dom().finite(),
    {
        let n = vars.len();
        proof {
            assert(pairs_view(vars@).skip(0) =~= pairs_view(vars@));
        }
        let mut i: usize = 0;
        while i < n
            invariant
                0 <= i <= n == vars@.len(),
                extend_spec(self@, pairs_view(vars@).skip(i as int)) == extend_spec(
                    old(self)@,
                    pairs_view(vars@),
                ),
                old(self)@.dom().finite() ==> self@.dom().finite(),
            decreases n - i,
        {
            let ghost pre = self@;
            self.insert(vars[i].0.as_str(), vars[i].1.as_str());
            i = i + 1;
            proof {
                let pv = pairs_view(vars@);
                assert(pv.skip(i - 1)[0] == pv[i - 1]);
                assert(pv.skip(i - 1).drop_first() =~= pv.skip(i as int));
                assert(extend_spec(pre, pv.skip(i - 1)) == extend_spec(
                    pre.insert(pv[i - 1].0, pv[i - 1].1),
                    pv.skip(i as int),
                ));
            }
        }
        proof {
            assert(pairs_view(vars@).skip(n as int) =~= Seq::<(Seq<char>, Seq<char>)>::empty());
        }
    }

    /// How many variables the store holds.
    pub fn len(&self) -> (r: usize)
        ensures
            r == self@.dom().len(),
    {
        let r = self.inner.len();
        proof {
            vstd::hash_map::axiom_string_hash_map_spec_len(&self.inner);
            assert(self@.dom() =~= self.inner@.dom());
        }
        r
    }

    /// True when the store holds no variable.
    pub fn is_empty(&self) -> (r: bool)
        ensures
            r == self@.dom().is_empty(),
    {
        let r = self.inner.is_empty();
        proof {
            assert(self@.dom() =~= self.inner@.dom());
        }
        r
    }
}

/// One named environment of a configuration file: its variable pairs, in
/// file order.
pub struct Environment {
    pub variables: Vec<(String, String)>,
}

/// A configuration file: named environments, each with its variables.
pub struct VariableConfig {
    pub environments: Vec<(String, Environment)>,
}

/// Least index whose environment name equals `name`, if any.
pub open spec fn env_find(envs: Seq<(String, Environment)>, name: Seq<char>) -> Option<int>
    decreases envs.len(),
{
    if envs.len() == 0 {
        None
    } else if envs[0].0@ == name {
        Some(0)
    } else {
        match env_find(envs.drop_first(), name) {
            Some(j) => Some(j + 1),
            None => None,
        }
    }
}

pub proof fn lemma_env_find(envs: Seq<(String, Environment)>, name: Seq<char>)
    ensures
        match env_find(envs, name) {
            Some(j) => 0 <= j < envs.len() && envs[j].0@ == name && forall|k: int|
                0 <= k < j ==> envs[k].0@ != name,
            None => forall|k: int| 0 <= k < envs.len() ==> envs[k].0@ != name,
        },
    decreases envs.len(),
{
    if envs.len() > 0 && envs[0].0@ != name {
        lemma_env_find(envs.drop_first(), name);
        assert forall|k: int| 1 <= k < envs.len() implies #[trigger] envs[k]
            == envs.drop_first()[k - 1] by {
            assert(envs.drop_first()[k - 1] == envs[k]);
        }
    }
}

impl VariableConfig {
    /// The environment at the least index of the given name, if any.
    pub fn get_environment<'a>(&'a self, env_name: &str) -> (r: Option<&'a Environment>)
        ensures
            match r {
                Some(e) => env_find(self.environments@, env_name@) matches Some(j) && *e
                    == self.environments@[j].1,
                None => env_find(self.environments@, env_name@) is None,
            },
    {
        let n = self.environments.len();
        let mut i: usize = 0;
        while i < n
            invariant
                0 <= i <= n == self.environments@.len(),
                forall|k: int| 0 <= k < i ==> self.environments@[k].0@ != env_name@,
            decreases n - i,
        {
            let nv = crate::text::str_chars(self.environments[i].0.as_str());
            if crate::text::eq_str(&nv, env_name) {
                proof {
                    assert(self.environments@[i as int].0@ == env_name@);
                    lemma_env_find(self.environments@, env_name@);
                }
                return Some(&self.environments[i].1);
            }
            i = i + 1;
        }
        proof {
            lemma_env_find(self.environments@, env_name@);
        }
        None
    }
}

} // verus!
