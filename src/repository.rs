use vstd::prelude::*;
use vstd::string::StringExecFns;

use crate::domain::{Environment, FeatureFlag, FlagModel};

verus! {

/// Whether `f` is the flag identified by (`environment`, `key`).
pub open spec fn identifies(f: FlagModel, environment: Environment, key: Seq<char>) -> bool {
    f.environment == environment && f.key == key
}

/// Whether `i` is the position of the first flag of `s` identified by (`environment`, `key`).
pub open spec fn is_first_match(s: Seq<FlagModel>, environment: Environment, key: Seq<char>, i: int) -> bool {
    &&& 0 <= i < s.len()
    &&& identifies(s[i], environment, key)
    &&& forall|j: int| 0 <= j < i ==> !identifies(#[trigger] s[j], environment, key)
}

/// Whether some flag of `s` is identified by (`environment`, `key`).
pub open spec fn holds_flag(s: Seq<FlagModel>, environment: Environment, key: Seq<char>) -> bool {
    exists|i: int| 0 <= i < s.len() && identifies(#[trigger] s[i], environment, key)
}

/// The position of the first flag of `s` identified by (`environment`, `key`), where there is one.
pub open spec fn first_match(s: Seq<FlagModel>, environment: Environment, key: Seq<char>) -> int {
    choose|i: int| is_first_match(s, environment, key, i)
}

/// The store `s` after an upsert of `f`: the flag with `f`'s identity is replaced
/// by `f`, or `f` is appended where there is none.
pub open spec fn upserted(s: Seq<FlagModel>, f: FlagModel) -> Seq<FlagModel> {
    if holds_flag(s, f.environment, f.key) {
        s.update(first_match(s, f.environment, f.key), f)
    } else {
        s.push(f)
    }
}

/// The flags of `s` in `environment`, in stored order.
pub open spec fn in_environment(s: Seq<FlagModel>, environment: Environment) -> Seq<FlagModel> {
    s.filter(|f: FlagModel| f.environment == environment)
}

/// The models of a sequence of flags.
pub open spec fn models(flags: Seq<FeatureFlag>) -> Seq<FlagModel> {
    flags.map_values(|f: FeatureFlag| f@)
}

/// No two flags of `s` share an environment and a key.
pub open spec fn identities_unique(s: Seq<FlagModel>) -> bool {
    forall|i: int, j: int|
        0 <= i < s.len() && 0 <= j < s.len() && i != j && #[trigger] s[i].environment
            == #[trigger] s[j].environment ==> s[i].key != s[j].key
}

/// If some flag matches, a first one does.
pub proof fn lemma_first_match_exists(s: Seq<FlagModel>, environment: Environment, key: Seq<char>)
    requires
        holds_flag(s, environment, key),
    ensures
        is_first_match(s, environment, key, first_match(s, environment, key)),
    decreases s.len(),
{
    let k = choose|k: int| 0 <= k < s.len() && identifies(#[trigger] s[k], environment, key);
    if exists|j: int| 0 <= j < k && identifies(#[trigger] s[j], environment, key) {
        let p = s.subrange(0, k);
        assert(holds_flag(p, environment, key)) by {
            let j = choose|j: int| 0 <= j < k && identifies(#[trigger] s[j], environment, key);
            assert(p[j] == s[j]);
        }
        lemma_first_match_exists(p, environment, key);
        let i = first_match(p, environment, key);
        assert forall|j: int| 0 <= j < i implies !identifies(#[trigger] s[j], environment, key) by {
            assert(p[j] == s[j]);
        }
        assert(is_first_match(s, environment, key, i));
    } else {
        assert(is_first_match(s, environment, key, k));
    }
}

/// Storage of flags, keyed by environment and key.
pub trait FlagRepository: Sized {
    /// The stored flags, in the order the implementation keeps them.
    spec fn stored(&self) -> Seq<FlagModel>;

    /// Replaces the flag with `flag`'s environment and key by `flag`, or adds `flag`
    /// where there is none; returns `flag`.
    fn upsert(&mut self, flag: FeatureFlag) -> (r: FeatureFlag)
        ensures
            r@ == flag@,
            final(self).stored() == upserted(old(self).stored(), flag@),
    ;

    /// The flags stored for `env`, as a fresh copy.
    fn list_by_environment(&self, env: Environment) -> (r: Vec<FeatureFlag>)
        ensures
            models(r@) == in_environment(self.stored(), env),
    ;

    /// The flag stored for (`env`, `key`), if any.
    fn get(&self, env: &Environment, key: &str) -> (r: Option<FeatureFlag>)
        ensures
            r is Some <==> holds_flag(self.stored(), *env, key@),
            r matches Some(f) ==> f@ == self.stored()[first_match(self.stored(), *env, key@)],
    ;
}

/// Flags held in memory, in order of first insertion.
#[derive(Default)]
pub struct InMemoryFlagRepository {
    flags: Vec<FeatureFlag>,
}

impl InMemoryFlagRepository {
    pub fn new() -> (r: InMemoryFlagRepository)
        ensures
            r.stored() == Seq::<FlagModel>::empty(),
    {
        let r = InMemoryFlagRepository { flags: Vec::new() };
        assert(models(r.flags@) =~= Seq::<FlagModel>::empty());
        r
    }

    /// The position of the first stored flag identified by (`env`, `key`), if any.
    fn position(&self, env: Environment, key: &str) -> (r: Option<usize>)
        ensures
            r is Some <==> holds_flag(self.stored(), env, key@),
            r matches Some(i) ==> i == first_match(self.stored(), env, key@) && i < self.flags@.len(),
    {
        let ghost s = self.stored();
        let wanted = String::from_str(key);
        let mut i: usize = 0;
        while i < self.flags.len()
            invariant
                s == self.stored(),
                wanted@ == key@,
                s.len() == self.flags@.len(),
                i <= s.len(),
                forall|j: int| 0 <= j < i ==> !identifies(#[trigger] s[j], env, key@),
            decreases self.flags.len() - i,
        {
            let f = &self.flags[i];
            assert(s[i as int] == f@);
            if f.environment == env && f.key == wanted {
                proof {
                    assert(identifies(s[i as int], env, key@));
                    lemma_first_match_exists(s, env, key@);
                    let k = first_match(s, env, key@);
                    assert(is_first_match(s, env, key@, i as int));
                    assert(k == i) by {
                        if k < i {
                            assert(!identifies(s[k], env, key@));
                        } else if k > i {
                            assert(!identifies(s[i as int], env, key@));
                        }
                    }
                }
                return Some(i);
            }
            i = i + 1;
        }
        None
    }
}

impl FlagRepository for InMemoryFlagRepository {
    closed spec fn stored(&self) -> Seq<FlagModel> {
        models(self.flags@)
    }

    fn upsert(&mut self, flag: FeatureFlag) -> (r: FeatureFlag) {
        match self.position(flag.environment, flag.key.as_str()) {
            Some(i) => {
                self.flags.set(i, flag.duplicate());
                assert(self.stored() =~= upserted(old(self).stored(), flag@));
            },
            None => {
                self.flags.push(flag.duplicate());
                assert(self.stored() =~= upserted(old(self).stored(), flag@));
            },
        }
        flag
    }

    fn list_by_environment(&self, env: Environment) -> (r: Vec<FeatureFlag>) {
        let mut r: Vec<FeatureFlag> = Vec::new();
        let mut i: usize = 0;
        while i < self.flags.len()
            invariant
                i <= self.flags@.len(),
                models(r@) == in_environment(models(self.flags@.subrange(0, i as int)), env),
            decreases self.flags.len() - i,
        {
            if self.flags[i].environment == env {
                r.push(self.flags[i].duplicate());
            }
            proof {
                let p = models(self.flags@.subrange(0, i as int));
                let q = models(self.flags@.subrange(0, i + 1));
                assert(q =~= p.push(self.flags@[i as int]@));
                p.lemma_filter_push(self.flags@[i as int]@, |f: FlagModel| f.environment == env);
                assert(models(r@) =~= in_environment(q, env));
            }
            i = i + 1;
        }
        assert(self.flags@.subrange(0, i as int) =~= self.flags@);
        r
    }

    fn get(&self, env: &Environment, key: &str) -> (r: Option<FeatureFlag>) {
        match self.position(*env, key) {
            Some(i) => Some(self.flags[i].duplicate()),
            None => None,
        }
    }
}

} // verus!
