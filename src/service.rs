use vstd::prelude::*;

use crate::domain::{is_blank, key_is_blank, DomainError, Environment, FeatureFlag, FlagModel};
use crate::repository::{
    first_match, holds_flag, identifies, identities_unique, in_environment,
    lemma_first_match_exists, models, upserted, FlagRepository,
};

verus! {

/// The invariant of a store: every key is non-blank and no two flags share
/// an environment and a key.
pub open spec fn store_valid(s: Seq<FlagModel>) -> bool {
    &&& identities_unique(s)
    &&& forall|i: int| 0 <= i < s.len() ==> !is_blank(#[trigger] s[i].key)
}

/// The store `s` after the flag (`environment`, `key`) is set to `enabled`.
pub open spec fn with_flag_set(s: Seq<FlagModel>, key: Seq<char>, enabled: bool, environment: Environment) -> Seq<FlagModel> {
    upserted(s, FlagModel { key, enabled, environment })
}

/// Sets the flag (`environment`, `key`) to `enabled` in `repo`, creating it where it
/// does not exist. A blank key is refused and leaves `repo` as it was.
pub fn set_flag_in<R: FlagRepository>(repo: &mut R, key: String, enabled: bool, environment: Environment) -> (r: Result<FeatureFlag, DomainError>)
    ensures
        is_blank(key@) ==> (r matches Err(DomainError::EmptyKey) && final(repo).stored() == old(repo).stored()),
        !is_blank(key@) ==> (r matches Ok(f) && f@ == (FlagModel { key: key@, enabled, environment })
            && final(repo).stored() == with_flag_set(old(repo).stored(), key@, enabled, environment)),
{
    if key_is_blank(key.as_str()) {
        return Err(DomainError::EmptyKey);
    }
    match repo.get(&environment, key.as_str()) {
        Some(mut existing) => {
            proof {
                lemma_first_match_exists(repo.stored(), environment, key@);
            }
            existing.enabled = enabled;
            Ok(repo.upsert(existing))
        },
        None => Ok(repo.upsert(FeatureFlag::new(key, enabled, environment))),
    }
}

/// Setting a flag with a non-blank key keeps a store valid.
pub proof fn lemma_set_keeps_valid(s: Seq<FlagModel>, key: Seq<char>, enabled: bool, environment: Environment)
    requires
        store_valid(s),
        !is_blank(key),
    ensures
        store_valid(with_flag_set(s, key, enabled, environment)),
{
    let t = with_flag_set(s, key, enabled, environment);
    if holds_flag(s, environment, key) {
        lemma_first_match_exists(s, environment, key);
        let p = first_match(s, environment, key);
        assert forall|i: int, j: int|
            0 <= i < t.len() && 0 <= j < t.len() && i != j && #[trigger] t[i].environment
                == #[trigger] t[j].environment implies t[i].key != t[j].key by {
            if i != p && j != p {
                assert(s[i].environment == s[j].environment);
            } else if i == p {
                assert(s[p].environment == s[j].environment);
            } else {
                assert(s[i].environment == s[p].environment);
            }
        }
    } else {
        assert forall|i: int, j: int|
            0 <= i < t.len() && 0 <= j < t.len() && i != j && #[trigger] t[i].environment
                == #[trigger] t[j].environment implies t[i].key != t[j].key by {
            if i == s.len() {
                assert(!identifies(s[j], environment, key));
            } else if j == s.len() {
                assert(!identifies(s[i], environment, key));
            } else {
                assert(s[i].environment == s[j].environment);
            }
        }
    }
}

/// A feature-flag service over a repository `R`. It owns the repository and
/// keeps it to `store_valid`; callers that share it between threads hold it
/// behind one lock, so that each set spans its lookup and its write.
pub struct FlagService<R: FlagRepository> {
    repository: R,
}

impl<R: FlagRepository> FlagService<R> {
    /// The flags the service holds.
    pub closed spec fn stored(&self) -> Seq<FlagModel> {
        self.repository.stored()
    }

    /// The service's invariant: its flags form a valid store.
    pub open spec fn well_formed(&self) -> bool {
        store_valid(self.stored())
    }

    /// A service over `repository`, whose flags it starts with.
    pub fn new(repository: R) -> (r: FlagService<R>)
        requires
            store_valid(repository.stored()),
        ensures
            r.stored() == repository.stored(),
            r.well_formed(),
    {
        FlagService { repository }
    }

    /// Creates or updates the flag (`environment`, `key`); a blank key is refused
    /// and leaves the flags as they were.
    pub fn set_flag(&mut self, key: String, enabled: bool, environment: Environment) -> (r: Result<FeatureFlag, DomainError>)
        requires
            old(self).well_formed(),
        ensures
            final(self).well_formed(),
            is_blank(key@) ==> (r matches Err(DomainError::EmptyKey) && final(self).stored() == old(self).stored()),
            !is_blank(key@) ==> (r matches Ok(f) && f@ == (FlagModel { key: key@, enabled, environment })
                && final(self).stored() == with_flag_set(old(self).stored(), key@, enabled, environment)),
    {
        proof {
            if !is_blank(key@) {
                lemma_set_keeps_valid(self.stored(), key@, enabled, environment);
            }
        }
        set_flag_in(&mut self.repository, key, enabled, environment)
    }

    /// The flags of `env`, in stored order: at most one for each key, none with a blank key.
    pub fn get_flags(&self, env: Environment) -> (r: Vec<FeatureFlag>)
        requires
            self.well_formed(),
        ensures
            models(r@) == in_environment(self.stored(), env),
            store_valid(models(r@)),
    {
        proof {
            lemma_listing_valid(self.stored(), env);
        }
        self.repository.list_by_environment(env)
    }
}

/// The listing of one environment of a valid store is valid, and holds flags of
/// that environment only.
pub proof fn lemma_listing_valid(s: Seq<FlagModel>, environment: Environment)
    requires
        store_valid(s),
    ensures
        store_valid(in_environment(s, environment)),
        forall|i: int| 0 <= i < in_environment(s, environment).len()
            ==> (#[trigger] in_environment(s, environment)[i]).environment == environment,
    decreases s.len(),
{
    broadcast use vstd::seq_lib::group_filter_ensures;

    let pred = |f: FlagModel| f.environment == environment;
    let l = in_environment(s, environment);
    if s.len() > 0 {
        let p = s.drop_last();
        let x = s.last();
        assert(s =~= p.push(x));
        assert(store_valid(p)) by {
            assert forall|i: int, j: int|
                0 <= i < p.len() && 0 <= j < p.len() && i != j && #[trigger] p[i].environment
                    == #[trigger] p[j].environment implies p[i].key != p[j].key by {
                assert(s[i].environment == s[j].environment);
            }
            assert forall|i: int| 0 <= i < p.len() implies !is_blank(#[trigger] p[i].key) by {
                assert(p[i] == s[i]);
            }
        }
        lemma_listing_valid(p, environment);
        let lp = in_environment(p, environment);
        p.lemma_filter_push(x, pred);
        if x.environment == environment {
            assert(l =~= lp.push(x));
            assert forall|i: int, j: int|
                0 <= i < l.len() && 0 <= j < l.len() && i != j && #[trigger] l[i].environment
                    == #[trigger] l[j].environment implies l[i].key != l[j].key by {
                if i == lp.len() || j == lp.len() {
                    let k = if i == lp.len() { j } else { i };
                    assert(lp.contains(lp[k]));
                    p.lemma_filter_contains_rev(pred, lp[k]);
                    let b = choose|b: int| 0 <= b < p.len() && p[b] == lp[k];
                    assert(s[b] == lp[k]);
                    assert(s[s.len() - 1] == x);
                } else {
                    assert(l[i] == lp[i] && l[j] == lp[j]);
                }
            }
            assert forall|i: int| 0 <= i < l.len() implies !is_blank(#[trigger] l[i].key) by {
                if i < lp.len() {
                    assert(l[i] == lp[i]);
                } else {
                    assert(s[s.len() - 1] == x);
                }
            }
        } else {
            assert(l =~= lp);
        }
    } else {
        assert(l =~= Seq::<FlagModel>::empty());
    }
}

} // verus!
