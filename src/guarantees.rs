use vstd::prelude::*;

use crate::domain::{is_blank, Environment, FlagModel};
use crate::repository::{first_match, holds_flag, in_environment, lemma_first_match_exists};
use crate::service::{lemma_listing_valid, lemma_set_keeps_valid, store_valid, with_flag_set};

verus! {

/// Whether position `i` holds the only flag of `l` with key `key`.
pub open spec fn key_only_at(l: Seq<FlagModel>, key: Seq<char>, i: int) -> bool {
    forall|j: int| 0 <= j < l.len() && (#[trigger] l[j]).key == key ==> j == i
}

/// Whether the listing `l` holds exactly one flag with key `key`, and that flag
/// is in state `enabled`.
pub open spec fn lists_once(l: Seq<FlagModel>, key: Seq<char>, enabled: bool) -> bool {
    exists|i: int| 0 <= i < l.len() && l[i].key == key && l[i].enabled == enabled && #[trigger] key_only_at(l, key, i)
}

/// After a flag with a non-blank key is set, the flag is in the store.
proof fn lemma_set_flag_stored(s: Seq<FlagModel>, key: Seq<char>, enabled: bool, environment: Environment)
    requires
        store_valid(s),
        !is_blank(key),
    ensures
        with_flag_set(s, key, enabled, environment).contains(FlagModel { key, enabled, environment }),
{
    let m = FlagModel { key, enabled, environment };
    let t = with_flag_set(s, key, enabled, environment);
    if holds_flag(s, environment, key) {
        lemma_first_match_exists(s, environment, key);
        assert(t[first_match(s, environment, key)] == m);
    } else {
        assert(t[s.len() as int] == m);
    }
}

/// A valid store that holds `m` lists it once under its key, in its state.
proof fn lemma_valid_store_lists_once(t: Seq<FlagModel>, m: FlagModel)
    requires
        store_valid(t),
        t.contains(m),
    ensures
        lists_once(in_environment(t, m.environment), m.key, m.enabled),
{
    let l = in_environment(t, m.environment);
    let q = choose|q: int| 0 <= q < t.len() && t[q] == m;
    t.lemma_filter_contains(|f: FlagModel| f.environment == m.environment, q);
    assert(l.contains(m));
    let i = choose|i: int| 0 <= i < l.len() && l[i] == m;
    lemma_listing_valid(t, m.environment);
    assert forall|j: int| 0 <= j < l.len() && (#[trigger] l[j]).key == m.key implies j == i by {
        if j != i {
            assert(l[j].environment == m.environment);
            assert(l[i].environment == l[j].environment);
            assert(l[i].key != l[j].key);
        }
    }
    assert(key_only_at(l, m.key, i));
}

/// Setting a flag with a non-blank key, then listing its environment, shows
/// exactly one flag with that key, in the state that was set.
pub proof fn lemma_set_then_list(s: Seq<FlagModel>, key: Seq<char>, enabled: bool, environment: Environment)
    requires
        store_valid(s),
        !is_blank(key),
    ensures
        lists_once(in_environment(with_flag_set(s, key, enabled, environment), environment), key, enabled),
{
    lemma_set_keeps_valid(s, key, enabled, environment);
    lemma_set_flag_stored(s, key, enabled, environment);
    lemma_valid_store_lists_once(with_flag_set(s, key, enabled, environment), FlagModel { key, enabled, environment });
}

/// Setting a flag twice with the same arguments leaves the store as setting it once.
pub proof fn lemma_set_flag_idempotent(s: Seq<FlagModel>, key: Seq<char>, enabled: bool, environment: Environment)
    requires
        store_valid(s),
        !is_blank(key),
    ensures
        with_flag_set(with_flag_set(s, key, enabled, environment), key, enabled, environment)
            == with_flag_set(s, key, enabled, environment),
{
    let m = FlagModel { key, enabled, environment };
    let t = with_flag_set(s, key, enabled, environment);
    lemma_set_keeps_valid(s, key, enabled, environment);
    lemma_set_flag_stored(s, key, enabled, environment);
    let q = choose|q: int| 0 <= q < t.len() && t[q] == m;
    assert(holds_flag(t, environment, key));
    lemma_first_match_exists(t, environment, key);
    let p = first_match(t, environment, key);
    if p != q {
        assert(t[p].environment == t[q].environment);
    }
    assert(with_flag_set(t, key, enabled, environment) =~= t);
}

/// When a flag is set and then set again to another state, its environment
/// lists exactly one flag with that key, in the later state.
pub proof fn lemma_last_write_wins(
    s: Seq<FlagModel>,
    key: Seq<char>,
    first: bool,
    second: bool,
    environment: Environment,
)
    requires
        store_valid(s),
        !is_blank(key),
    ensures
        lists_once(
            in_environment(with_flag_set(with_flag_set(s, key, first, environment), key, second, environment), environment),
            key,
            second,
        ),
{
    lemma_set_keeps_valid(s, key, first, environment);
    lemma_set_then_list(with_flag_set(s, key, first, environment), key, second, environment);
}

/// Setting a flag in one environment leaves the listing of every other environment as it was.
pub proof fn lemma_environments_isolated(
    s: Seq<FlagModel>,
    key: Seq<char>,
    enabled: bool,
    environment: Environment,
    other: Environment,
)
    requires
        environment != other,
    ensures
        in_environment(with_flag_set(s, key, enabled, environment), other) == in_environment(s, other),
{
    broadcast use vstd::seq_lib::group_filter_ensures;

    let pred = |f: FlagModel| f.environment == other;
    let m = FlagModel { key, enabled, environment };
    let t = with_flag_set(s, key, enabled, environment);
    if holds_flag(s, environment, key) {
        lemma_first_match_exists(s, environment, key);
        let p = first_match(s, environment, key);
        let a = s.subrange(0, p);
        let c = s.subrange(p + 1, s.len() as int);
        let e = Seq::<FlagModel>::empty();
        assert(s =~= a + e.push(s[p]) + c);
        assert(t =~= a + e.push(m) + c);
        assert(e.filter(pred) =~= e);
        e.lemma_filter_push(s[p], pred);
        e.lemma_filter_push(m, pred);
        Seq::<FlagModel>::filter_distributes_over_add(a + e.push(s[p]), c, pred);
        Seq::<FlagModel>::filter_distributes_over_add(a, e.push(s[p]), pred);
        Seq::<FlagModel>::filter_distributes_over_add(a + e.push(m), c, pred);
        Seq::<FlagModel>::filter_distributes_over_add(a, e.push(m), pred);
        assert(e.push(s[p]).filter(pred) =~= e.filter(pred));
        assert(in_environment(t, other) =~= in_environment(s, other));
    } else {
        s.lemma_filter_push(m, pred);
    }
}

/// An empty store lists no flag in any environment.
pub proof fn lemma_empty_store_lists_nothing(environment: Environment)
    ensures
        in_environment(Seq::<FlagModel>::empty(), environment) == Seq::<FlagModel>::empty(),
{
    broadcast use vstd::seq_lib::group_filter_ensures;

    assert(in_environment(Seq::<FlagModel>::empty(), environment) =~= Seq::<FlagModel>::empty());
}

/// Setting a flag whose key its environment does not hold yet appends it to
/// that environment's listing.
pub proof fn lemma_new_flag_appended(s: Seq<FlagModel>, key: Seq<char>, enabled: bool, environment: Environment)
    requires
        !holds_flag(s, environment, key),
    ensures
        in_environment(with_flag_set(s, key, enabled, environment), environment)
            == in_environment(s, environment).push(FlagModel { key, enabled, environment }),
{
    s.lemma_filter_push(FlagModel { key, enabled, environment }, |f: FlagModel| f.environment == environment);
}

/// Setting a flag whose key its environment already holds replaces that flag
/// in place in the environment's listing: same position, same length.
pub proof fn lemma_existing_flag_replaced(s: Seq<FlagModel>, key: Seq<char>, enabled: bool, environment: Environment)
    requires
        holds_flag(s, environment, key),
    ensures
        exists|i: int|
            0 <= i < in_environment(s, environment).len() && (#[trigger] in_environment(s, environment)[i]).key == key
                && in_environment(with_flag_set(s, key, enabled, environment), environment)
                == in_environment(s, environment).update(i, FlagModel { key, enabled, environment }),
{
    broadcast use vstd::seq_lib::group_filter_ensures;

    let pred = |f: FlagModel| f.environment == environment;
    let m = FlagModel { key, enabled, environment };
    let t = with_flag_set(s, key, enabled, environment);
    lemma_first_match_exists(s, environment, key);
    let p = first_match(s, environment, key);
    let a = s.subrange(0, p);
    let c = s.subrange(p + 1, s.len() as int);
    let e = Seq::<FlagModel>::empty();
    assert(s =~= a + e.push(s[p]) + c);
    assert(t =~= a + e.push(m) + c);
    assert(e.filter(pred) =~= e);
    e.lemma_filter_push(s[p], pred);
    e.lemma_filter_push(m, pred);
    Seq::<FlagModel>::filter_distributes_over_add(a + e.push(s[p]), c, pred);
    Seq::<FlagModel>::filter_distributes_over_add(a, e.push(s[p]), pred);
    Seq::<FlagModel>::filter_distributes_over_add(a + e.push(m), c, pred);
    Seq::<FlagModel>::filter_distributes_over_add(a, e.push(m), pred);
    let l = in_environment(s, environment);
    let i = a.filter(pred).len() as int;
    assert(l =~= a.filter(pred) + e.push(s[p]) + c.filter(pred));
    assert(in_environment(t, environment) =~= l.update(i, m));
    assert(l[i] == s[p]);
}

} // verus!
