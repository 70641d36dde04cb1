//! The SteamID64s of the players who keep the ESP turned on across sessions.
use std::collections::HashSet;
use vstd::prelude::*;
use vstd::std_specs::hash::spec_hash_keys_iter;
use vstd::std_specs::iter::IteratorSpec;

verus! {

broadcast use vstd::std_specs::hash::group_hash_axioms;

/// The set of SteamID64s with the ESP preference turned on; 0 is never in it.
pub struct Preferences {
    enabled: HashSet<u64>,
}

impl View for Preferences {
    type V = Set<u64>;

    closed spec fn view(&self) -> Set<u64> {
        self.enabled@
    }
}

impl Preferences {
    pub open spec fn wf(&self) -> bool {
        !self@.contains(0)
    }
}

/// The preferences read from the preference file: its ids without 0.
pub fn from_loaded_ids(ids: &Vec<u64>) -> (r: Preferences)
    ensures
        r.wf(),
        r@ == ids@.to_set().remove(0),
{
    let mut enabled: HashSet<u64> = HashSet::new();
    let mut i: usize = 0;
    while i < ids.len()
        invariant
            i <= ids@.len(),
            enabled@ == ids@.subrange(0, i as int).to_set().remove(0),
        decreases ids.len() - i,
    {
        let id = ids[i];
        if id != 0 {
            enabled.insert(id);
        }
        proof {
            let a = ids@.subrange(0, i as int);
            let b = ids@.subrange(0, i + 1);
            assert(b =~= a.push(id));
            a.lemma_push_to_set_commute(id);
            assert(enabled@ =~= b.to_set().remove(0));
        }
        i = i + 1;
    }
    assert(ids@.subrange(0, ids@.len() as int) =~= ids@);
    Preferences { enabled }
}

/// Sets up the preferences from the ids read from the preference file and
/// returns how many players have the ESP turned on.
pub fn initialize(loaded_ids: &Vec<u64>) -> (r: (Preferences, usize))
    ensures
        r.0.wf(),
        r.0@ == loaded_ids@.to_set().remove(0),
        r.1 == r.0@.len(),
{
    let prefs = from_loaded_ids(loaded_ids);
    let count = prefs.enabled.len();
    (prefs, count)
}

/// Whether `steam_id` keeps the ESP turned on; never for 0.
pub fn is_enabled(prefs: &Preferences, steam_id: u64) -> (r: bool)
    ensures
        r == (steam_id != 0 && prefs@.contains(steam_id)),
{
    if steam_id == 0 {
        return false;
    }
    prefs.enabled.contains(&steam_id)
}

pub open spec fn msg_zero_id() -> Seq<char> {
    "cannot persist ESP for SteamID64 0"@
}

/// The preferences after the preference of `steam_id` is set to `should_enable`.
pub open spec fn with_preference(s: Set<u64>, steam_id: u64, should_enable: bool) -> Set<u64> {
    if steam_id == 0 {
        s
    } else if should_enable {
        s.insert(steam_id)
    } else {
        s.remove(steam_id)
    }
}

/// The preferences after a change to `should_enable` for `steam_id` is taken back.
pub open spec fn without_change(s: Set<u64>, steam_id: u64, should_enable: bool) -> Set<u64> {
    if should_enable {
        s.remove(steam_id)
    } else if steam_id == 0 {
        s
    } else {
        s.insert(steam_id)
    }
}

/// Turns the preference of `steam_id` on or off; `Ok(true)` when it changed
/// and must be saved, `Ok(false)` when it already was so. Refused for 0.
pub fn set_enabled(prefs: &mut Preferences, steam_id: u64, should_enable: bool) -> (r: Result<
    bool,
    String,
>)
    requires
        old(prefs).wf(),
    ensures
        final(prefs).wf(),
        final(prefs)@ == with_preference(old(prefs)@, steam_id, should_enable),
        steam_id == 0 ==> (r matches Err(e) && e@ == msg_zero_id()),
        steam_id != 0 ==> (r matches Ok(changed) && changed == (should_enable != old(prefs)@.contains(steam_id))),
{
    if steam_id == 0 {
        return Err(String::from_str("cannot persist ESP for SteamID64 0"));
    }
    let changed = if should_enable {
        prefs.enabled.insert(steam_id)
    } else {
        prefs.enabled.remove(&steam_id)
    };
    Ok(changed)
}

/// Undoes a change of `set_enabled` that could not be saved.
pub fn revert_enabled(prefs: &mut Preferences, steam_id: u64, should_enable: bool)
    requires
        old(prefs).wf(),
    ensures
        final(prefs).wf(),
        final(prefs)@ == without_change(old(prefs)@, steam_id, should_enable),
{
    if should_enable {
        prefs.enabled.remove(&steam_id);
    } else if steam_id != 0 {
        prefs.enabled.insert(steam_id);
    }
}

/// After the preference of a nonzero id is set, the id is enabled exactly when it was set on,
/// and every other id keeps its preference.
pub proof fn law_set_then_query(s: Set<u64>, steam_id: u64, should_enable: bool, other: u64)
    requires
        steam_id != 0,
        other != steam_id,
    ensures
        with_preference(s, steam_id, should_enable).contains(steam_id) == should_enable,
        with_preference(s, steam_id, should_enable).contains(other) == s.contains(other),
{
}

/// Taking back a change that `set_enabled` reported restores the preferences it started from.
pub proof fn law_revert_restores(s: Set<u64>, steam_id: u64, should_enable: bool)
    requires
        !s.contains(0),
        steam_id != 0,
        should_enable != s.contains(steam_id),
    ensures
        without_change(with_preference(s, steam_id, should_enable), steam_id, should_enable) == s,
{
    assert(without_change(with_preference(s, steam_id, should_enable), steam_id, should_enable) =~= s);
}

/// The preferences after the changes `(steam_id, should_enable)`, in order.
pub open spec fn after_settings(s: Set<u64>, changes: Seq<(u64, bool)>) -> Set<u64>
    decreases changes.len(),
{
    if changes.len() == 0 {
        s
    } else {
        with_preference(after_settings(s, changes.drop_last()), changes.last().0, changes.last().1)
    }
}

/// After any run of changes, a nonzero id is enabled exactly as its latest
/// change set it, and 0 is never enabled.
pub proof fn law_latest_setting_wins(s: Set<u64>, changes: Seq<(u64, bool)>, steam_id: u64, k: int)
    requires
        !s.contains(0),
        steam_id != 0,
        0 <= k < changes.len(),
        changes[k].0 == steam_id,
        forall|j: int| k < j < changes.len() ==> #[trigger] changes[j].0 != steam_id,
    ensures
        after_settings(s, changes).contains(steam_id) == changes[k].1,
        !after_settings(s, changes).contains(0),
    decreases changes.len(),
{
    lemma_zero_never_enabled(s, changes);
    if k < changes.len() - 1 {
        let t = changes.drop_last();
        assert forall|j: int| k < j < t.len() implies #[trigger] t[j].0 != steam_id by {
            assert(t[j] == changes[j]);
        }
        law_latest_setting_wins(s, t, steam_id, k);
        assert(changes.last().0 != steam_id);
    }
}

proof fn lemma_zero_never_enabled(s: Set<u64>, changes: Seq<(u64, bool)>)
    requires
        !s.contains(0),
    ensures
        !after_settings(s, changes).contains(0),
    decreases changes.len(),
{
    if changes.len() > 0 {
        lemma_zero_never_enabled(s, changes.drop_last());
    }
}

/// Whether `s` ascends strictly.
pub open spec fn strictly_ascending(s: Seq<u64>) -> bool {
    forall|i: int, j: int| 0 <= i < j < s.len() ==> s[i] < s[j]
}

/// The ids with the ESP turned on, in ascending order, as the preference file stores them.
pub fn sorted_ids(prefs: &Preferences) -> (r: Vec<u64>)
    ensures
        strictly_ascending(r@),
        r@.to_set() == prefs@,
        r@.len() == prefs@.len(),
{
    let ghost m = prefs.enabled@;
    let mut v: Vec<u64> = Vec::new();
    let ghost mut seen: Set<u64> = Set::empty();
    for id in it: prefs.enabled.iter()
        invariant
            m == prefs.enabled@,
            it.seq() == spec_hash_keys_iter(&prefs.enabled).remaining(),
            strictly_ascending(v@),
            v@.to_set() == seen,
            v@.len() == it.index(),
            forall|k: u64| #[trigger]
                seen.contains(k) <==> exists|i: int| 0 <= i < it.index() && *it.seq()[i] == k,
            it.seq().len() == m.len(),
            it.index() == it.seq().len() ==> seen == m,
    {
        let k = *id;
        let ghost sq = it.seq();
        let ghost idx = it.index();
        let ghost u = sq.map_values(|r: &u64| *r);
        let ghost old_v = v@;
        proof {
            vstd::std_specs::hash::axiom_spec_hash_keys_iter(&prefs.enabled);
            assert(sq.unref() =~= u);
            assert(u[idx] == k);
            assert(!seen.contains(k)) by {
                if seen.contains(k) {
                    let i = choose|i: int| 0 <= i < idx && *sq[i] == k;
                    assert(u[i] == u[idx]);
                }
            }
        }
        let mut p: usize = v.len();
        while p > 0 && v[p - 1] > k
            invariant
                p <= v@.len(),
                v@ == old_v,
                forall|j: int| p <= j < v@.len() ==> v@[j] > k,
            decreases p,
        {
            p = p - 1;
        }
        proof {
            assert(!old_v.contains(k)) by {
                if old_v.contains(k) {
                    let j = choose|j: int| 0 <= j < old_v.len() && old_v[j] == k;
                    assert(old_v.to_set().contains(k));
                }
            }
            if p > 0 {
                assert(old_v[p - 1] != k);
            }
        }
        v.insert(p, k);
        proof {
            let nv = v@;
            assert(nv =~= old_v.insert(p as int, k));
            assert forall|i: int, j: int| 0 <= i < j < nv.len() implies nv[i] < nv[j] by {
                if j < p {
                    assert(nv[i] == old_v[i] && nv[j] == old_v[j]);
                } else if j == p {
                    assert(nv[i] == old_v[i]);
                    if i < p - 1 {
                        assert(old_v[i] < old_v[p - 1]);
                    }
                } else if i < p {
                    assert(nv[i] == old_v[i] && nv[j] == old_v[j - 1]);
                } else if i == p {
                    assert(nv[j] == old_v[j - 1]);
                } else {
                    assert(nv[i] == old_v[i - 1] && nv[j] == old_v[j - 1]);
                }
            }
            assert(nv.to_set() =~= seen.insert(k)) by {
                assert forall|x: u64| nv.to_set().contains(x) implies seen.insert(k).contains(x) by {
                    let j = choose|j: int| 0 <= j < nv.len() && nv[j] == x;
                    if j < p {
                        assert(old_v[j] == x);
                        assert(old_v.to_set().contains(x));
                    } else if j > p {
                        assert(old_v[j - 1] == x);
                        assert(old_v.to_set().contains(x));
                    }
                }
                assert forall|x: u64| seen.insert(k).contains(x) implies nv.to_set().contains(x) by {
                    if x == k {
                        assert(nv[p as int] == k);
                    } else {
                        assert(old_v.to_set().contains(x));
                        let j = choose|j: int| 0 <= j < old_v.len() && old_v[j] == x;
                        if j < p {
                            assert(nv[j] == x);
                        } else {
                            assert(nv[j + 1] == x);
                        }
                    }
                }
            }
        }
        proof {
            seen = seen.insert(k);
        }
        proof {
            assert forall|x: u64| idx + 1 == sq.len() && m.contains(x) implies seen.contains(x) by {
                assert(u.to_set().contains(x));
                let i = choose|i: int| 0 <= i < u.len() && u[i] == x;
                assert(*sq[i] == x);
            }
            assert(idx + 1 == sq.len() ==> seen =~= m) by {
                assert forall|x: u64| idx + 1 == sq.len() && seen.contains(x) implies m.contains(x) by {
                    if x != k {
                        let i = choose|i: int| 0 <= i < idx && *sq[i] == x;
                        assert(u[i] == x);
                    }
                    assert(u.to_set().contains(x));
                }
            }
        }
    }
    proof {
        assert(seen == m);
    }
    v
}

} // verus!
