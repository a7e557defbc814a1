//! A task's environment variables: a list of `(key, value)` pairs in which
//! each key occurs once, standing for a map from keys to values.

use vstd::prelude::*;

use crate::text::{copy_string, str_eq};

verus! {

/// The map a list of `(key, value)` pairs stands for; a later pair wins.
pub open spec fn env_map(s: Seq<(String, String)>) -> Map<Seq<char>, Seq<char>>
    decreases s.len(),
{
    if s.len() == 0 {
        Map::empty()
    } else {
        env_map(s.drop_last()).insert(s.last().0@, s.last().1@)
    }
}

/// No key occurs twice.
pub open spec fn unique_keys(s: Seq<(String, String)>) -> bool {
    forall|i: int, j: int| 0 <= i < j < s.len() ==> s[i].0@ != s[j].0@
}

proof fn lemma_env_map_dom(s: Seq<(String, String)>)
    ensures
        forall|k: Seq<char>|
            env_map(s).dom().contains(k) <==> exists|i: int| 0 <= i < s.len() && #[trigger] s[i].0@ == k,
    decreases s.len(),
{
    if s.len() > 0 {
        lemma_env_map_dom(s.drop_last());
        assert(env_map(s) == env_map(s.drop_last()).insert(s.last().0@, s.last().1@));
        assert forall|k: Seq<char>| env_map(s).dom().contains(k) implies exists|i: int|
            0 <= i < s.len() && #[trigger] s[i].0@ == k by {
            if k != s.last().0@ {
                assert(env_map(s.drop_last()).dom().contains(k));
                let i = choose|i: int|
                    0 <= i < s.drop_last().len() && #[trigger] s.drop_last()[i].0@ == k;
                assert(s[i].0@ == k);
            } else {
                assert(s[s.len() - 1].0@ == k);
            }
        }
        assert forall|k: Seq<char>|
            (exists|i: int| 0 <= i < s.len() && #[trigger] s[i].0@ == k) implies env_map(
            s,
        ).dom().contains(k) by {
            let i = choose|i: int| 0 <= i < s.len() && #[trigger] s[i].0@ == k;
            if i < s.len() - 1 {
                assert(s.drop_last()[i].0@ == k);
            }
        }
    }
}

proof fn lemma_env_map_congruent(a: Seq<(String, String)>, b: Seq<(String, String)>)
    requires
        a.len() == b.len(),
        forall|j: int| 0 <= j < a.len() ==> (#[trigger] a[j]).0@ == b[j].0@ && a[j].1@ == b[j].1@,
    ensures
        env_map(a) == env_map(b),
    decreases a.len(),
{
    if a.len() > 0 {
        lemma_env_map_congruent(a.drop_last(), b.drop_last());
        assert(a.last().0@ == b.last().0@);
    }
}

proof fn lemma_env_map_update(s: Seq<(String, String)>, i: int, e: (String, String))
    requires
        unique_keys(s),
        0 <= i < s.len(),
        e.0@ == s[i].0@,
    ensures
        env_map(s.update(i, e)) == env_map(s).insert(e.0@, e.1@),
    decreases s.len(),
{
    let u = s.update(i, e);
    if i == s.len() - 1 {
        assert(u.drop_last() =~= s.drop_last());
        assert(env_map(u) =~= env_map(s).insert(e.0@, e.1@));
    } else {
        lemma_env_map_update(s.drop_last(), i, e);
        assert(u.drop_last() =~= s.drop_last().update(i, e));
        assert(s.last().0@ != e.0@);
        assert(env_map(u) =~= env_map(s).insert(e.0@, e.1@));
    }
}

/// Sets `key` to `value`: replaces its value where it already occurs,
/// appends the pair otherwise.
pub fn env_set(env: &mut Vec<(String, String)>, key: &String, value: &String)
    requires
        unique_keys(old(env)@),
    ensures
        unique_keys(final(env)@),
        env_map(final(env)@) == env_map(old(env)@).insert(key@, value@),
{
    let ghost old_s = env@;
    let mut out: Vec<(String, String)> = Vec::new();
    let mut replaced = false;
    let mut i: usize = 0;
    while i < env.len()
        invariant
            i <= old_s.len(),
            env@ == old_s,
            unique_keys(old_s),
            out@.len() == i,
            forall|j: int| 0 <= j < i ==> (#[trigger] out@[j]).0@ == old_s[j].0@,
            forall|j: int|
                0 <= j < i ==> (#[trigger] out@[j]).1@ == (if old_s[j].0@ == key@ {
                    value@
                } else {
                    old_s[j].1@
                }),
            replaced <==> exists|j: int| 0 <= j < i && #[trigger] old_s[j].0@ == key@,
        decreases old_s.len() - i,
    {
        let same = str_eq(env[i].0.as_str(), key.as_str());
        let v = if same {
            copy_string(value)
        } else {
            copy_string(&env[i].1)
        };
        out.push((copy_string(&env[i].0), v));
        if same {
            replaced = true;
        }
        i = i + 1;
    }
    if !replaced {
        out.push((copy_string(key), copy_string(value)));
    }
    proof {
        lemma_env_map_dom(old_s);
        if replaced {
            let k = choose|j: int| 0 <= j < old_s.len() && #[trigger] old_s[j].0@ == key@;
            let e = out@[k];
            lemma_env_map_update(old_s, k, e);
            let u = old_s.update(k, e);
            assert forall|a: int, b: int| 0 <= a < b < out@.len() implies out@[a].0@
                != out@[b].0@ by {
                assert(out@[a].0@ == old_s[a].0@);
                assert(out@[b].0@ == old_s[b].0@);
            }
            assert forall|j: int| 0 <= j < out@.len() implies #[trigger] out@[j].0@ == u[j].0@
                && out@[j].1@ == u[j].1@ by {
                if old_s[j].0@ == key@ {
                    assert(j == k);
                }
            }
            lemma_env_map_congruent(out@, u);
        } else {
            assert(out@.drop_last().len() == old_s.len());
            assert forall|j: int| 0 <= j < old_s.len() implies (#[trigger] out@.drop_last()[j]).0@
                == old_s[j].0@ && out@.drop_last()[j].1@ == old_s[j].1@ by {
                assert(out@.drop_last()[j] == out@[j]);
                assert(old_s[j].0@ != key@);
            }
            lemma_env_map_congruent(out@.drop_last(), old_s);
            assert forall|a: int, b: int| 0 <= a < b < out@.len() implies out@[a].0@
                != out@[b].0@ by {
                assert(out@[a].0@ == old_s[a].0@);
                if b < old_s.len() {
                    assert(out@[b].0@ == old_s[b].0@);
                } else {
                    assert(old_s[a].0@ != key@);
                }
            }
        }
    }
    *env = out;
}

/// Removes `key`, wherever it occurs.
pub fn env_unset(env: &mut Vec<(String, String)>, key: &String)
    requires
        unique_keys(old(env)@),
    ensures
        unique_keys(final(env)@),
        env_map(final(env)@) == env_map(old(env)@).remove(key@),
{
    let ghost old_s = env@;
    let mut kept: Vec<(String, String)> = Vec::new();
    let mut i: usize = 0;
    assert(env_map(kept@) =~= env_map(old_s.take(0)).remove(key@));
    while i < env.len()
        invariant
            i <= old_s.len(),
            env@ == old_s,
            unique_keys(old_s),
            unique_keys(kept@),
            forall|a: int|
                0 <= a < kept@.len() ==> exists|b: int|
                    0 <= b < i && (#[trigger] kept@[a]).0@ == old_s[b].0@,
            env_map(kept@) == env_map(old_s.take(i as int)).remove(key@),
        decreases old_s.len() - i,
    {
        let ghost pre = old_s.take(i as int);
        let ghost e = old_s[i as int];
        assert(old_s.take(i + 1).drop_last() =~= pre);
        if !str_eq(env[i].0.as_str(), key.as_str()) {
            let ghost kept0 = kept@;
            kept.push((copy_string(&env[i].0), copy_string(&env[i].1)));
            proof {
                assert(kept@.drop_last() =~= kept0);
                assert forall|a: int, b: int| 0 <= a < b < kept@.len() implies kept@[a].0@
                    != kept@[b].0@ by {
                    if b == kept@.len() - 1 {
                        let c = choose|c: int|
                            0 <= c < i && (#[trigger] kept0[a]).0@ == old_s[c].0@;
                        assert(kept0[a] == kept@[a]);
                    } else {
                        assert(kept0[a] == kept@[a]);
                        assert(kept0[b] == kept@[b]);
                    }
                }
                assert forall|a: int| 0 <= a < kept@.len() implies exists|b: int|
                    0 <= b < i + 1 && (#[trigger] kept@[a]).0@ == old_s[b].0@ by {
                    if a < kept@.len() - 1 {
                        assert(kept0[a] == kept@[a]);
                        let c = choose|c: int|
                            0 <= c < i && (#[trigger] kept0[a]).0@ == old_s[c].0@;
                        assert(0 <= c < i + 1 && kept@[a].0@ == old_s[c].0@);
                    } else {
                        assert(kept@[a].0@ == old_s[i as int].0@);
                    }
                }
                assert(env_map(kept@) =~= env_map(old_s.take(i + 1)).remove(key@));
            }
        } else {
            proof {
                assert(env_map(kept@) =~= env_map(old_s.take(i + 1)).remove(key@));
            }
        }
        i = i + 1;
    }
    assert(old_s.take(old_s.len() as int) =~= old_s);
    *env = kept;
}

} // verus!
