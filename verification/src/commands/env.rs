//! Environment overrides: a list of variables and their values.
//!
//! A list is meant to hold each variable once. Setting a variable and
//! merging keep it so, and merging into a base that holds each variable
//! once gives such a list whatever is merged into it.

use vstd::prelude::*;

verus! {

/// Mathematical model of an environment list.
pub type EnvView = Seq<(Seq<char>, Seq<char>)>;

/// The characters of each key and value of an environment list.
pub open spec fn env_view(v: Seq<(String, String)>) -> EnvView {
    Seq::new(v.len(), |i: int| (v[i].0@, v[i].1@))
}

/// The index of the first entry for `key`, or the list's length.
pub open spec fn env_position(env: EnvView, key: Seq<char>) -> int
    decreases env.len(),
{
    if env.len() == 0 {
        0
    } else if env[0].0 == key {
        0
    } else {
        1 + env_position(env.drop_first(), key)
    }
}

/// The value that `env` gives `key`.
pub open spec fn env_lookup(env: EnvView, key: Seq<char>) -> Option<Seq<char>> {
    let at = env_position(env, key);
    if at < env.len() {
        Some(env[at].1)
    } else {
        None
    }
}

/// `env` with `key` set to `value`: in place where the key is there, at the
/// end where it is new.
pub open spec fn env_with(env: EnvView, key: Seq<char>, value: Seq<char>) -> EnvView {
    let at = env_position(env, key);
    if at < env.len() {
        env.update(at, (key, value))
    } else {
        env.push((key, value))
    }
}

/// `base` overridden and extended by the entries of `over`, taken in order.
pub open spec fn env_merged(base: EnvView, over: EnvView) -> EnvView
    decreases over.len(),
{
    if over.len() == 0 {
        base
    } else {
        env_with(env_merged(base, over.drop_last()), over.last().0, over.last().1)
    }
}

/// Where the first entry for `key` stands.
pub proof fn lemma_env_position(env: EnvView, key: Seq<char>)
    ensures
        0 <= env_position(env, key) <= env.len(),
        env_position(env, key) < env.len() ==> env[env_position(env, key)].0 == key,
        forall|i: int| 0 <= i < env_position(env, key) ==> (#[trigger] env[i]).0 != key,
    decreases env.len(),
{
    if env.len() > 0 && env[0].0 != key {
        let rest = env.drop_first();
        lemma_env_position(rest, key);
        assert forall|i: int| 0 <= i < env_position(env, key) implies (#[trigger] env[i]).0
            != key by {
            if i > 0 {
                assert(env[i] == rest[i - 1]);
            }
        }
    }
}

/// Setting a key changes what that key gives and nothing else.
pub proof fn lemma_env_with_lookup(env: EnvView, key: Seq<char>, value: Seq<char>, other: Seq<char>)
    ensures
        env_lookup(env_with(env, key, value), other) == if other == key {
            Some(value)
        } else {
            env_lookup(env, other)
        },
{
    let next = env_with(env, key, value);
    lemma_env_position(env, key);
    lemma_env_position(env, other);
    lemma_env_position(next, other);
    let at = env_position(env, key);
    let a = env_position(env, other);
    let b = env_position(next, other);
    if other == key {
        if b < at {
            assert(next[b].0 == other);
            assert(env[b].0 != key);
        }
        if b > at {
            assert(next[at].0 == key);
        }
    } else {
        if a < env.len() {
            assert(next[a].0 == other);
            if b < a {
                assert(next[b].0 == other);
                assert(env[b].0 != other);
            }
        } else {
            if b < next.len() {
                assert(next[b].0 == other);
                if b < env.len() {
                    assert(env[b].0 != other);
                }
            }
        }
    }
}

/// A merged environment gives a key what the overriding list gives it, and
/// what the base gives it where the overriding list is silent.
pub proof fn lemma_env_merged_lookup(base: EnvView, over: EnvView, key: Seq<char>)
    ensures
        env_lookup(env_merged(base, over), key) == if has_key(over, key) {
            Some(last_value(over, key))
        } else {
            env_lookup(base, key)
        },
    decreases over.len(),
{
    if over.len() > 0 {
        let init = over.drop_last();
        lemma_env_merged_lookup(base, init, key);
        lemma_env_with_lookup(env_merged(base, init), over.last().0, over.last().1, key);
        if over.last().0 != key {
            if has_key(init, key) {
                let i = choose|i: int| 0 <= i < init.len() && (#[trigger] init[i]).0 == key;
                assert(over[i].0 == key);
            }
            if has_key(over, key) {
                let i = choose|i: int| 0 <= i < over.len() && (#[trigger] over[i]).0 == key;
                assert(init[i].0 == key);
            }
        } else {
            assert(over[over.len() - 1].0 == key);
        }
    }
}

/// Some entry of `env` is for `key`.
pub open spec fn has_key(env: EnvView, key: Seq<char>) -> bool {
    exists|i: int| 0 <= i < env.len() && (#[trigger] env[i]).0 == key
}

/// The value of the last entry for `key`.
pub open spec fn last_value(env: EnvView, key: Seq<char>) -> Seq<char>
    decreases env.len(),
{
    if env.len() == 0 {
        Seq::empty()
    } else if env.last().0 == key {
        env.last().1
    } else {
        last_value(env.drop_last(), key)
    }
}

/// Copies an environment list.
pub fn clone_env(v: &Vec<(String, String)>) -> (r: Vec<(String, String)>)
    ensures
        env_view(r@) == env_view(v@),
{
    let mut r: Vec<(String, String)> = Vec::new();
    let mut i: usize = 0;
    while i < v.len()
        invariant
            i <= v.len(),
            r@.len() == i,
            forall|j: int| 0 <= j < i ==> r@[j].0@ == v@[j].0@ && r@[j].1@ == v@[j].1@,
        decreases v.len() - i,
    {
        r.push((v[i].0.clone(), v[i].1.clone()));
        i += 1;
    }
    assert(env_view(r@) =~= env_view(v@));
    r
}

/// Sets `key` to `value` in `env`.
pub fn env_set(env: &mut Vec<(String, String)>, key: String, value: String)
    ensures
        env_view(final(env)@) == env_with(env_view(old(env)@), key@, value@),
        env_unique(env_view(old(env)@)) ==> env_unique(env_view(final(env)@)),
{
    let ghost before = env_view(env@);
    proof {
        if env_unique(before) {
            lemma_env_with_unique(before, key@, value@);
        }
    }
    let mut i: usize = 0;
    assert(before.skip(0) =~= before);
    while i < env.len()
        invariant
            i <= env.len(),
            env@ == old(env)@,
            before == env_view(env@),
            env_position(before, key@) == i + env_position(before.skip(i as int), key@),
        decreases env.len() - i,
    {
        proof {
            let rest = before.skip(i as int);
            assert(rest.len() > 0);
            assert(rest[0] == before[i as int]);
            assert(before[i as int].0 == env@[i as int].0@);
            assert(rest.drop_first() =~= before.skip(i + 1));
        }
        if env[i].0.eq(&key) {
            env.set(i, (key, value));
            assert(env_view(env@) =~= env_with(before, key@, value@));
            return;
        }
        i += 1;
    }
    assert(before.skip(i as int).len() == 0);
    env.push((key, value));
    assert(env_view(env@) =~= env_with(before, key@, value@));
}

/// The entries of `base`, overridden and extended by those of `over`.
pub fn merge_env(base: &Vec<(String, String)>, over: &Vec<(String, String)>) -> (r: Vec<
    (String, String),
>)
    ensures
        env_view(r@) == env_merged(env_view(base@), env_view(over@)),
        env_unique(env_view(base@)) ==> env_unique(env_view(r@)),
{
    proof {
        if env_unique(env_view(base@)) {
            lemma_env_merged_unique(env_view(base@), env_view(over@));
        }
    }
    let mut r = clone_env(base);
    let mut i: usize = 0;
    while i < over.len()
        invariant
            i <= over.len(),
            env_view(r@) == env_merged(env_view(base@), env_view(over@).take(i as int)),
        decreases over.len() - i,
    {
        proof {
            let next = env_view(over@).take(i + 1);
            assert(next.drop_last() =~= env_view(over@).take(i as int));
            assert(next.last() == (over@[i as int].0@, over@[i as int].1@));
        }
        env_set(&mut r, over[i].0.clone(), over[i].1.clone());
        i += 1;
    }
    assert(env_view(over@).take(over.len() as int) =~= env_view(over@));
    r
}

/// No key occurs twice in `env`.
pub open spec fn env_unique(env: EnvView) -> bool {
    forall|i: int, j: int|
        0 <= i < j < env.len() ==> (#[trigger] env[i]).0 != (#[trigger] env[j]).0
}

/// In a list without repeated keys, a key stands where it is found.
pub proof fn lemma_env_position_is(env: EnvView, key: Seq<char>, at: int)
    requires
        0 <= at <= env.len(),
        at < env.len() ==> env[at].0 == key,
        forall|i: int| 0 <= i < at ==> (#[trigger] env[i]).0 != key,
    ensures
        env_position(env, key) == at,
{
    lemma_env_position(env, key);
    let p = env_position(env, key);
    if p < at {
        assert(env[p].0 != key);
    }
    if at < p {
        assert(env[at].0 != key);
    }
}

/// Setting a key keeps the keys apart, and keeps the keys that were there
/// where they were.
pub proof fn lemma_env_with_unique(env: EnvView, key: Seq<char>, value: Seq<char>)
    requires
        env_unique(env),
    ensures
        env_unique(env_with(env, key, value)),
        env_with(env, key, value).len() >= env.len(),
        forall|i: int| 0 <= i < env.len() ==> (#[trigger] env_with(env, key, value)[i]).0 == env[i].0,
{
    lemma_env_position(env, key);
    let next = env_with(env, key, value);
    let at = env_position(env, key);
    assert forall|i: int, j: int| 0 <= i < j < next.len() implies (#[trigger] next[i]).0 != (
    #[trigger] next[j]).0 by {
        if at < env.len() {
            assert(next[i].0 == env[i].0);
            assert(next[j].0 == env[j].0);
        } else if j == env.len() {
            assert(next[i] == env[i]);
        } else {
            assert(next[i] == env[i]);
            assert(next[j] == env[j]);
        }
    }
}

/// Merging into a base without repeated keys gives a list without repeated
/// keys, which starts with the keys of the base in their order.
pub proof fn lemma_env_merged_unique(base: EnvView, over: EnvView)
    requires
        env_unique(base),
    ensures
        env_unique(env_merged(base, over)),
        env_merged(base, over).len() >= base.len(),
        forall|i: int| 0 <= i < base.len() ==> (#[trigger] env_merged(base, over)[i]).0 == base[i].0,
    decreases over.len(),
{
    if over.len() > 0 {
        let init = env_merged(base, over.drop_last());
        lemma_env_merged_unique(base, over.drop_last());
        lemma_env_with_unique(init, over.last().0, over.last().1);
        let next = env_merged(base, over);
        assert forall|i: int| 0 <= i < base.len() implies (#[trigger] next[i]).0 == base[i].0 by {
            assert(next[i].0 == init[i].0);
        }
    }
}

proof fn lemma_merge_own_prefix(base: EnvView, m: EnvView, k: int)
    requires
        env_unique(base),
        env_unique(m),
        m.len() >= base.len(),
        forall|i: int| 0 <= i < base.len() ==> (#[trigger] m[i]).0 == base[i].0,
        0 <= k <= m.len(),
    ensures
        env_merged(base, m.take(k)) == if k <= base.len() {
            m.take(k) + base.skip(k)
        } else {
            m.take(k)
        },
    decreases k,
{
    if k == 0 {
        assert(m.take(0) =~= Seq::<(Seq<char>, Seq<char>)>::empty());
        assert(m.take(0) + base.skip(0) =~= base);
    } else {
        lemma_merge_own_prefix(base, m, k - 1);
        let part = m.take(k);
        assert(part.drop_last() =~= m.take(k - 1));
        assert(part.last() == m[k - 1]);
        let before = env_merged(base, m.take(k - 1));
        let key = m[k - 1].0;
        if k - 1 < base.len() {
            assert(before == m.take(k - 1) + base.skip(k - 1));
            assert(before.len() == base.len());
            assert(before[k - 1] == base[k - 1]);
            assert forall|i: int| 0 <= i < k - 1 implies (#[trigger] before[i]).0 != key by {
                assert(before[i] == m[i]);
            }
            lemma_env_position_is(before, key, k - 1);
            assert(env_with(before, key, m[k - 1].1) =~= m.take(k) + base.skip(k));
        } else {
            assert(before == m.take(k - 1)) by {
                if k - 1 == base.len() {
                    assert(m.take(k - 1) + base.skip(k - 1) =~= m.take(k - 1));
                }
            }
            assert forall|i: int| 0 <= i < before.len() implies (#[trigger] before[i]).0 != key by {
                assert(before[i] == m[i]);
            }
            lemma_env_position_is(before, key, before.len() as int);
            assert(env_with(before, key, m[k - 1].1) =~= m.take(k));
        }
    }
}

/// Merging an environment into its base a second time changes nothing.
pub proof fn lemma_env_merged_again(base: EnvView, over: EnvView)
    requires
        env_unique(base),
    ensures
        env_merged(base, env_merged(base, over)) == env_merged(base, over),
{
    let m = env_merged(base, over);
    lemma_env_merged_unique(base, over);
    lemma_merge_own_prefix(base, m, m.len() as int);
    assert(m.take(m.len() as int) =~= m);
    if m.len() <= base.len() {
        assert(m + base.skip(m.len() as int) =~= m);
    }
}

} // verus!
