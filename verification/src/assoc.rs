//! Key-value lookup over small vectors of pairs.
//!
//! The simulation keeps its tables (components by node, loads by backend,
//! request state by request id) as vectors of pairs in insertion order,
//! which keeps every walk over them deterministic. Keys are kept unique by
//! the owning structures.
use vstd::prelude::*;

verus! {

/// Some entry carries `key`.
pub open spec fn assoc_has<K, V>(s: Seq<(K, V)>, key: K) -> bool {
    exists|i: int| 0 <= i < s.len() && (#[trigger] s[i]).0 == key
}

/// No two entries share a key.
pub open spec fn keys_unique<K, V>(s: Seq<(K, V)>) -> bool {
    forall|i: int, j: int|
        0 <= i < j < s.len() ==> (#[trigger] s[i]).0 != (#[trigger] s[j]).0
}

/// The value carried under `key`; meaningful when `assoc_has` holds and the
/// keys are unique.
pub open spec fn assoc_val<K, V>(s: Seq<(K, V)>, key: K) -> V {
    s[choose|i: int| 0 <= i < s.len() && (#[trigger] s[i]).0 == key].1
}

/// Index of the first entry carrying `key`, if any.
pub fn assoc_find_u32<V>(v: &Vec<(u32, V)>, key: u32) -> (r: Option<usize>)
    ensures
        match r {
            Option::Some(i) => {
                &&& i < v@.len()
                &&& v@[i as int].0 == key
                &&& forall|j: int| 0 <= j < i ==> (#[trigger] v@[j]).0 != key
                &&& assoc_has(v@, key)
            },
            Option::None => !assoc_has(v@, key),
        },
{
    let mut k: usize = 0;
    while k < v.len()
        invariant
            k <= v@.len(),
            forall|j: int| 0 <= j < k ==> (#[trigger] v@[j]).0 != key,
        decreases v@.len() - k,
    {
        if v[k].0 == key {
            return Option::Some(k);
        }
        k += 1;
    }
    Option::None
}

/// Index of the first entry carrying `key`, if any.
pub fn assoc_find_u64<V>(v: &Vec<(u64, V)>, key: u64) -> (r: Option<usize>)
    ensures
        match r {
            Option::Some(i) => {
                &&& i < v@.len()
                &&& v@[i as int].0 == key
                &&& forall|j: int| 0 <= j < i ==> (#[trigger] v@[j]).0 != key
                &&& assoc_has(v@, key)
            },
            Option::None => !assoc_has(v@, key),
        },
{
    let mut k: usize = 0;
    while k < v.len()
        invariant
            k <= v@.len(),
            forall|j: int| 0 <= j < k ==> (#[trigger] v@[j]).0 != key,
        decreases v@.len() - k,
    {
        if v[k].0 == key {
            return Option::Some(k);
        }
        k += 1;
    }
    Option::None
}

/// Index of the first entry carrying `key`, if any.
pub fn assoc_find_u128<V>(v: &Vec<(u128, V)>, key: u128) -> (r: Option<usize>)
    ensures
        match r {
            Option::Some(i) => {
                &&& i < v@.len()
                &&& v@[i as int].0 == key
                &&& forall|j: int| 0 <= j < i ==> (#[trigger] v@[j]).0 != key
                &&& assoc_has(v@, key)
            },
            Option::None => !assoc_has(v@, key),
        },
{
    let mut k: usize = 0;
    while k < v.len()
        invariant
            k <= v@.len(),
            forall|j: int| 0 <= j < k ==> (#[trigger] v@[j]).0 != key,
        decreases v@.len() - k,
    {
        if v[k].0 == key {
            return Option::Some(k);
        }
        k += 1;
    }
    Option::None
}

/// Entries other than `key` carry the same associations in `pre` and
/// `post`.
pub open spec fn assoc_same_except<K, V>(pre: Seq<(K, V)>, post: Seq<(K, V)>, key: K) -> bool {
    forall|q: K|
        q != key ==> (#[trigger] assoc_has(post, q)) == assoc_has(pre, q) && (assoc_has(pre, q)
            ==> assoc_val(post, q) == assoc_val(pre, q))
}

/// Updating the entry that carries `key` in place rebinds `key` and leaves
/// every other association alone.
pub proof fn lemma_assoc_update<K, V>(pre: Seq<(K, V)>, i: int, key: K, value: V)
    requires
        keys_unique(pre),
        0 <= i < pre.len(),
        pre[i].0 == key,
    ensures
        keys_unique(pre.update(i, (key, value))),
        assoc_has(pre.update(i, (key, value)), key),
        assoc_val(pre.update(i, (key, value)), key) == value,
        assoc_same_except(pre, pre.update(i, (key, value)), key),
{
    let post = pre.update(i, (key, value));
    assert forall|j: int, l: int|
        0 <= j < l < post.len() implies (#[trigger] post[j]).0 != (#[trigger] post[l]).0 by {
        assert(pre[j].0 == post[j].0 && pre[l].0 == post[l].0);
    }
    lemma_assoc_val_at(post, key, i);
    assert forall|q: K| q != key implies (#[trigger] assoc_has(post, q)) == assoc_has(pre, q) && (
    assoc_has(pre, q) ==> assoc_val(post, q) == assoc_val(pre, q)) by {
        assert forall|j: int| 0 <= j < pre.len() implies (#[trigger] pre[j]).0 == (
        #[trigger] post[j]).0 by {}
        if assoc_has(pre, q) {
            let j = choose|j: int| 0 <= j < pre.len() && (#[trigger] pre[j]).0 == q;
            assert(j != i);
            assert(post[j] == pre[j]);
            lemma_assoc_val_at(pre, q, j);
            lemma_assoc_val_at(post, q, j);
        } else {
            if assoc_has(post, q) {
                let j = choose|j: int| 0 <= j < post.len() && (#[trigger] post[j]).0 == q;
                assert(pre[j].0 == q);
            }
        }
    }
}

/// Appending a fresh key binds it and leaves every other association
/// alone.
pub proof fn lemma_assoc_push<K, V>(pre: Seq<(K, V)>, key: K, value: V)
    requires
        keys_unique(pre),
        !assoc_has(pre, key),
    ensures
        keys_unique(pre.push((key, value))),
        assoc_has(pre.push((key, value)), key),
        assoc_val(pre.push((key, value)), key) == value,
        assoc_same_except(pre, pre.push((key, value)), key),
{
    let post = pre.push((key, value));
    assert forall|j: int, l: int|
        0 <= j < l < post.len() implies (#[trigger] post[j]).0 != (#[trigger] post[l]).0 by {
        if l < pre.len() {
            assert(pre[j].0 != pre[l].0);
        } else {
            assert(post[l].0 == key);
            assert(pre[j].0 != key);
        }
    }
    lemma_assoc_val_at(post, key, post.len() - 1);
    assert forall|q: K| q != key implies (#[trigger] assoc_has(post, q)) == assoc_has(pre, q) && (
    assoc_has(pre, q) ==> assoc_val(post, q) == assoc_val(pre, q)) by {
        if assoc_has(pre, q) {
            let j = choose|j: int| 0 <= j < pre.len() && (#[trigger] pre[j]).0 == q;
            assert(post[j] == pre[j]);
            lemma_assoc_val_at(pre, q, j);
            lemma_assoc_val_at(post, q, j);
        } else {
            if assoc_has(post, q) {
                let j = choose|j: int| 0 <= j < post.len() && (#[trigger] post[j]).0 == q;
                assert(j < pre.len() || post[j].0 == key);
                if j < pre.len() {
                    assert(pre[j].0 == q);
                }
            }
        }
    }
}

/// Removing the entry that carries `key` unbinds it and leaves every
/// other association alone.
pub proof fn lemma_assoc_remove<K, V>(pre: Seq<(K, V)>, i: int)
    requires
        keys_unique(pre),
        0 <= i < pre.len(),
    ensures
        keys_unique(pre.remove(i)),
        !assoc_has(pre.remove(i), pre[i].0),
        assoc_same_except(pre, pre.remove(i), pre[i].0),
{
    let key = pre[i].0;
    let post = pre.remove(i);
    assert forall|j: int, l: int|
        0 <= j < l < post.len() implies (#[trigger] post[j]).0 != (#[trigger] post[l]).0 by {
        let j0 = if j < i {
            j
        } else {
            j + 1
        };
        let l0 = if l < i {
            l
        } else {
            l + 1
        };
        assert(post[j] == pre[j0] && post[l] == pre[l0]);
        assert(pre[j0].0 != pre[l0].0);
    }
    assert forall|j: int| 0 <= j < post.len() implies (#[trigger] post[j]).0 != key by {
        let j0 = if j < i {
            j
        } else {
            j + 1
        };
        assert(post[j] == pre[j0]);
        assert(j0 != i);
        if j0 < i {
            assert(pre[j0].0 != pre[i].0);
        } else {
            assert(pre[i].0 != pre[j0].0);
        }
    }
    assert forall|q: K| q != key implies (#[trigger] assoc_has(post, q)) == assoc_has(pre, q) && (
    assoc_has(pre, q) ==> assoc_val(post, q) == assoc_val(pre, q)) by {
        if assoc_has(pre, q) {
            let j = choose|j: int| 0 <= j < pre.len() && (#[trigger] pre[j]).0 == q;
            assert(j != i);
            let j1 = if j < i {
                j
            } else {
                j - 1
            };
            assert(post[j1] == pre[j]);
            lemma_assoc_val_at(pre, q, j);
            lemma_assoc_val_at(post, q, j1);
        } else {
            if assoc_has(post, q) {
                let j = choose|j: int| 0 <= j < post.len() && (#[trigger] post[j]).0 == q;
                let j0 = if j < i {
                    j
                } else {
                    j + 1
                };
                assert(pre[j0].0 == q);
            }
        }
    }
}

/// Leaving every association but `key` alone is transitive.
pub proof fn lemma_assoc_same_except_trans<K, V>(
    a: Seq<(K, V)>,
    b: Seq<(K, V)>,
    c: Seq<(K, V)>,
    key: K,
)
    requires
        assoc_same_except(a, b, key),
        assoc_same_except(b, c, key),
    ensures
        assoc_same_except(a, c, key),
{
    assert forall|q: K| q != key implies (#[trigger] assoc_has(c, q)) == assoc_has(a, q) && (
    assoc_has(a, q) ==> assoc_val(c, q) == assoc_val(a, q)) by {
        assert(assoc_has(b, q) == assoc_has(a, q));
        assert(assoc_has(c, q) == assoc_has(b, q));
    }
}

/// When keys are unique and entry `i` carries `key`, that entry's value is
/// the associated value.
pub proof fn lemma_assoc_val_at<K, V>(s: Seq<(K, V)>, key: K, i: int)
    requires
        keys_unique(s),
        0 <= i < s.len(),
        s[i].0 == key,
    ensures
        assoc_has(s, key),
        assoc_val(s, key) == s[i].1,
{
    assert(assoc_has(s, key));
    let j = choose|j: int| 0 <= j < s.len() && (#[trigger] s[j]).0 == key;
    if i < j {
        assert(s[i].0 != s[j].0);
    } else if j < i {
        assert(s[j].0 != s[i].0);
    }
}

} // verus!
