//! Which retained slot each child of a new element list takes over when a list of
//! children is reconciled with the previous one.
//!
//! A keyed child takes the old slot that carries its key (the last one, when several
//! do), unless an earlier child with the same key took it already. Unkeyed children
//! take the unkeyed old slots in order. Old slots that no child takes are removed.

use std::collections::HashMap;
use vstd::prelude::*;

verus! {

broadcast use vstd::std_specs::hash::group_hash_axioms;

/// The number of unkeyed entries among the first `n` of `keys`.
pub open spec fn unkeyed_before(keys: Seq<Option<u64>>, n: int) -> int
    decreases n,
{
    if n <= 0 {
        0
    } else {
        unkeyed_before(keys, n - 1) + if keys[n - 1] is None {
            1int
        } else {
            0int
        }
    }
}

/// The last of the first `n` positions of `keys` that holds `key`.
pub open spec fn last_with_key(keys: Seq<Option<u64>>, key: u64, n: int) -> Option<int>
    decreases n,
{
    if n <= 0 {
        None
    } else if keys[n - 1] == Some(key) {
        Some(n - 1)
    } else {
        last_with_key(keys, key, n - 1)
    }
}

/// Whether `key` occurs among the first `n` entries of `keys`.
pub open spec fn key_before(keys: Seq<Option<u64>>, key: u64, n: int) -> bool {
    exists|j: int| 0 <= j < n && keys[j] == Some(key)
}

/// Whether the new child at `j` takes over old slot `m` (`None`: no old slot, it is
/// created afresh).
pub open spec fn takes_slot(
    old: Seq<Option<u64>>,
    new: Seq<Option<u64>>,
    j: int,
    m: Option<usize>,
) -> bool {
    match new[j] {
        Some(k) => if key_before(new, k, j) {
            m is None
        } else {
            match last_with_key(old, k, old.len() as int) {
                Some(i) => m == Some(i as usize),
                None => m is None,
            }
        },
        None => match m {
            Some(i) => 0 <= i < old.len() && old[i as int] is None && unkeyed_before(old, i as int)
                == unkeyed_before(new, j),
            None => unkeyed_before(old, old.len() as int) <= unkeyed_before(new, j),
        },
    }
}

/// Whether old slot `i` is taken over by one of the first `n` new children.
pub open spec fn reused_by(old: Seq<Option<u64>>, new: Seq<Option<u64>>, n: int, i: int) -> bool {
    match old[i] {
        Some(k) => key_before(new, k, n) && last_with_key(old, k, old.len() as int) == Some(i),
        None => unkeyed_before(old, i) < unkeyed_before(new, n),
    }
}

/// Whether old slot `i` is taken over by some new child.
pub open spec fn is_reused(old: Seq<Option<u64>>, new: Seq<Option<u64>>, i: int) -> bool {
    reused_by(old, new, new.len() as int, i)
}

/// Counting unkeyed entries never decreases along the list.
proof fn lemma_unkeyed_monotone(keys: Seq<Option<u64>>, a: int, b: int)
    requires
        0 <= a <= b,
    ensures
        unkeyed_before(keys, a) <= unkeyed_before(keys, b),
    decreases b - a,
{
    if a < b {
        lemma_unkeyed_monotone(keys, a, b - 1);
    }
}

/// Two unkeyed positions are told apart by how many unkeyed entries precede them.
proof fn lemma_unkeyed_distinct(keys: Seq<Option<u64>>, a: int, b: int)
    requires
        0 <= a < b,
        keys[a] is None,
    ensures
        unkeyed_before(keys, a) < unkeyed_before(keys, b),
{
    lemma_unkeyed_monotone(keys, a + 1, b);
}

/// What `last_with_key` finds holds the key, and where it finds nothing the key
/// does not occur.
proof fn lemma_last_with_key(keys: Seq<Option<u64>>, key: u64, n: int)
    requires
        n <= keys.len(),
    ensures
        last_with_key(keys, key, n) matches Some(i) ==> 0 <= i < n && keys[i] == Some(key)
            && forall|l: int| i < l < n ==> keys[l] != Some(key),
        last_with_key(keys, key, n) is None ==> forall|l: int| 0 <= l < n ==> keys[l] != Some(
            key,
        ),
    decreases n,
{
    if n > 0 {
        lemma_last_with_key(keys, key, n - 1);
    }
}

/// A key that occurs has a first occurrence.
proof fn lemma_first_with_key(keys: Seq<Option<u64>>, key: u64, n: int)
    requires
        key_before(keys, key, n),
    ensures
        exists|j: int| 0 <= j < n && keys[j] == Some(key) && !key_before(keys, key, j),
    decreases n,
{
    if key_before(keys, key, n - 1) {
        lemma_first_with_key(keys, key, n - 1);
        let j = choose|j: int| 0 <= j < n - 1 && keys[j] == Some(key) && !key_before(keys, key, j);
        assert(0 <= j < n && keys[j] == Some(key) && !key_before(keys, key, j));
    } else {
        let w = choose|w: int| 0 <= w < n && keys[w] == Some(key);
        assert(w == n - 1);
    }
}

/// Below the count of unkeyed entries, every count is reached at some unkeyed entry.
proof fn lemma_unkeyed_reached(keys: Seq<Option<u64>>, c: int, n: int)
    requires
        0 <= c < unkeyed_before(keys, n),
    ensures
        exists|j: int| 0 <= j < n && keys[j] is None && unkeyed_before(keys, j) == c,
    decreases n,
{
    if n > 0 {
        if c < unkeyed_before(keys, n - 1) {
            lemma_unkeyed_reached(keys, c, n - 1);
            let j = choose|j: int| 0 <= j < n - 1 && keys[j] is None && unkeyed_before(keys, j) == c;
            assert(0 <= j < n && keys[j] is None && unkeyed_before(keys, j) == c);
        } else {
            assert(keys[n - 1] is None && unkeyed_before(keys, n - 1) == c);
        }
    }
}

/// Reconciling never loses track of an old slot: a slot that a new child takes over
/// carries that child's key (or neither has one), no slot is taken by two children,
/// and every slot counted as reused is taken by some child.
pub proof fn lemma_matching_consistent(old: Seq<Option<u64>>, new: Seq<Option<u64>>)
    requires
        old.len() <= usize::MAX,
    ensures
        forall|j: int, i: usize|
            0 <= j < new.len() && #[trigger] takes_slot(old, new, j, Some(i)) ==> i < old.len()
                && old[i as int] == new[j] && is_reused(old, new, i as int),
        forall|j1: int, j2: int, i: usize|
            0 <= j1 < j2 < new.len() && #[trigger] takes_slot(old, new, j1, Some(i))
                && #[trigger] takes_slot(old, new, j2, Some(i)) ==> false,
        forall|i: int|
            0 <= i < old.len() && #[trigger] is_reused(old, new, i) ==> exists|j: int|
                0 <= j < new.len() && #[trigger] takes_slot(old, new, j, Some(i as usize)),
{
    assert forall|j: int, i: usize|
        0 <= j < new.len() && #[trigger] takes_slot(old, new, j, Some(i)) implies i < old.len()
            && old[i as int] == new[j] && is_reused(old, new, i as int) by {
        match new[j] {
            Some(k) => {
                lemma_last_with_key(old, k, old.len() as int);
                assert(key_before(new, k, new.len() as int));
            },
            None => {
                lemma_unkeyed_distinct(new, j, new.len() as int);
            },
        }
    }
    assert forall|j1: int, j2: int, i: usize|
        0 <= j1 < j2 < new.len() && #[trigger] takes_slot(old, new, j1, Some(i))
            && #[trigger] takes_slot(old, new, j2, Some(i)) implies false by {
        match new[j1] {
            Some(k) => {
                lemma_last_with_key(old, k, old.len() as int);
                match new[j2] {
                    Some(k2) => {
                        lemma_last_with_key(old, k2, old.len() as int);
                        assert(key_before(new, k, j2));
                    },
                    None => {},
                }
            },
            None => {
                match new[j2] {
                    Some(k2) => {
                        lemma_last_with_key(old, k2, old.len() as int);
                    },
                    None => {
                        lemma_unkeyed_distinct(new, j1, j2);
                    },
                }
            },
        }
    }
    assert forall|i: int| 0 <= i < old.len() && #[trigger] is_reused(old, new, i) implies exists|j: int|
        0 <= j < new.len() && #[trigger] takes_slot(old, new, j, Some(i as usize)) by {
        match old[i] {
            Some(k) => {
                lemma_first_with_key(new, k, new.len() as int);
                let j = choose|j: int|
                    0 <= j < new.len() && new[j] == Some(k) && !key_before(new, k, j);
                assert(takes_slot(old, new, j, Some(i as usize)));
            },
            None => {
                lemma_unkeyed_monotone(old, 0, i);
                lemma_unkeyed_reached(new, unkeyed_before(old, i), new.len() as int);
                let j = choose|j: int|
                    0 <= j < new.len() && new[j] is None && unkeyed_before(new, j) == unkeyed_before(old, i);
                assert(takes_slot(old, new, j, Some(i as usize)));
            },
        }
    }
}

/// A new list's children, matched against the old list's slots.
pub struct ChildMatching {
    /// For each new child, the old slot it takes over.
    pub matched: Vec<Option<usize>>,
    /// The old slots that no new child takes, in increasing order.
    pub unused: Vec<usize>,
}

/// Matches the keys of a new list of children against those of the old list: each
/// new child takes the old slot `takes_slot` names, and every old slot that is not
/// taken is listed, in order, as unused.
pub fn match_children(old_keys: &Vec<Option<u64>>, new_keys: &Vec<Option<u64>>) -> (r: ChildMatching)
    ensures
        r.matched.len() == new_keys.len(),
        forall|j: int| 0 <= j < new_keys.len() ==> takes_slot(old_keys@, new_keys@, j, #[trigger] r.matched@[j]),
        forall|a: int, b: int| 0 <= a < b < r.unused.len() ==> r.unused@[a] < r.unused@[b],
        forall|a: int|
            0 <= a < r.unused.len() ==> #[trigger] r.unused@[a] < old_keys.len() && !is_reused(
                old_keys@,
                new_keys@,
                r.unused@[a] as int,
            ),
        forall|i: int|
            0 <= i < old_keys.len() && !is_reused(old_keys@, new_keys@, i) ==> r.unused@.contains(
                i as usize,
            ),
{
    let ghost old = old_keys@;
    let ghost new = new_keys@;
    let old_len = old_keys.len();
    let mut old_keyed: HashMap<u64, usize> = HashMap::new();
    let mut old_used: Vec<bool> = Vec::new();
    let mut i: usize = 0;
    while i < old_len
        invariant
            old_len == old.len(),
            old_keys@ == old,
            i <= old_len,
            old_used.len() == i,
            forall|l: int| 0 <= l < i ==> !old_used@[l],
            forall|k: u64|
                #![trigger old_keyed@.contains_key(k)]
                old_keyed@.contains_key(k) <==> last_with_key(old, k, i as int) is Some,
            forall|k: u64|
                #![trigger old_keyed@[k]]
                old_keyed@.contains_key(k) ==> last_with_key(old, k, i as int) == Some(
                    old_keyed@[k] as int,
                ),
        decreases old_len - i,
    {
        if let Some(key) = old_keys[i] {
            old_keyed.insert(key, i);
        }
        old_used.push(false);
        i += 1;
    }
    proof {
        assert forall|l: int| 0 <= l < old_len implies (#[trigger] old_used@[l] <==> reused_by(
            old,
            new,
            0,
            l,
        )) by {
            lemma_unkeyed_monotone(old, 0, l);
        }
    }
    let mut matched: Vec<Option<usize>> = Vec::new();
    let mut cursor: usize = 0;
    let new_len = new_keys.len();
    let mut j: usize = 0;
    while j < new_len
        invariant
            old_len == old.len(),
            new_len == new.len(),
            old_keys@ == old,
            new_keys@ == new,
            j <= new_len,
            matched.len() == j,
            old_used.len() == old_len,
            cursor <= old_len,
            unkeyed_before(old, cursor as int) <= unkeyed_before(new, j as int),
            forall|jj: int| 0 <= jj < j ==> takes_slot(old, new, jj, #[trigger] matched@[jj]),
            forall|l: int| 0 <= l < old_len ==> (#[trigger] old_used@[l] <==> reused_by(old, new, j as int, l)),
            forall|k: u64|
                #![trigger old_keyed@.contains_key(k)]
                old_keyed@.contains_key(k) <==> last_with_key(old, k, old_len as int) is Some,
            forall|k: u64|
                #![trigger old_keyed@[k]]
                old_keyed@.contains_key(k) ==> last_with_key(old, k, old_len as int) == Some(
                    old_keyed@[k] as int,
                ),
        decreases new_len - j,
    {
        let m: Option<usize> = match new_keys[j] {
            Some(key) => {
                proof {
                    lemma_last_with_key(old, key, old_len as int);
                }
                match old_keyed.get(&key) {
                    Some(idx) => {
                        let idx = *idx;
                        if old_used[idx] {
                            None
                        } else {
                            Some(idx)
                        }
                    },
                    None => None,
                }
            },
            None => {
                let ghost c = unkeyed_before(new, j as int);
                let mut found: Option<usize> = None;
                loop
                    invariant_except_break
                        old_len == old.len(),
                        old_keys@ == old,
                        old_used.len() == old_len,
                        cursor <= old_len,
                        unkeyed_before(old, cursor as int) <= c,
                        forall|l: int|
                            0 <= l < old_len ==> (#[trigger] old_used@[l] <==> reused_by(
                                old,
                                new,
                                j as int,
                                l,
                            )),
                        c == unkeyed_before(new, j as int),
                        found is None,
                    ensures
                        cursor <= old_len,
                        unkeyed_before(old, cursor as int) <= c,
                        found matches Some(f) ==> f == cursor && cursor < old_len && old[f as int] is None
                            && unkeyed_before(old, f as int) == c,
                        found is None ==> unkeyed_before(old, old_len as int) <= c,
                    decreases old_len - cursor,
                {
                    if cursor >= old_len {
                        break;
                    }
                    if !old_used[cursor] && old_keys[cursor].is_none() {
                        found = Some(cursor);
                        break;
                    }
                    cursor += 1;
                }
                found
            },
        };
        proof {
            assert(takes_slot(old, new, j as int, m));
        }
        if let Some(idx) = m {
            old_used.set(idx, true);
        }
        matched.push(m);
        proof {
            let n = j as int;
            assert forall|l: int| 0 <= l < old_len implies (#[trigger] old_used@[l] <==> reused_by(
                old,
                new,
                n + 1,
                l,
            )) by {
                match old[l] {
                    Some(k) => {
                        if new[n] == Some(k) {
                            assert(key_before(new, k, n + 1));
                        }
                        if key_before(new, k, n + 1) && !key_before(new, k, n) {
                            let w = choose|w: int| 0 <= w < n + 1 && new[w] == Some(k);
                            assert(w == n);
                        }
                        if key_before(new, k, n) {
                            let w = choose|w: int| 0 <= w < n && new[w] == Some(k);
                            assert(0 <= w < n + 1 && new[w] == Some(k));
                        }
                        lemma_last_with_key(old, k, old_len as int);
                    },
                    None => {
                        match m {
                            Some(f) => {
                                if l < f {
                                    lemma_unkeyed_distinct(old, l, f as int);
                                } else if l > f {
                                    if new[n] is None {
                                        lemma_unkeyed_distinct(old, f as int, l);
                                    }
                                }
                            },
                            None => {
                                if new[n] is None {
                                    lemma_unkeyed_monotone(old, l + 1, old_len as int);
                                }
                            },
                        }
                    },
                }
            }
            assert forall|jj: int| 0 <= jj < n + 1 implies takes_slot(
                old,
                new,
                jj,
                #[trigger] matched@[jj],
            ) by {
                if jj == n {
                    assert(matched@[jj] == m);
                }
            }
        }
        j += 1;
    }
    let mut unused: Vec<usize> = Vec::new();
    let mut i: usize = 0;
    while i < old_len
        invariant
            old_len == old.len(),
            new_len == new.len(),
            old_used.len() == old_len,
            i <= old_len,
            forall|l: int| 0 <= l < old_len ==> (#[trigger] old_used@[l] <==> reused_by(old, new, new_len as int, l)),
            forall|a: int, b: int| 0 <= a < b < unused.len() ==> unused@[a] < unused@[b],
            forall|a: int| 0 <= a < unused.len() ==> #[trigger] unused@[a] < i && !is_reused(old, new, unused@[a] as int),
            forall|l: int| 0 <= l < i && !is_reused(old, new, l) ==> unused@.contains(l as usize),
        decreases old_len - i,
    {
        if !old_used[i] {
            let ghost before = unused@;
            unused.push(i);
            proof {
                assert forall|l: int| 0 <= l < i && !is_reused(old, new, l) implies unused@.contains(l as usize) by {
                    let a = choose|a: int| 0 <= a < before.len() && before[a] == l as usize;
                    assert(unused@[a] == l as usize);
                }
                assert(unused@[unused.len() - 1] == i);
            }
        }
        i += 1;
    }
    ChildMatching { matched, unused }
}

} // verus!
