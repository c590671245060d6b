//! The nearest of the hits of a ray.
//!
//! A ray is tried against every surface in turn. What comes of each trial
//! is handed in as a key: `None` where the ray misses the surface, else a
//! number that orders as the distance of the hit does.

use vstd::prelude::*;

verus! {

/// Trial `i` gave a hit closer than `limit`.
pub open spec fn is_hit(keys: Seq<Option<u64>>, limit: u64, i: int) -> bool {
    0 <= i < keys.len() && keys[i] is Some && keys[i].unwrap() < limit
}

/// Trial `i` gave the nearest hit: no hit is closer, and every hit of an
/// earlier trial is farther.
pub open spec fn is_nearest(keys: Seq<Option<u64>>, limit: u64, i: int) -> bool {
    &&& is_hit(keys, limit, i)
    &&& forall|j: int| #[trigger]
        is_hit(keys, limit, j) ==> keys[i].unwrap() <= keys[j].unwrap() && (j < i
            ==> keys[i].unwrap() < keys[j].unwrap())
}

/// The trial that gave the nearest hit closer than `limit`, the first of
/// them where several are equally near; `None` where no trial gave one.
pub fn nearest(keys: &[Option<u64>], limit: u64) -> (found: Option<usize>)
    ensures
        match found {
            Some(i) => is_nearest(keys@, limit, i as int),
            None => forall|j: int| !is_hit(keys@, limit, j),
        },
{
    let mut found: Option<usize> = None;
    let mut closest: u64 = limit;
    let mut k: usize = 0;
    while k < keys.len()
        invariant
            k <= keys@.len(),
            closest <= limit,
            match found {
                Some(i) => i < k && is_nearest(keys@.take(k as int), limit, i as int) && closest
                    == keys@[i as int].unwrap(),
                None => closest == limit && forall|j: int| !is_hit(keys@.take(k as int), limit, j),
            },
        decreases keys@.len() - k,
    {
        let ghost before = keys@.take(k as int);
        let ghost now = keys@.take(k + 1);
        let ghost old_found = found;
        let ghost old_closest = closest;
        match keys[k] {
            Some(key) => {
                if closest > key {
                    closest = key;
                    found = Some(k);
                }
            },
            None => {},
        }
        proof {
            assert forall|j: int| is_hit(now, limit, j) && j < k implies is_hit(
                before,
                limit,
                j,
            ) && before[j] == now[j] by {}
            match found {
                Some(i) => {
                    assert(is_hit(now, limit, i as int));
                    assert forall|j: int| #[trigger] is_hit(now, limit, j) implies now[i as int].unwrap()
                        <= now[j].unwrap() && (j < i ==> now[i as int].unwrap()
                        < now[j].unwrap()) by {
                        if j < k {
                            assert(is_hit(before, limit, j));
                            if let Some(o) = old_found {
                                assert(is_nearest(before, limit, o as int));
                            }
                        }
                    }
                },
                None => {
                    assert forall|j: int| !is_hit(now, limit, j) by {
                        if is_hit(now, limit, j) && j < k {
                            assert(is_hit(before, limit, j));
                        }
                    }
                },
            }
        }
        k = k + 1;
    }
    assert(keys@.take(k as int) =~= keys@);
    found
}

/// No two trials are both the nearest.
pub proof fn lemma_nearest_is_unique(keys: Seq<Option<u64>>, limit: u64, i: int, j: int)
    requires
        is_nearest(keys, limit, i),
        is_nearest(keys, limit, j),
    ensures
        i == j,
{
    assert(is_hit(keys, limit, i));
    assert(is_hit(keys, limit, j));
}

} // verus!
