//! The cycle verifier: recompute the claimed edges, check 2-regularity on
//! both partitions, and walk the cycle measuring its length.

use vstd::prelude::*;

use crate::Cuckoo;
use crate::keys;
use crate::keys::keys_of;
use crate::model::{
    edges_of, first_other, lemma_first_other_extends, lemma_first_other_push,
    lemma_partners_take_step, partners, two_regular, verify_spec, walk_from,
};
use crate::spec_edge;

verus! {

/// How many edges of `es` have `key` on the given side.
fn count_partners(es: &Vec<(u64, u64)>, key: u64, left: bool) -> (r: usize)
    ensures
        r == partners(es@, key, left).len(),
{
    let mut cnt: usize = 0;
    let mut j: usize = 0;
    let n = es.len();
    while j < n
        invariant
            n == es@.len(),
            j <= n,
            cnt <= j,
            cnt == partners(es@.take(j as int), key, left).len(),
        decreases n - j,
    {
        proof {
            lemma_partners_take_step(es@, j as int, key, left);
        }
        let e = es[j];
        let ekey = if left {
            e.0
        } else {
            e.1
        };
        if ekey == key {
            cnt = cnt + 1;
        }
        j = j + 1;
    }
    proof {
        assert(es@.take(n as int) =~= es@);
    }
    cnt
}

/// The first edge of `es` with `key` on the given side whose other endpoint
/// is not `exclude`; returns that other endpoint.
fn find_partner(es: &Vec<(u64, u64)>, key: u64, left: bool, exclude: u64) -> (r: Option<u64>)
    ensures
        r == first_other(partners(es@, key, left), exclude),
{
    let mut j: usize = 0;
    let n = es.len();
    while j < n
        invariant
            n == es@.len(),
            j <= n,
            first_other(partners(es@.take(j as int), key, left), exclude) is None,
        decreases n - j,
    {
        proof {
            lemma_partners_take_step(es@, j as int, key, left);
            lemma_first_other_push(
                partners(es@.take(j as int), key, left),
                exclude,
                if left {
                    es@[j as int].1
                } else {
                    es@[j as int].0
                },
            );
        }
        let e = es[j];
        let ekey = if left {
            e.0
        } else {
            e.1
        };
        let eval = if left {
            e.1
        } else {
            e.0
        };
        if ekey == key && eval != exclude {
            proof {
                lemma_first_other_extends(es@, j as int + 1, key, left, exclude);
            }
            return Some(eval);
        }
        j = j + 1;
    }
    proof {
        assert(es@.take(n as int) =~= es@);
    }
    None
}

impl Cuckoo {
    /// Check a claimed cycle: exactly `cycle_length` indices, all inside
    /// `[0, max_edge)`, whose edges are 2-regular on both partitions and
    /// whose walk from the first edge closes after exactly `cycle_length`
    /// steps. Total: every inconsistency yields `false`.
    pub fn verify(&self, message: &[u8], nonces: &[u32]) -> (r: bool)
        requires
            self.wf(),
        ensures
            r == verify_spec(*self, message@, nonces@),
    {
        let n = nonces.len();
        if n != self.cycle_length {
            return false;
        }
        if n == 0 {
            return false;
        }
        // Every index must denote an edge.
        let mut i: usize = 0;
        while i < n
            invariant
                self.wf(),
                n == nonces@.len(),
                i <= n,
                forall|q: int| 0 <= q < i ==> (#[trigger] nonces@[q]) < self.max_edge,
            decreases n - i,
        {
            if nonces[i] as usize >= self.max_edge {
                return false;
            }
            i = i + 1;
        }
        // Recompute the claimed edges.
        let k = keys::derive_keys(message);
        let mut es: Vec<(u64, u64)> = Vec::new();
        let mut i: usize = 0;
        while i < n
            invariant
                self.wf(),
                n == nonces@.len(),
                i <= n,
                k == keys_of(message@),
                es@.len() == i,
                forall|q: int|
                    0 <= q < i ==> es@[q] == spec_edge(keys_of(message@), nonces@[q],
                    self.max_vertex),
            decreases n - i,
        {
            let e = self.edge(&k, nonces[i]);
            es.push(e);
            i = i + 1;
        }
        proof {
            assert(es@ =~= edges_of(*self, message@, nonces@));
        }
        let ghost ges = es@;
        // Both partitions must be 2-regular.
        let mut i: usize = 0;
        while i < n
            invariant
                self.wf(),
                es@ == ges,
                ges == edges_of(*self, message@, nonces@),
                n == es@.len(),
                i <= n,
                forall|q: int|
                    0 <= q < i ==> partners(ges, (#[trigger] ges[q]).0, true).len() == 2
                        && partners(ges, ges[q].1, false).len() == 2,
            decreases n - i,
        {
            let e = es[i];
            let deg_left = count_partners(&es, e.0, true);
            if deg_left != 2 {
                proof {
                    assert(partners(ges, ges[i as int].0, true).len() != 2);
                    assert(!two_regular(ges));
                }
                return false;
            }
            let deg_right = count_partners(&es, e.1, false);
            if deg_right != 2 {
                proof {
                    assert(partners(ges, ges[i as int].1, false).len() != 2);
                    assert(!two_regular(ges));
                }
                return false;
            }
            i = i + 1;
        }
        assert(two_regular(ges));
        // Walk the cycle from the first edge.
        let fuel = self.cycle_length / 2;
        let mut cur: (u64, u64) = es[0];
        let start = cur.0;
        let mut steps: usize = 0;
        proof {
            assert(verify_spec(*self, message@, nonces@) == (walk_from(
                ges,
                ges[0],
                start,
                fuel as nat,
            ) == Some(self.cycle_length as int)));
        }
        while steps < fuel
            invariant
                self.wf(),
                es@ == ges,
                ges.len() == n,
                n > 0,
                fuel == self.cycle_length / 2,
                steps <= fuel,
                start == ges[0].0,
                verify_spec(*self, message@, nonces@) == (walk_from(ges, ges[0], start,
                fuel as nat) == Some(self.cycle_length as int)),
                walk_from(ges, ges[0], start, fuel as nat) == match walk_from(
                    ges,
                    cur,
                    start,
                    (fuel - steps) as nat,
                ) {
                    None => None::<int>,
                    Some(kk) => Some(kk + 2 * steps),
                },
            decreases fuel - steps,
        {
            let next_lower = match find_partner(&es, cur.0, true, cur.1) {
                Some(x) => x,
                None => {
                    return false;
                },
            };
            let next_upper = match find_partner(&es, next_lower, false, cur.0) {
                Some(x) => x,
                None => {
                    return false;
                },
            };
            if next_upper == start {
                return steps * 2 + 2 == self.cycle_length;
            }
            cur = (next_upper, next_lower);
            steps = steps + 1;
        }
        false
    }
}

} // verus!
