//! The mathematical model of cycle verification: the edges a claimed proof
//! denotes, 2-regularity of the claimed edge set, and the cycle walk.

use vstd::prelude::*;

use crate::Cuckoo;
use crate::keys::keys_of;
use crate::spec_edge;

verus! {

/// The sequence of edges a claimed proof denotes, in claim order.
pub open spec fn edges_of(c: Cuckoo, m: Seq<u8>, nonces: Seq<u32>) -> Seq<(u64, u64)> {
    nonces.map(|_i: int, n: u32| spec_edge(keys_of(m), n, c.max_vertex))
}

/// The partners of `key` among the edges `es`, in order: the right endpoints
/// of edges whose left endpoint is `key` (when `left` holds), or the left
/// endpoints of edges whose right endpoint is `key` (otherwise).
pub open spec fn partners(es: Seq<(u64, u64)>, key: u64, left: bool) -> Seq<u64>
    decreases es.len(),
{
    if es.len() == 0 {
        Seq::empty()
    } else {
        let init = partners(es.drop_last(), key, left);
        let e = es.last();
        if (if left { e.0 } else { e.1 }) == key {
            init.push(if left { e.1 } else { e.0 })
        } else {
            init
        }
    }
}

/// Every vertex occurring in `es` lies on exactly two edges of its side:
/// the claimed edge set is a 2-regular bipartite multigraph.
pub open spec fn two_regular(es: Seq<(u64, u64)>) -> bool {
    forall|i: int|
        0 <= i < es.len() ==> partners(es, (#[trigger] es[i]).0, true).len() == 2
            && partners(es, es[i].1, false).len() == 2
}

/// The first element of `s` other than `x`, if any.
pub open spec fn first_other(s: Seq<u64>, x: u64) -> Option<u64>
    decreases s.len(),
{
    if s.len() == 0 {
        None
    } else if s[0] != x {
        Some(s[0])
    } else {
        first_other(s.drop_first(), x)
    }
}

/// Walk the claimed multigraph from the edge `cur`: step to the other edge
/// at the current left vertex, then to the other edge at the right vertex so
/// reached, adding two to the walked length; stop with the total length when
/// the walk returns to the left vertex `start`. `None` when a step has no
/// partner to move to or `start` is not reached within `fuel` double-steps.
pub open spec fn walk_from(es: Seq<(u64, u64)>, cur: (u64, u64), start: u64, fuel: nat) -> Option<
    int,
>
    decreases fuel,
{
    if fuel == 0 {
        None
    } else {
        match first_other(partners(es, cur.0, true), cur.1) {
            None => None,
            Some(nv) => match first_other(partners(es, nv, false), cur.0) {
                None => None,
                Some(nu) => if nu == start {
                    Some(2)
                } else {
                    match walk_from(es, (nu, nv), start, (fuel - 1) as nat) {
                        None => None,
                        Some(k) => Some(k + 2),
                    }
                },
            },
        }
    }
}

/// What `Cuckoo::verify` decides: the claim has exactly `cycle_length`
/// indices, at least one, all below `max_edge`; the edges they denote are
/// 2-regular on both partitions; and the walk from the first edge closes at
/// its starting vertex after exactly `cycle_length` steps.
pub open spec fn verify_spec(c: Cuckoo, m: Seq<u8>, nonces: Seq<u32>) -> bool {
    let es = edges_of(c, m, nonces);
    &&& nonces.len() == c.cycle_length
    &&& nonces.len() > 0
    &&& forall|i: int| 0 <= i < nonces.len() ==> (#[trigger] nonces[i]) < c.max_edge
    &&& two_regular(es)
    &&& walk_from(es, es[0], es[0].0, (c.cycle_length / 2) as nat) == Some(
        c.cycle_length as int,
    )
}

/// A claim whose index count differs from the required cycle length never
/// verifies.
pub proof fn lemma_wrong_length_rejected(c: Cuckoo, m: Seq<u8>, nonces: Seq<u32>)
    requires
        nonces.len() != c.cycle_length,
    ensures
        !verify_spec(c, m, nonces),
{
}

/// A claim holding any index at or above `max_edge` never verifies.
pub proof fn lemma_out_of_range_rejected(c: Cuckoo, m: Seq<u8>, nonces: Seq<u32>, i: int)
    requires
        0 <= i < nonces.len(),
        nonces[i] >= c.max_edge,
    ensures
        !verify_spec(c, m, nonces),
{
}

/// A claim whose edges do not form a 2-regular bipartite multigraph never
/// verifies.
pub proof fn lemma_not_two_regular_rejected(c: Cuckoo, m: Seq<u8>, nonces: Seq<u32>)
    requires
        !two_regular(edges_of(c, m, nonces)),
    ensures
        !verify_spec(c, m, nonces),
{
}

/// Only a walk that closes at its start after exactly `cycle_length` steps
/// is accepted; edges that fall apart into shorter disjoint cycles make the
/// walk close early and are rejected.
pub proof fn lemma_partial_walk_rejected(c: Cuckoo, m: Seq<u8>, nonces: Seq<u32>)
    requires
        ({
            let es = edges_of(c, m, nonces);
            nonces.len() == 0 || walk_from(es, es[0], es[0].0, (c.cycle_length / 2) as nat)
                != Some(c.cycle_length as int)
        }),
    ensures
        !verify_spec(c, m, nonces),
{
}

/// Taking one more edge extends the partner list of its own key by its other
/// endpoint and leaves every other partner list unchanged.
pub proof fn lemma_partners_take_step(es: Seq<(u64, u64)>, j: int, key: u64, left: bool)
    requires
        0 <= j < es.len(),
    ensures
        partners(es.take(j + 1), key, left) == if (if left {
            es[j].0
        } else {
            es[j].1
        }) == key {
            partners(es.take(j), key, left).push(
                if left {
                    es[j].1
                } else {
                    es[j].0
                },
            )
        } else {
            partners(es.take(j), key, left)
        },
{
    assert(es.take(j + 1).drop_last() =~= es.take(j));
    assert(es.take(j + 1).last() == es[j]);
}

/// How `first_other` behaves when one element is appended.
pub proof fn lemma_first_other_push(s: Seq<u64>, x: u64, y: u64)
    ensures
        first_other(s.push(y), x) == match first_other(s, x) {
            Some(w) => Some(w),
            None => if y != x {
                Some(y)
            } else {
                None
            },
        },
    decreases s.len(),
{
    if s.len() == 0 {
        assert(s.push(y)[0] == y);
        assert(s.push(y).drop_first() =~= Seq::<u64>::empty());
    } else {
        assert(s.push(y)[0] == s[0]);
        assert(s.push(y).drop_first() =~= s.drop_first().push(y));
        lemma_first_other_push(s.drop_first(), x, y);
    }
}

/// Once a prefix of the edges yields a partner other than `x`, the whole
/// edge sequence yields the same one.
pub proof fn lemma_first_other_extends(
    es: Seq<(u64, u64)>,
    j: int,
    key: u64,
    left: bool,
    x: u64,
)
    requires
        0 <= j <= es.len(),
        first_other(partners(es.take(j), key, left), x) is Some,
    ensures
        first_other(partners(es, key, left), x) == first_other(
            partners(es.take(j), key, left),
            x,
        ),
    decreases es.len() - j,
{
    if j == es.len() {
        assert(es.take(j) =~= es);
    } else {
        lemma_partners_take_step(es, j, key, left);
        lemma_first_other_push(
            partners(es.take(j), key, left),
            x,
            if left {
                es[j].1
            } else {
                es[j].0
            },
        );
        lemma_first_other_extends(es, j + 1, key, left, x);
    }
}

/// Removing one edge shortens its own key's partner list by one and leaves
/// every other partner list's length unchanged.
proof fn lemma_partners_remove(es: Seq<(u64, u64)>, j: int, key: u64, left: bool)
    requires
        0 <= j < es.len(),
    ensures
        partners(es.remove(j), key, left).len() == partners(es, key, left).len() - (if (if left {
            es[j].0
        } else {
            es[j].1
        }) == key {
            1int
        } else {
            0int
        }),
    decreases es.len(),
{
    if j == es.len() - 1 {
        assert(es.remove(j) =~= es.drop_last());
    } else {
        let es2 = es.remove(j);
        assert(es2.drop_last() =~= es.drop_last().remove(j));
        assert(es2.last() == es.last());
        assert(es.drop_last()[j] == es[j]);
        lemma_partners_remove(es.drop_last(), j, key, left);
    }
}

/// Partner counts depend only on the multiset of edges, not their order.
proof fn lemma_partners_len_permutation(
    es1: Seq<(u64, u64)>,
    es2: Seq<(u64, u64)>,
    key: u64,
    left: bool,
)
    requires
        es1.to_multiset() == es2.to_multiset(),
    ensures
        partners(es1, key, left).len() == partners(es2, key, left).len(),
    decreases es1.len(),
{
    es1.to_multiset_ensures();
    es2.to_multiset_ensures();
    if es1.len() == 0 {
        assert(es2.len() == 0);
    } else {
        let e = es1.last();
        let li = es1.len() - 1;
        assert(es1[li] == e);
        assert(es1.contains(e));
        assert(es2.to_multiset().count(e) > 0);
        assert(es2.contains(e));
        let j = choose|j: int| 0 <= j < es2.len() && es2[j] == e;
        assert(es1.drop_last() =~= es1.remove(li));
        assert(es1.remove(li).to_multiset() == es1.to_multiset().remove(e));
        assert(es2.remove(j).to_multiset() == es2.to_multiset().remove(e));
        lemma_partners_len_permutation(es1.drop_last(), es2.remove(j), key, left);
        lemma_partners_remove(es2, j, key, left);
    }
}

/// One direction of the equivalence below.
proof fn lemma_two_regular_permutation_one(es1: Seq<(u64, u64)>, es2: Seq<(u64, u64)>)
    requires
        es1.to_multiset() == es2.to_multiset(),
        two_regular(es1),
    ensures
        two_regular(es2),
{
    assert forall|i: int| 0 <= i < es2.len() implies partners(es2, (#[trigger] es2[i]).0,
        true).len() == 2 && partners(es2, es2[i].1, false).len() == 2 by {
        es1.to_multiset_ensures();
        es2.to_multiset_ensures();
        let e = es2[i];
        assert(es2.contains(e));
        assert(es1.to_multiset().count(e) > 0);
        assert(es1.contains(e));
        let i1 = choose|i1: int| 0 <= i1 < es1.len() && es1[i1] == e;
        assert(partners(es1, e.0, true).len() == 2 && partners(es1, e.1, false).len() == 2);
        lemma_partners_len_permutation(es1, es2, e.0, true);
        lemma_partners_len_permutation(es1, es2, e.1, false);
    };
}

/// Whether a claimed edge set is 2-regular does not depend on the order the
/// edges are claimed in.
pub proof fn lemma_two_regular_permutation(es1: Seq<(u64, u64)>, es2: Seq<(u64, u64)>)
    requires
        es1.to_multiset() == es2.to_multiset(),
    ensures
        two_regular(es1) <==> two_regular(es2),
{
    if two_regular(es1) {
        lemma_two_regular_permutation_one(es1, es2);
    }
    if two_regular(es2) {
        lemma_two_regular_permutation_one(es2, es1);
    }
}

/// Reordering a claim's indices reorders the edges it denotes the same way.
proof fn lemma_edges_of_permutation(c: Cuckoo, m: Seq<u8>, n1: Seq<u32>, n2: Seq<u32>)
    requires
        n1.to_multiset() == n2.to_multiset(),
    ensures
        edges_of(c, m, n1).to_multiset() == edges_of(c, m, n2).to_multiset(),
    decreases n1.len(),
{
    n1.to_multiset_ensures();
    n2.to_multiset_ensures();
    edges_of(c, m, n1).to_multiset_ensures();
    edges_of(c, m, n2).to_multiset_ensures();
    if n1.len() == 0 {
        assert(n2.len() == 0);
        assert(edges_of(c, m, n1) =~= edges_of(c, m, n2));
    } else {
        let e = n1.last();
        let li = n1.len() - 1;
        assert(n1[li] == e);
        assert(n1.contains(e));
        assert(n2.to_multiset().count(e) > 0);
        assert(n2.contains(e));
        let j = choose|j: int| 0 <= j < n2.len() && n2[j] == e;
        assert(n1.drop_last() =~= n1.remove(li));
        assert(n1.remove(li).to_multiset() == n1.to_multiset().remove(e));
        assert(n2.remove(j).to_multiset() == n2.to_multiset().remove(e));
        lemma_edges_of_permutation(c, m, n1.drop_last(), n2.remove(j));
        let x = spec_edge(keys_of(m), e, c.max_vertex);
        let s1 = edges_of(c, m, n1);
        let s2 = edges_of(c, m, n2);
        let s1d = edges_of(c, m, n1.drop_last());
        let s2r = edges_of(c, m, n2.remove(j));
        s1d.to_multiset_ensures();
        s2r.to_multiset_ensures();
        assert(s1 =~= s1d.push(x));
        assert(s1.to_multiset() == s1d.to_multiset().insert(x));
        assert(s2r =~= s2.remove(j));
        assert(s2.remove(j).to_multiset() == s2.to_multiset().remove(s2[j]));
        assert(s2[j] == x);
        assert(s1.to_multiset() == s2.to_multiset().remove(x).insert(x));
        assert(s2.contains(x));
        assert(s2.to_multiset().count(x) > 0);
        assert(s2.to_multiset().remove(x).insert(x) =~= s2.to_multiset());
    }
}

/// Reordering a claim's indices preserves every order-insensitive check of
/// `verify`: the index count, the range bound, and 2-regularity of the edges
/// the claim denotes. The cycle walk starts from the first claimed edge, so
/// its value under reordering is not stated here.
pub proof fn lemma_checks_order_independent(c: Cuckoo, m: Seq<u8>, n1: Seq<u32>, n2: Seq<u32>)
    requires
        n1.to_multiset() == n2.to_multiset(),
    ensures
        n1.len() == n2.len(),
        (forall|i: int| 0 <= i < n1.len() ==> (#[trigger] n1[i]) < c.max_edge) <==> (forall|i: int|
            0 <= i < n2.len() ==> (#[trigger] n2[i]) < c.max_edge),
        two_regular(edges_of(c, m, n1)) <==> two_regular(edges_of(c, m, n2)),
{
    n1.to_multiset_ensures();
    n2.to_multiset_ensures();
    assert forall|i: int| 0 <= i < n2.len() && (forall|q: int|
        0 <= q < n1.len() ==> (#[trigger] n1[q]) < c.max_edge) implies (#[trigger] n2[i])
        < c.max_edge by {
        assert(n2.contains(n2[i]));
        assert(n1.to_multiset().count(n2[i]) > 0);
        assert(n1.contains(n2[i]));
    };
    assert forall|i: int| 0 <= i < n1.len() && (forall|q: int|
        0 <= q < n2.len() ==> (#[trigger] n2[q]) < c.max_edge) implies (#[trigger] n1[i])
        < c.max_edge by {
        assert(n1.contains(n1[i]));
        assert(n2.to_multiset().count(n1[i]) > 0);
        assert(n2.contains(n1[i]));
    };
    lemma_edges_of_permutation(c, m, n1, n2);
    lemma_two_regular_permutation(edges_of(c, m, n1), edges_of(c, m, n2));
}

} // verus!
