//! The cycle solver: stream edges in index order over a union-find forest,
//! detect the first closing edge that induces a cycle of the required
//! length, and reconstruct that cycle as an ascending list of edge indices.

use vstd::prelude::*;

use crate::chain;
use crate::Cuckoo;
use crate::keys;
use crate::keys::keys_of;
use crate::spec_edge;

verus! {

/// The entries of `s` grow strictly from left to right.
pub open spec fn strictly_ascending(s: Seq<u32>) -> bool {
    forall|i: int, j: int| 0 <= i < j < s.len() ==> s[i] < s[j]
}

/// How many trailing entries the two chains share.
pub open spec fn common_suffix(pu: Seq<u64>, pv: Seq<u64>) -> int
    decreases pu.len(),
{
    if pu.len() == 0 || pv.len() == 0 || pu.last() != pv.last() {
        0
    } else {
        1 + common_suffix(pu.drop_last(), pv.drop_last())
    }
}

/// `e` joins `u` and `v`, in either orientation.
pub open spec fn edge_matches(e: (u64, u64), u: u64, v: u64) -> bool {
    (e.0 == u && e.1 == v) || (e.0 == v && e.1 == u)
}

/// The first entry of `cyc` joining `u` and `v`, if any.
pub open spec fn find_match(cyc: Seq<(u64, u64)>, u: u64, v: u64) -> Option<int>
    decreases cyc.len(),
{
    if cyc.len() == 0 {
        None
    } else if edge_matches(cyc[0], u, v) {
        Some(0)
    } else {
        match find_match(cyc.drop_first(), u, v) {
            None => None,
            Some(i) => Some(i + 1),
        }
    }
}

/// Rescan edge indices from `m` upward: record each index whose edge joins
/// a still outstanding cycle pair, removing that pair. Yields the recorded
/// indices in scan order and the pairs left outstanding.
pub open spec fn rescan(cko: Cuckoo, k: [u64; 4], cyc: Seq<(u64, u64)>, m: nat) -> (Seq<u32>, Seq<
    (u64, u64),
>)
    decreases cko.max_edge - m,
{
    if m >= cko.max_edge {
        (Seq::empty(), cyc)
    } else {
        let e = spec_edge(k, m as u32, cko.max_vertex);
        let u = (2 * e.0) as u64;
        let v = (2 * e.1 + 1) as u64;
        match find_match(cyc, u, v) {
            None => rescan(cko, k, cyc, m + 1),
            Some(i) => {
                let fr = rescan(cko, k, cyc.remove(i), m + 1);
                (seq![m as u32] + fr.0, fr.1)
            },
        }
    }
}

/// The cycle's vertices: down the left chain to the meeting vertex, back up
/// the right chain, and the closing edge's left endpoint again.
pub open spec fn cycle_list(pu: Seq<u64>, pv: Seq<u64>, common: int, u: u64) -> Seq<u64> {
    let take_u = pu.len() - common + 1;
    let skip_v = pv.len() - common;
    Seq::new(
        (take_u + skip_v + 1) as nat,
        |i: int|
            if i < take_u {
                pu[i]
            } else if i < take_u + skip_v {
                pv[skip_v - 1 - (i - take_u)]
            } else {
                u
            },
    )
}

/// Consecutive vertices of `list`, as directed pairs.
pub open spec fn cycle_pairs(list: Seq<u64>) -> Seq<(u64, u64)> {
    Seq::new((list.len() - 1) as nat, |i: int| (list[i], list[i + 1]))
}

/// What reconstruction returns for a closing edge: the rescanned indices of
/// the cycle's pairs, or nothing if any pair went unmatched.
pub open spec fn reconstruct_spec(
    cko: Cuckoo,
    k: [u64; 4],
    pu: Seq<u64>,
    pv: Seq<u64>,
    common: int,
    u: u64,
) -> Option<Seq<u32>> {
    let fr = rescan(cko, k, cycle_pairs(cycle_list(pu, pv, common, u)), 0);
    if fr.1.len() == 0 {
        Some(fr.0)
    } else {
        None
    }
}

/// The forest after the chain prefix `p[0 ..= w]` is reversed: each vertex's
/// parent slot is redirected to its predecessor on the chain.
pub open spec fn upd_chain(g: Seq<u64>, p: Seq<u64>, w: int) -> Seq<u64>
    decreases w,
{
    if w <= 0 {
        g
    } else {
        upd_chain(g, p, w - 1).update(p[w] as int, p[w - 1])
    }
}

/// The solver's scan from index `nonce` onward over the forest `g`: skip
/// sentinel edges, close and measure a cycle when both endpoints share a
/// root, reconstruct when the measure is exactly `cycle_length`, otherwise
/// union the two trees, reversing the shorter root chain.
pub open spec fn scan(cko: Cuckoo, k: [u64; 4], g: Seq<u64>, nonce: nat) -> Option<Seq<u32>>
    decreases cko.max_edge - nonce,
{
    if nonce >= cko.max_edge {
        None
    } else {
        let e = spec_edge(k, nonce as u32, cko.max_vertex);
        let u = (2 * e.0) as u64;
        let v = (2 * e.1 + 1) as u64;
        if u == 0 {
            scan(cko, k, g, nonce + 1)
        } else {
            match chain(g, u, g.len()) {
                None => None,
                Some(pu) => match chain(g, v, g.len()) {
                    None => None,
                    Some(pv) => if pu.last() == pv.last() {
                        let cc = common_suffix(pu, pv);
                        if (pu.len() - cc) + (pv.len() - cc) + 1 == cko.cycle_length {
                            reconstruct_spec(cko, k, pu, pv, cc, u)
                        } else {
                            scan(cko, k, g, nonce + 1)
                        }
                    } else if pu.len() < pv.len() {
                        scan(
                            cko,
                            k,
                            upd_chain(g, pu, pu.len() - 1).update(u as int, v),
                            nonce + 1,
                        )
                    } else {
                        scan(
                            cko,
                            k,
                            upd_chain(g, pv, pv.len() - 1).update(v as int, u),
                            nonce + 1,
                        )
                    },
                },
            }
        }
    }
}

/// What `Cuckoo::solve` returns: the scan of all edge indices in ascending
/// order over the initially empty forest.
pub open spec fn solve_spec(cko: Cuckoo, m: Seq<u8>) -> Option<Seq<u32>> {
    scan(cko, keys_of(m), Seq::new(cko.max_vertex as nat, |i: int| 0u64), 0)
}

/// The count of matching trailing entries reached by comparing from the
/// ends until the first difference is exactly `common_suffix`.
proof fn lemma_common_suffix_char(pu: Seq<u64>, pv: Seq<u64>, c: int)
    requires
        0 <= c <= pu.len(),
        c <= pv.len(),
        forall|j: int|
            0 <= j < c ==> #[trigger] pu[pu.len() - 1 - j] == pv[pv.len() - 1 - j],
        c == pu.len() || c == pv.len() || pu[pu.len() - 1 - c] != pv[pv.len() - 1 - c],
    ensures
        common_suffix(pu, pv) == c,
    decreases c,
{
    if c == 0 {
    } else {
        assert(pu[pu.len() - 1 - 0] == pv[pv.len() - 1 - 0]);
        let pu2 = pu.drop_last();
        let pv2 = pv.drop_last();
        assert forall|j: int| 0 <= j < c - 1 implies #[trigger] pu2[pu2.len() - 1 - j]
            == pv2[pv2.len() - 1 - j] by {
            let jj = j + 1;
            assert(pu[pu.len() - 1 - jj] == pv[pv.len() - 1 - jj]);
            assert(pu2[pu2.len() - 1 - j] == pu[pu.len() - 1 - jj]);
            assert(pv2[pv2.len() - 1 - j] == pv[pv.len() - 1 - jj]);
        };
        if c < pu.len() && c < pv.len() {
            assert(pu2[pu2.len() - 1 - (c - 1)] == pu[pu.len() - 1 - c]);
            assert(pv2[pv2.len() - 1 - (c - 1)] == pv[pv.len() - 1 - c]);
        }
        lemma_common_suffix_char(pu2, pv2, c - 1);
    }
}

/// A first matching entry with none before it is what `find_match` yields.
proof fn lemma_find_match_at(cyc: Seq<(u64, u64)>, u: u64, v: u64, i: int)
    requires
        0 <= i < cyc.len(),
        edge_matches(cyc[i], u, v),
        forall|q: int| 0 <= q < i ==> !edge_matches(cyc[q], u, v),
    ensures
        find_match(cyc, u, v) == Some(i),
    decreases i,
{
    if i == 0 {
    } else {
        lemma_find_match_at(cyc.drop_first(), u, v, i - 1);
    }
}

/// A found index always lies inside the sequence.
proof fn lemma_find_match_in_range(cyc: Seq<(u64, u64)>, u: u64, v: u64)
    ensures
        match find_match(cyc, u, v) {
            Some(i) => 0 <= i < cyc.len() && edge_matches(cyc[i], u, v),
            None => true,
        },
    decreases cyc.len(),
{
    if cyc.len() > 0 && !edge_matches(cyc[0], u, v) {
        lemma_find_match_in_range(cyc.drop_first(), u, v);
    }
}

/// With no matching entry at all, `find_match` yields nothing.
proof fn lemma_find_match_none(cyc: Seq<(u64, u64)>, u: u64, v: u64)
    requires
        forall|q: int| 0 <= q < cyc.len() ==> !edge_matches(cyc[q], u, v),
    ensures
        find_match(cyc, u, v) is None,
    decreases cyc.len(),
{
    if cyc.len() > 0 {
        lemma_find_match_none(cyc.drop_first(), u, v);
    }
}

/// Remove the first entry of `cyc` equal to `(u, v)` in either orientation,
/// reporting whether one was found.
fn match_and_remove(cyc: &mut Vec<(u64, u64)>, u: u64, v: u64) -> (r: bool)
    ensures
        match find_match(old(cyc)@, u, v) {
            None => !r && final(cyc)@ == old(cyc)@,
            Some(i) => r && final(cyc)@ == old(cyc)@.remove(i),
        },
{
    let mut i: usize = 0;
    let n = cyc.len();
    while i < n
        invariant
            n == cyc@.len(),
            i <= n,
            cyc@ == old(cyc)@,
            forall|q: int| 0 <= q < i ==> !edge_matches(#[trigger] cyc@[q], u, v),
        decreases n - i,
    {
        let e = cyc[i];
        if (e.0 == u && e.1 == v) || (e.0 == v && e.1 == u) {
            proof {
                lemma_find_match_at(cyc@, u, v, i as int);
            }
            cyc.remove(i);
            return true;
        }
        i = i + 1;
    }
    proof {
        lemma_find_match_none(cyc@, u, v);
    }
    false
}

impl Cuckoo {
    /// Search the graph the message determines for the first cycle of
    /// exactly `cycle_length` edges, streaming edge indices in ascending
    /// order. The result is exactly `solve_spec`; a returned proof holds
    /// exactly `cycle_length` indices, all below `max_edge`, in strictly
    /// ascending order (hence distinct).
    #[verifier::rlimit(60)]
    pub fn solve(&self, message: &[u8]) -> (r: Option<Vec<u32>>)
        requires
            self.wf(),
        ensures
            (match r {
                Some(p) => Some(p@),
                None => None::<Seq<u32>>,
            }) == solve_spec(*self, message@),
            match r {
                Some(p) => {
                    &&& p@.len() == self.cycle_length
                    &&& strictly_ascending(p@)
                    &&& forall|i: int| 0 <= i < p@.len() ==> (#[trigger] p@[i]) < self.max_edge
                },
                None => true,
            },
    {
        let k = keys::derive_keys(message);
        let n_vertex = self.max_vertex;
        let mut graph: Vec<u64> = Vec::new();
        let mut i: usize = 0;
        while i < n_vertex
            invariant
                i <= n_vertex,
                graph@.len() == i,
                forall|q: int| 0 <= q < i ==> (#[trigger] graph@[q]) == 0,
            decreases n_vertex - i,
        {
            graph.push(0);
            i = i + 1;
        }
        proof {
            assert(graph@ =~= Seq::new(self.max_vertex as nat, |q: int| 0u64));
        }
        let mut nonce: usize = 0;
        while nonce < self.max_edge
            invariant
                self.wf(),
                k == keys_of(message@),
                nonce <= self.max_edge,
                graph@.len() == self.max_vertex,
                forall|q: int| 0 <= q < graph@.len() ==> (#[trigger] graph@[q]) < graph@.len(),
                scan(*self, k, graph@, nonce as nat) == solve_spec(*self, message@),
            decreases self.max_edge - nonce,
        {
            let ghost g_entry = graph@;
            let e = self.edge(&k, nonce as u32);
            let u = 2 * e.0;
            let v = 2 * e.1 + 1;
            proof {
                assert(u == (2 * spec_edge(k, nonce as u32, self.max_vertex).0) as u64);
                assert(v == (2 * spec_edge(k, nonce as u32, self.max_vertex).1 + 1) as u64);
            }
            // An edge whose left endpoint is the sentinel vertex cannot be
            // tracked by the forest and is skipped.
            if u != 0 {
                let path_u = match Self::path(&graph, u) {
                    Some(p) => p,
                    None => {
                        proof {
                            assert(chain(g_entry, u, g_entry.len()) is None);
                            assert(scan(*self, k, g_entry, nonce as nat) is None);
                        }
                        return None;
                    },
                };
                let path_v = match Self::path(&graph, v) {
                    Some(p) => p,
                    None => {
                        proof {
                            assert(chain(g_entry, v, g_entry.len()) is None);
                            assert(scan(*self, k, g_entry, nonce as nat) is None);
                        }
                        return None;
                    },
                };
                let len_u = path_u.len();
                let len_v = path_v.len();
                if path_u[len_u - 1] == path_v[len_v - 1] {
                    // Same component: this edge closes a cycle. Count the
                    // common suffix of the two root paths to measure it.
                    let min_len = if len_u < len_v {
                        len_u
                    } else {
                        len_v
                    };
                    let mut common: usize = 0;
                    while common < min_len && path_u[len_u - 1 - common] == path_v[len_v - 1
                        - common]
                        invariant
                            common <= min_len,
                            min_len <= len_u,
                            min_len <= len_v,
                            len_u == path_u@.len(),
                            len_v == path_v@.len(),
                            forall|j: int|
                                0 <= j < common ==> #[trigger] path_u@[len_u - 1 - j]
                                    == path_v@[len_v - 1 - j],
                        decreases min_len - common,
                    {
                        common = common + 1;
                    }
                    assert(common >= 1);
                    proof {
                        lemma_common_suffix_char(path_u@, path_v@, common as int);
                    }
                    if (len_u - common) as u128 + (len_v - common) as u128 + 1
                        == self.cycle_length as u128 {
                        proof {
                            assert((path_u@.len() - common) + (path_v@.len() - common) + 1
                                == self.cycle_length);
                            assert(scan(*self, k, g_entry, nonce as nat) == reconstruct_spec(
                                *self,
                                k,
                                path_u@,
                                path_v@,
                                common as int,
                                u,
                            ));
                        }
                        return self.reconstruct(&k, &path_u, &path_v, common, u);
                    }
                    proof {
                        // A cycle of the wrong length: the edge is dropped.
                        assert(scan(*self, k, g_entry, nonce as nat) == scan(
                            *self,
                            k,
                            g_entry,
                            nonce as nat + 1,
                        ));
                    }
                } else if len_u < len_v {
                    // Distinct components: reverse the shorter root path so
                    // its end hangs under the other component's tree.
                    let mut w: usize = 0;
                    while w + 1 < len_u
                        invariant
                            self.wf(),
                            w < len_u,
                            len_u == path_u@.len(),
                            graph@.len() == g_entry.len(),
                            graph@.len() == self.max_vertex,
                            graph@ == upd_chain(g_entry, path_u@, w as int),
                            forall|q: int|
                                0 <= q < graph@.len() ==> (#[trigger] graph@[q]) < graph@.len(),
                            forall|q: int|
                                0 <= q < len_u ==> 0 < #[trigger] path_u@[q] < graph@.len(),
                        decreases len_u - w,
                    {
                        proof {
                            assert(upd_chain(g_entry, path_u@, w as int + 1) == upd_chain(
                                g_entry,
                                path_u@,
                                w as int,
                            ).update(path_u@[w as int + 1] as int, path_u@[w as int]));
                        }
                        graph[path_u[w + 1] as usize] = path_u[w];
                        w = w + 1;
                    }
                    graph[u as usize] = v;
                    proof {
                        assert(graph@ == upd_chain(g_entry, path_u@, len_u as int - 1).update(
                            u as int,
                            v,
                        ));
                        assert(scan(*self, k, g_entry, nonce as nat) == scan(
                            *self,
                            k,
                            graph@,
                            nonce as nat + 1,
                        ));
                    }
                } else {
                    let mut w: usize = 0;
                    while w + 1 < len_v
                        invariant
                            self.wf(),
                            w < len_v,
                            len_v == path_v@.len(),
                            graph@.len() == g_entry.len(),
                            graph@.len() == self.max_vertex,
                            graph@ == upd_chain(g_entry, path_v@, w as int),
                            forall|q: int|
                                0 <= q < graph@.len() ==> (#[trigger] graph@[q]) < graph@.len(),
                            forall|q: int|
                                0 <= q < len_v ==> 0 < #[trigger] path_v@[q] < graph@.len(),
                        decreases len_v - w,
                    {
                        proof {
                            assert(upd_chain(g_entry, path_v@, w as int + 1) == upd_chain(
                                g_entry,
                                path_v@,
                                w as int,
                            ).update(path_v@[w as int + 1] as int, path_v@[w as int]));
                        }
                        graph[path_v[w + 1] as usize] = path_v[w];
                        w = w + 1;
                    }
                    graph[v as usize] = u;
                    proof {
                        assert(graph@ == upd_chain(g_entry, path_v@, len_v as int - 1).update(
                            v as int,
                            u,
                        ));
                        assert(scan(*self, k, g_entry, nonce as nat) == scan(
                            *self,
                            k,
                            graph@,
                            nonce as nat + 1,
                        ));
                    }
                }
            } else {
                proof {
                    assert(scan(*self, k, graph@, nonce as nat) == scan(
                        *self,
                        k,
                        graph@,
                        nonce as nat + 1,
                    ));
                }
            }
            nonce = nonce + 1;
        }
        None
    }

    /// Turn the two root paths of a closing edge into the cycle's vertex
    /// pair list, then rescan all edge indices in ascending order and record
    /// the index of each pair's edge. The recorded indices are ascending by
    /// construction; if any pair goes unmatched, no proof is returned.
    #[verifier::rlimit(60)]
    fn reconstruct(
        &self,
        k: &[u64; 4],
        path_u: &Vec<u64>,
        path_v: &Vec<u64>,
        common: usize,
        u: u64,
    ) -> (r: Option<Vec<u32>>)
        requires
            self.wf(),
            1 <= common <= path_u@.len(),
            common <= path_v@.len(),
            (path_u@.len() - common) + (path_v@.len() - common) + 1 == self.cycle_length,
        ensures
            (match r {
                Some(p) => Some(p@),
                None => None::<Seq<u32>>,
            }) == reconstruct_spec(*self, *k, path_u@, path_v@, common as int, u),
            match r {
                Some(p) => {
                    &&& p@.len() == self.cycle_length
                    &&& strictly_ascending(p@)
                    &&& forall|i: int| 0 <= i < p@.len() ==> (#[trigger] p@[i]) < self.max_edge
                },
                None => true,
            },
    {
        let len_u = path_u.len();
        let len_v = path_v.len();
        // The cycle's vertices: down path_u to the meeting vertex, back up
        // path_v, and the closing edge's endpoint again to close the loop.
        let take_u = len_u - common + 1;
        let skip_v = len_v - common;
        let mut list: Vec<u64> = Vec::new();
        let mut a: usize = 0;
        while a < take_u
            invariant
                a <= take_u,
                take_u <= len_u,
                len_u == path_u@.len(),
                list@.len() == a,
                forall|q: int| 0 <= q < a ==> list@[q] == path_u@[q],
            decreases take_u - a,
        {
            list.push(path_u[a]);
            a = a + 1;
        }
        let mut b: usize = 0;
        while b < skip_v
            invariant
                b <= skip_v,
                skip_v < len_v,
                len_v == path_v@.len(),
                len_u == path_u@.len(),
                take_u <= len_u,
                list@.len() == take_u + b,
                forall|q: int| 0 <= q < take_u ==> list@[q] == path_u@[q],
                forall|q: int|
                    0 <= q < b ==> #[trigger] list@[take_u + q] == path_v@[skip_v - 1 - q],
            decreases skip_v - b,
        {
            list.push(path_v[skip_v - 1 - b]);
            b = b + 1;
        }
        list.push(u);
        proof {
            let clist = cycle_list(path_u@, path_v@, common as int, u);
            assert(list@.len() == clist.len());
            assert forall|i: int| 0 <= i < list@.len() implies list@[i] == clist[i] by {
                if take_u <= i < take_u + skip_v {
                    let q = i - take_u;
                    assert(list@[take_u + q] == path_v@[skip_v - 1 - q]);
                }
            };
            assert(list@ =~= clist);
        }
        let llen = list.len();
        assert(llen == self.cycle_length + 1);
        // Consecutive vertices form the cycle's edges.
        let mut cyc: Vec<(u64, u64)> = Vec::new();
        let mut t: usize = 0;
        while t + 1 < llen
            invariant
                t < llen,
                llen == list@.len(),
                cyc@.len() == t,
                forall|q: int| 0 <= q < t ==> cyc@[q] == (list@[q], list@[q + 1]),
            decreases llen - t,
        {
            cyc.push((list[t], list[t + 1]));
            t = t + 1;
        }
        proof {
            assert(cyc@.len() == cycle_pairs(list@).len());
            assert forall|q: int| 0 <= q < cyc@.len() implies cyc@[q] == cycle_pairs(list@)[q] by {
                assert(cyc@[q] == (list@[q], list@[q + 1]));
            };
            assert(cyc@ =~= cycle_pairs(list@));
        }
        assert(cyc@.len() == self.cycle_length);
        let ghost cyc0 = cyc@;
        // Rescan every index; each matched pair leaves the list once, so the
        // recorded indices ascend strictly.
        let mut found: Vec<u32> = Vec::new();
        let mut m: usize = 0;
        while m < self.max_edge
            invariant
                self.wf(),
                m <= self.max_edge,
                found@.len() + cyc@.len() == self.cycle_length,
                strictly_ascending(found@),
                forall|q: int| 0 <= q < found@.len() ==> (#[trigger] found@[q]) < m,
                rescan(*self, *k, cyc0, 0).0 == found@ + rescan(*self, *k, cyc@, m as nat).0,
                rescan(*self, *k, cyc0, 0).1 == rescan(*self, *k, cyc@, m as nat).1,
            decreases self.max_edge - m,
        {
            let ghost cyc_entry = cyc@;
            let ghost found_entry = found@;
            let e = self.edge(k, m as u32);
            let u2 = 2 * e.0;
            let v2 = 2 * e.1 + 1;
            let matched = match_and_remove(&mut cyc, u2, v2);
            if matched {
                found.push(m as u32);
            }
            proof {
                let mm = m as nat;
                assert(u2 == (2 * spec_edge(*k, m as u32, self.max_vertex).0) as u64);
                assert(v2 == (2 * spec_edge(*k, m as u32, self.max_vertex).1 + 1) as u64);
                match find_match(cyc_entry, u2, v2) {
                    None => {
                        assert(rescan(*self, *k, cyc_entry, mm) == rescan(*self, *k, cyc@, mm
                            + 1));
                    },
                    Some(fi) => {
                        lemma_find_match_in_range(cyc_entry, u2, v2);
                        let fr = rescan(*self, *k, cyc@, mm + 1);
                        assert(cyc@ == cyc_entry.remove(fi));
                        assert(cyc@.len() == cyc_entry.len() - 1);
                        assert(rescan(*self, *k, cyc_entry, mm).0 == seq![m as u32] + fr.0);
                        assert(found@ =~= found_entry + seq![m as u32]);
                        assert(found_entry + (seq![m as u32] + fr.0) =~= (found_entry + seq![m
                            as u32]) + fr.0);
                    },
                }
            }
            m = m + 1;
        }
        proof {
            assert(rescan(*self, *k, cyc@, self.max_edge as nat).0 =~= Seq::<u32>::empty());
            assert(found@ + Seq::<u32>::empty() =~= found@);
        }
        if cyc.len() == 0 {
            Some(found)
        } else {
            None
        }
    }
}

} // verus!
