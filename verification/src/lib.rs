//! Cuckoo Cycle proof-of-work: find and check fixed-length cycles in a
//! pseudo-random bipartite graph derived from a message.

pub mod keys;
pub mod model;
pub mod sip;
pub mod solve;
pub mod verify;

use vstd::prelude::*;

verus! {

/// A Cuckoo Cycle instance: `max_vertex` total vertices (split evenly into a
/// left and a right partition), `max_edge` candidate edges, and the required
/// cycle length.
pub struct Cuckoo {
    pub max_vertex: usize,
    pub max_edge: usize,
    pub cycle_length: usize,
}

/// The edge an index denotes: each half of the pair is the SipHash of one of
/// the two words `2·index` and `2·index + 1`, reduced modulo the size of a
/// partition. The left endpoint lives in the left partition, the right one in
/// the right partition, each of size `max_vertex / 2`.
pub open spec fn spec_edge(k: [u64; 4], index: u32, max_vertex: usize) -> (u64, u64)
    recommends
        max_vertex >= 2,
{
    let half = (max_vertex / 2) as u64;
    (
        sip::spec_siphash24(k[0], k[1], k[2], k[3], (2 * index) as u64) % half,
        sip::spec_siphash24(k[0], k[1], k[2], k[3], (2 * index + 1) as u64) % half,
    )
}

/// The parent chain the forest `g` determines from `start`: the vertices
/// visited by following parent slots until one holds the sentinel `0`,
/// `start` first, or `None` if no sentinel is reached within `fuel` steps.
pub open spec fn chain(g: Seq<u64>, start: u64, fuel: nat) -> Option<Seq<u64>>
    recommends
        0 < start < g.len(),
    decreases fuel,
{
    if g[start as int] == 0 {
        Some(seq![start])
    } else if fuel == 0 {
        None
    } else {
        match chain(g, g[start as int], (fuel - 1) as nat) {
            None => None,
            Some(rest) => Some(seq![start] + rest),
        }
    }
}

impl Cuckoo {
    /// The instance parameters the algorithms rely on: an even vertex count
    /// with at least one vertex on each side, and edge indices that fit in
    /// a `u32`.
    pub open spec fn wf(self) -> bool {
        &&& self.max_vertex % 2 == 0
        &&& self.max_vertex >= 2
        &&& self.max_edge <= u32::MAX as usize
    }

    pub fn new(max_vertex: usize, max_edge: usize, cycle_length: usize) -> (r: Self)
        requires
            max_vertex % 2 == 0,
            max_vertex >= 2,
            max_edge <= u32::MAX as usize,
        ensures
            r.wf(),
            r.max_vertex == max_vertex,
            r.max_edge == max_edge,
            r.cycle_length == cycle_length,
    {
        Self {
            max_vertex,
            max_edge,
            cycle_length,
        }
    }

    /// Compute the edge an index denotes. The result is a pure function of
    /// the keys, the index and the vertex count, so repeated calls on equal
    /// arguments return equal pairs.
    pub fn edge(&self, k: &[u64; 4], index: u32) -> (r: (u64, u64))
        requires
            self.wf(),
        ensures
            r == spec_edge(*k, index, self.max_vertex),
            r.0 < self.max_vertex as u64 / 2,
            r.1 < self.max_vertex as u64 / 2,
    {
        let half = (self.max_vertex as u64) / 2;
        let upper = sip::siphash24(k[0], k[1], k[2], k[3], 2 * (index as u64)) % half;
        let lower = sip::siphash24(k[0], k[1], k[2], k[3], 2 * (index as u64) + 1) % half;
        (upper, lower)
    }

    /// Walk the parent chain of the solver forest from `start` until a vertex
    /// whose parent slot holds the sentinel `0`, returning the whole chain,
    /// `start` first. Returns `None` only if no sentinel is reached within
    /// `graph.len()` steps, which cannot happen while the parent slots encode
    /// a forest.
    pub fn path(graph: &Vec<u64>, start: u64) -> (r: Option<Vec<u64>>)
        requires
            0 < start < graph@.len(),
            forall|i: int| 0 <= i < graph@.len() ==> graph@[i] < graph@.len(),
        ensures
            (match r {
                Some(p) => Some(p@),
                None => None::<Seq<u64>>,
            }) == chain(graph@, start, graph@.len() as nat),
            match r {
                Some(p) => {
                    &&& p@.len() >= 1
                    &&& p@[0] == start
                    &&& forall|i: int| 0 <= i < p@.len() ==> 0 < #[trigger] p@[i] < graph@.len()
                    &&& forall|i: int|
                        0 <= i < p@.len() - 1 ==> p@[i + 1] == graph@[#[trigger] p@[i] as int]
                    &&& graph@[p@[p@.len() - 1] as int] == 0
                },
                None => true,
            },
    {
        let mut p: Vec<u64> = Vec::new();
        p.push(start);
        let mut cur: u64 = start;
        let bound = graph.len();
        let mut steps: usize = 0;
        loop
            invariant
                graph@.len() == bound,
                forall|i: int| 0 <= i < graph@.len() ==> graph@[i] < graph@.len(),
                p@.len() >= 1,
                p@[0] == start,
                forall|i: int| 0 <= i < p@.len() ==> 0 < #[trigger] p@[i] < graph@.len(),
                forall|i: int|
                    0 <= i < p@.len() - 1 ==> p@[i + 1] == graph@[#[trigger] p@[i] as int],
                cur == p@[p@.len() - 1],
                steps <= bound,
                chain(graph@, start, bound as nat) == (match chain(
                    graph@,
                    cur,
                    (bound - steps) as nat,
                ) {
                    None => None::<Seq<u64>>,
                    Some(rest) => Some(p@.drop_last() + rest),
                }),
            decreases bound - steps,
        {
            let next = graph[cur as usize];
            if next == 0 {
                proof {
                    assert(chain(graph@, cur, (bound - steps) as nat) == Some(seq![cur]));
                    assert(p@.drop_last() + seq![cur] =~= p@);
                }
                return Some(p);
            }
            if steps >= bound {
                proof {
                    assert(chain(graph@, cur, 0) is None);
                }
                return None;
            }
            proof {
                let rest_opt = chain(graph@, next, (bound - steps - 1) as nat);
                assert(chain(graph@, cur, (bound - steps) as nat) == (match rest_opt {
                    None => None::<Seq<u64>>,
                    Some(rest) => Some(seq![cur] + rest),
                }));
                if rest_opt is Some {
                    assert(p@.drop_last() + (seq![cur] + rest_opt->Some_0) =~= (p@.push(
                        next,
                    )).drop_last() + rest_opt->Some_0);
                }
            }
            p.push(next);
            cur = next;
            steps = steps + 1;
        }
    }
}

} // verus!
