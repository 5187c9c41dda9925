use vstd::prelude::*;
use vstd::string::*;

use crate::canon::{NEXT_NODE_VAR, RELATION_VAR};
use crate::cypher::{CypherQuery, QueryView};
use crate::digest::UID_KEY;
use crate::error::Error;
use crate::item::{Item, ItemView};
use crate::node::{EntityView, Node};
use crate::rows::{spec_get, Inner, InnerView, Row, Rows};
use crate::strorder::str_eq;

verus! {

/// A directed path through the adjacency the engine has learned: every hop
/// goes from an expanded node to one of the neighbors the backend reported
/// for it.
pub open spec fn is_learned_path(
    learned: Map<Seq<char>, Seq<Seq<char>>>,
    p: Seq<Seq<char>>,
) -> bool {
    p.len() >= 1 && forall|i: int|
        0 <= i < p.len() - 1 ==> learned.dom().contains(#[trigger] p[i]) && learned[p[i]].contains(
            p[i + 1],
        )
}

/// Whether an expansion answer is well formed for the node `cur`: each row
/// holds a relation inner and a neighbor inner, both carry identities, and
/// the relation's identity is exactly `cur` followed by the neighbor's —
/// anything else means the backend substituted an edge.
pub open spec fn expansion_ok(cur: Seq<char>, rows: Seq<Seq<InnerView>>) -> bool {
    forall|j: int|
        0 <= j < rows.len() ==> (#[trigger] rows[j]).len() == 2 && spec_get(
            rows[j][1].properties,
            UID_KEY@,
        ) is Some && spec_get(rows[j][0].properties, UID_KEY@) == Some(
            cur + spec_get(rows[j][1].properties, UID_KEY@)->Some_0,
        )
}

/// The neighbor identities an expansion answer reports, in row order.
pub open spec fn expansion_neighbors(rows: Seq<Seq<InnerView>>) -> Seq<Seq<char>> {
    rows.map_values(|row: Seq<InnerView>| spec_get(row[1].properties, UID_KEY@)->Some_0)
}


/// The emitted row lists the inners of a learned path from source to
/// destination, in order.
pub open spec fn is_result_path(s: PathFinder, rows: Seq<Seq<InnerView>>, p: Seq<Seq<char>>) -> bool {
    &&& is_learned_path(s.learned(), p)
    &&& p[0] == s.src()
    &&& p.last() == s.dst()
    &&& rows.len() == 1
    &&& rows[0].len() == p.len()
    &&& forall|i: int| 0 <= i < p.len() ==> #[trigger] rows[0][i] == s.discovered()[p[i]].0
}

/// The result presents one learned source-to-destination path of minimum
/// hop count: no learned path between the two is shorter.
pub open spec fn shortest_found(s: PathFinder, rows: Seq<Seq<InnerView>>) -> bool {
    exists|p: Seq<Seq<char>>|
        #[trigger] is_result_path(s, rows, p) && (forall|q: Seq<Seq<char>>|
            #[trigger] is_learned_path(s.learned(), q) && q[0] == s.src() && q.last() == s.dst()
                ==> q.len() >= p.len())
}

/// No learned path leads from the source to the destination.
pub open spec fn no_learned_path(s: PathFinder) -> bool {
    forall|q: Seq<Seq<char>>|
        !(#[trigger] is_learned_path(s.learned(), q) && q[0] == s.src() && q.last() == s.dst())
}

/// What one engine step asks for next.
pub enum PathStep {
    /// The shortest path was found; this is the result to return.
    Found(Rows),
    /// Expand the frontier: run this read and feed its decrypted rows back.
    Expand(CypherQuery),
    /// The whole reachable region was searched and the destination is not
    /// in it; the result is empty.
    Exhausted(Rows),
}

/// The breadth-first shortest-path engine. It works over encrypted graph
/// data by asking its driver to run one neighbor-expansion read per step;
/// all decisions, checks and bookkeeping stay here.
pub struct PathFinder {
    queue: Vec<String>,
    visited: Vec<(String, (Inner, Option<String>))>,
    src_uid: String,
    dst_uid: String,
    pending: Option<String>,
    finished: bool,
    learned: Ghost<Map<Seq<char>, Seq<Seq<char>>>>,
    depth: Ghost<Map<Seq<char>, nat>>,
    vmap: Ghost<Map<Seq<char>, (InnerView, Option<Seq<char>>)>>,
}

impl PathFinder {
    /// The adjacency learned so far: each expanded node's reported
    /// out-neighbors, in the order the backend returned them.
    pub closed spec fn learned(&self) -> Map<Seq<char>, Seq<Seq<char>>> {
        self.learned@
    }

    /// The discovered nodes: each identity's inner and predecessor.
    pub closed spec fn discovered(&self) -> Map<Seq<char>, (InnerView, Option<Seq<char>>)> {
        self.vmap@
    }

    /// The source identity.
    pub closed spec fn src(&self) -> Seq<char> {
        self.src_uid@
    }

    /// The destination identity.
    pub closed spec fn dst(&self) -> Seq<char> {
        self.dst_uid@
    }

    /// Whether the engine handed out an expansion read and awaits its rows.
    pub closed spec fn awaiting(&self) -> bool {
        self.pending is Some
    }

    /// The node the engine awaits an expansion for.
    pub closed spec fn pending_uid(&self) -> Seq<char> {
        self.pending->0@
    }

    /// Whether the search has ended.
    pub closed spec fn is_done(&self) -> bool {
        self.finished
    }

    /// The engine's internal consistency; established by the constructor
    /// and preserved by every step.
    #[verifier::opaque]
    pub closed spec fn wf(&self) -> bool {
        let vm = self.vmap@;
        let dp = self.depth@;
        let ln = self.learned@;
        let q = self.queue;
        let vs = self.visited;
        &&& forall|i: int|
            0 <= i < vs.len() ==> vm.dom().contains((#[trigger] vs[i]).0@) && vm[vs[i].0@] == (
                (vs[i].1.0)@,
                vs[i].1.1.deep_view(),
            )
        &&& forall|u: Seq<char>|
            vm.dom().contains(u) ==> exists|i: int| 0 <= i < vs.len() && (#[trigger] vs[i]).0@ == u
        &&& forall|i: int, j: int| 0 <= i < j < vs.len() ==> (#[trigger] vs[i]).0@ != (#[trigger] vs[j]).0@
        &&& vm.dom().contains(self.src_uid@)
        &&& vm[self.src_uid@].1 is None
        &&& dp.dom().contains(self.src_uid@) && dp[self.src_uid@] == 0
        &&& forall|u: Seq<char>| #[trigger] vm.dom().contains(u) <==> dp.dom().contains(u)
        &&& forall|u: Seq<char>|
            vm.dom().contains(u) && u != self.src_uid@ ==> (#[trigger] vm[u]).1 is Some
                && ln.dom().contains(vm[u].1->0) && ln[vm[u].1->0].contains(u) && vm.dom().contains(
                vm[u].1->0,
            ) && dp[u] == dp[vm[u].1->0] + 1
        &&& forall|u: Seq<char>| vm.dom().contains(u) && (#[trigger] vm[u]).1 is None ==> u == self.src_uid@
        &&& forall|i: int|
            0 <= i < q.len() ==> vm.dom().contains((#[trigger] q[i])@) && !ln.dom().contains(
                q[i]@,
            )
        &&& forall|i: int, j: int| 0 <= i < j < q.len() ==> (#[trigger] q[i])@ != (#[trigger] q[j])@
        &&& match self.pending {
            Some(c) => vm.dom().contains(c@) && c@ != self.dst_uid@ && !ln.dom().contains(c@)
                && (forall|i: int| 0 <= i < q.len() ==> (#[trigger] q[i])@ != c@),
            None => true,
        }
        &&& forall|u: Seq<char>| #[trigger] ln.dom().contains(u) ==> vm.dom().contains(u)
        &&& forall|u: Seq<char>|
            #[trigger] vm.dom().contains(u) ==> ln.dom().contains(u) || (exists|i: int|
                0 <= i < q.len() && (#[trigger] q[i])@ == u) || (self.pending is Some
                && self.pending->0@ == u)
        &&& !ln.dom().contains(self.dst_uid@)
        &&& forall|u: Seq<char>, k: int|
            ln.dom().contains(u) && 0 <= k < ln[u].len() ==> vm.dom().contains(
                #[trigger] ln[u][k],
            )
        &&& forall|i: int, j: int|
            0 <= i <= j < q.len() ==> dp[(#[trigger] q[i])@] <= dp[(#[trigger] q[j])@] && dp[q[j]@]
                <= dp[q[i]@] + 1
        &&& forall|u: Seq<char>, i: int|
            #[trigger] ln.dom().contains(u) && 0 <= i < q.len() ==> dp[u] <= dp[(#[trigger] q[i])@]
        &&& match self.pending {
            Some(c) => (forall|i: int|
                0 <= i < q.len() ==> dp[c@] <= dp[(#[trigger] q[i])@] && dp[q[i]@] <= dp[c@] + 1)
                && (forall|u: Seq<char>|
                #[trigger] ln.dom().contains(u) ==> dp[u] <= dp[c@] || u == c@),
            None => true,
        }
        &&& forall|u: Seq<char>, k: int|
            ln.dom().contains(u) && 0 <= k < ln[u].len() ==> dp[#[trigger] ln[u][k]] <= dp[u] + 1
    }

    /// Starts a search from a bound source towards a destination identity.
    pub fn start(src_uid: String, src_inner: Inner, dst_uid: String) -> (r: Self)
        ensures
            r.wf(),
            !r.awaiting(),
            !r.is_done(),
            r.src() == src_uid@,
            r.dst() == dst_uid@,
            r.learned() == Map::<Seq<char>, Seq<Seq<char>>>::empty(),
    {
        let mut queue: Vec<String> = Vec::new();
        queue.push(src_uid.clone());
        let mut visited: Vec<(String, (Inner, Option<String>))> = Vec::new();
        let ghost iv = src_inner@;
        visited.push((src_uid.clone(), (src_inner, None)));
        let ghost su = src_uid@;
        let r = PathFinder {
            queue,
            visited,
            src_uid,
            dst_uid,
            pending: None,
            finished: false,
            learned: Ghost(Map::empty()),
            depth: Ghost(Map::empty().insert(su, 0nat)),
            vmap: Ghost(Map::empty().insert(su, (iv, None))),
        };
        proof {
            reveal(PathFinder::wf);
            assert forall|u: Seq<char>| r.vmap@.dom().contains(u) implies exists|i: int|
                0 <= i < r.visited.len() && (#[trigger] r.visited[i]).0@ == u by {
                assert(r.visited[0].0@ == u);
            }
            assert forall|u: Seq<char>|
                #[trigger] r.vmap@.dom().contains(u) implies r.learned@.dom().contains(u) || (
            exists|i: int| 0 <= i < r.queue.len() && (#[trigger] r.queue[i])@ == u) || (r.pending
                is Some && r.pending->0@ == u) by {
                assert(r.queue[0]@ == u);
            }
        }
        r
    }

    fn find_visited(&self, uid: &str) -> (r: Option<usize>)
        ensures
            match r {
                Some(i) => i < self.visited.len() && self.visited[i as int].0@ == uid@,
                None => forall|i: int|
                    0 <= i < self.visited.len() ==> (#[trigger] self.visited[i as int]).0@ != uid@,
            },
    {
        let mut i: usize = 0;
        while i < self.visited.len()
            invariant
                0 <= i <= self.visited.len(),
                forall|j: int| 0 <= j < i ==> (#[trigger] self.visited[j]).0@ != uid@,
            decreases self.visited.len() - i,
        {
            if str_eq(self.visited[i].0.as_str(), uid) {
                return Some(i);
            }
            i = i + 1;
        }
        None
    }

    /// Walks predecessor pointers back from the destination and emits the
    /// path, source first.
    fn reconstruct(&self) -> (r: (Row, Ghost<Seq<Seq<char>>>))
        requires
            self.wf(),
            self.discovered().dom().contains(self.dst()),
        ensures
            is_learned_path(self.learned(), r.1@),
            r.1@[0] == self.src(),
            r.1@.last() == self.dst(),
            r.0@.len() == r.1@.len(),
            forall|i: int|
                0 <= i < r.1@.len() ==> #[trigger] r.0@[i] == self.discovered()[r.1@[i]].0,
            r.1@.len() == self.depth@[self.dst()] + 1,
    {
        let ghost vm = self.vmap@;
        let ghost dp = self.depth@;
        let ghost ln = self.learned@;
        let mut rev: Vec<Inner> = Vec::new();
        let mut cur: String = self.dst_uid.clone();
        let ghost mut p: Seq<Seq<char>> = seq![self.dst_uid@];

        let mut idx = match self.find_visited(cur.as_str()) {
            Some(i) => i,
            None => {
                proof {
                    reveal(PathFinder::wf);
                    let u = self.dst_uid@;
                    assert(exists|i: int|
                        0 <= i < self.visited.len() && (#[trigger] self.visited[i]).0@ == u);
                    assert(false);
                }
                0
            },
        };
        proof {
            reveal(PathFinder::wf);
        }
        loop
            invariant_except_break
                self.wf(),
                vm == self.vmap@,
                dp == self.depth@,
                ln == self.learned@,
                idx < self.visited.len(),
                self.visited[idx as int].0@ == cur@,
                vm.dom().contains(cur@),
                p.len() >= 1,
                p[0] == cur@,
                p.last() == self.dst_uid@,
                rev.len() + 1 == p.len(),
                forall|i: int|
                    0 <= i < rev.len() ==> #[trigger] rev[i]@ == vm[p[p.len() - 1 - i]].0,
                forall|i: int| 0 <= i < p.len() ==> vm.dom().contains(#[trigger] p[i]),
                forall|i: int|
                    0 <= i < p.len() - 1 ==> ln.dom().contains(#[trigger] p[i])
                        && ln[p[i]].contains(p[i + 1]),
                dp[cur@] + p.len() == dp[self.dst_uid@] + 1,
            ensures
                rev.len() == p.len(),
                p[0] == self.src_uid@,
                p.last() == self.dst_uid@,
                forall|i: int|
                    0 <= i < rev.len() ==> #[trigger] rev[i]@ == vm[p[p.len() - 1 - i]].0,
                forall|i: int| 0 <= i < p.len() ==> vm.dom().contains(#[trigger] p[i]),
                forall|i: int|
                    0 <= i < p.len() - 1 ==> ln.dom().contains(#[trigger] p[i])
                        && ln[p[i]].contains(p[i + 1]),
                p.len() == dp[self.dst_uid@] + 1,
            decreases self.depth@[cur@],
        {
            let entry = &self.visited[idx];
            match &entry.1.1 {
                None => {
                    // Only the source has no predecessor.
                    rev.push(entry.1.0.clone());
                    proof {
                        reveal(PathFinder::wf);
                        assert(cur@ == self.src_uid@);
                        assert(dp[cur@] == 0);
                    }
                    break;
                },
                Some(prev) => {
                    rev.push(entry.1.0.clone());
                    let prev = prev.clone();
                    proof {
                        reveal(PathFinder::wf);
                        assert(vm[cur@].1 == Some(prev@));
                        assert(ln.dom().contains(prev@) && ln[prev@].contains(cur@));
                        assert(dp[cur@] == dp[prev@] + 1);
                        p = seq![prev@] + p;
                    }
                    cur = prev;
                    idx = match self.find_visited(cur.as_str()) {
                        Some(i) => i,
                        None => {
                            proof {
                                reveal(PathFinder::wf);
                                let u = cur@;
                                assert(exists|i: int|
                                    0 <= i < self.visited.len() && (#[trigger] self.visited[i]).0@
                                        == u);
                                assert(false);
                            }
                            0
                        },
                    };
                },
            }
        }
        // Reverse into source-first order.
        let mut inners: Vec<Inner> = Vec::new();
        let mut k: usize = rev.len();
        while k > 0
            invariant
                0 <= k <= rev.len(),
                rev.len() == p.len(),
                inners.len() == rev.len() - k,
                forall|i: int|
                    0 <= i < inners.len() ==> #[trigger] inners[i]@ == rev[rev.len() - 1 - i]@,
            decreases k,
        {
            k = k - 1;
            inners.push(rev[k].clone());
        }
        proof {
            assert(forall|i: int|
                0 <= i < p.len() ==> #[trigger] inners[i]@ == vm[p[i]].0);
        }
        let row = Row::new(inners);
        (row, Ghost(p))
    }

    /// Runs one scheduling decision: finish with the found path, finish
    /// empty when the frontier is exhausted, or ask for one expansion.
    #[verifier::rlimit(100)]
    pub fn step(&mut self) -> (r: PathStep)
        requires
            old(self).wf(),
            !old(self).awaiting(),
            !old(self).is_done(),
        ensures
            final(self).wf(),
            final(self).learned() == old(self).learned(),
            final(self).src() == old(self).src(),
            final(self).dst() == old(self).dst(),
            match r {
                PathStep::Found(rows) => final(self).is_done() && rows@.len() == 1
                    && shortest_found(*final(self), rows@),
                PathStep::Exhausted(rows) => final(self).is_done() && rows@.len() == 0
                    && no_learned_path(*final(self)),
                PathStep::Expand(query) => final(self).awaiting() && query@
                    == expansion_query_view(final(self).pending_uid()),
            },
    {
        if self.queue.len() == 0 {
            self.finished = true;
            let empty = Rows::new_empty();
            proof {
                reveal(PathFinder::wf);
                let ln = self.learned@;
                let dp = self.depth@;
                assert forall|u: Seq<char>| #[trigger] dp.dom().contains(u) implies ln.dom().contains(u) by {
                    assert(self.vmap@.dom().contains(u));
                }
                lemma_no_path_when_exhausted(ln, dp, self.vmap@, self.src_uid@, self.dst_uid@);
            }
            return PathStep::Exhausted(empty);
        }
        if str_eq(self.queue[0].as_str(), self.dst_uid.as_str()) {
            proof {
                reveal(PathFinder::wf);
                assert(self.vmap@.dom().contains(self.queue[0]@));
            }
            let (row, p) = self.reconstruct();
            let mut rows = Rows::new_empty();
            rows.push(row);
            self.finished = true;
            proof {
                assert(self.queue == old(self).queue);
                assert(self.visited == old(self).visited);
                assert(self.pending == old(self).pending);
                assert(self.learned@ == old(self).learned@);
                assert(self.vmap@ == old(self).vmap@);
                assert(self.depth@ == old(self).depth@);
                assert(self.src_uid == old(self).src_uid);
                assert(self.dst_uid == old(self).dst_uid);
                assert(self.wf()) by {
                    reveal(PathFinder::wf);
                }
                assert(is_result_path(*self, rows@, p@));
                assert forall|q: Seq<Seq<char>>|
                    #[trigger] is_learned_path(self.learned@, q) && q[0] == self.src_uid@
                        && q.last() == self.dst_uid@ implies q.len() >= p@.len() by {
                    reveal(PathFinder::wf);
                    lemma_learned_path_depth(self.learned@, self.depth@, self.vmap@, self.src_uid@, q);
                }
                assert(shortest_found(*self, rows@));
            }
            return PathStep::Found(rows);
        }
        let ghost pre = *self;
        let cur = self.queue.remove(0);
        let c = cur.clone();
        self.pending = Some(cur);
        proof {
            Self::lemma_dequeue_wf(pre, *self, c@);
        }
        let mut props: Vec<(String, String)> = Vec::new();
        props.push((UID_KEY.to_owned(), c.clone()));
        let node = Node::new(None, Vec::new(), props);
        let relation = Node::new_with_var(RELATION_VAR);
        let next = Node::new_with_var(NEXT_NODE_VAR);
        let mut ret: Vec<Item> = Vec::new();
        ret.push(Item::Var(RELATION_VAR.to_owned()));
        ret.push(Item::Var(NEXT_NODE_VAR.to_owned()));
        let query = CypherQuery {
            node: Some(node),
            relation: Some(relation),
            next_node: Some(next),
            use_match: true,
            use_create: false,
            return_list: Some(ret),
            set_list: None,
            remove_list: None,
            delete_list: None,
            find_shortest_path: false,
        };
        proof {
            assert(query@ =~= expansion_query_view(self.pending->0@));
        }
        PathStep::Expand(query)
    }



    /// Popping the frontier's front node and marking it pending keeps the
    /// engine consistent.
    proof fn lemma_dequeue_wf(pre: PathFinder, post: PathFinder, c: Seq<char>)
        requires
            pre.wf(),
            pre.pending is None,
            pre.queue.len() > 0,
            pre.queue[0]@ == c,
            c != pre.dst_uid@,
            post.queue@ == pre.queue@.remove(0),
            post.pending is Some && post.pending->0@ == c,
            post.visited == pre.visited,
            post.src_uid == pre.src_uid,
            post.dst_uid == pre.dst_uid,
            post.learned@ == pre.learned@,
            post.depth@ == pre.depth@,
            post.vmap@ == pre.vmap@,
        ensures
            post.wf(),
    {
        reveal(PathFinder::wf);
        let vm = post.vmap@;
        let ln = post.learned@;
        let dp = post.depth@;
        assert(forall|i: int|
            0 <= i < post.queue.len() ==> #[trigger] post.queue[i] == pre.queue[i + 1]);
        assert forall|u: Seq<char>|
            #[trigger] vm.dom().contains(u) implies ln.dom().contains(u) || (exists|i: int|
            0 <= i < post.queue.len() && (#[trigger] post.queue[i])@ == u) || (post.pending
            is Some && post.pending->0@ == u) by {
            if !ln.dom().contains(u) {
                let k = choose|k: int|
                    0 <= k < pre.queue.len() && (#[trigger] pre.queue[k])@ == u;
                if k == 0 {
                } else {
                    assert(post.queue[k - 1]@ == u);
                }
            }
        }
        assert forall|u: Seq<char>| #[trigger] ln.dom().contains(u) implies dp[u] <= dp[c]
            || u == c by {
            assert(dp[u] <= dp[pre.queue[0]@]);
        }
    }

    /// Opening an expansion: giving the pending node an empty learned entry
    /// moves the engine into the mid-feed shape.
    proof fn lemma_begin_feeding(pre: PathFinder, post: PathFinder, c: Seq<char>)
        requires
            pre.wf(),
            pre.pending is Some && pre.pending->0@ == c,
            post.learned@ == pre.learned@.insert(c, Seq::empty()),
            post.queue == pre.queue,
            post.visited == pre.visited,
            post.src_uid == pre.src_uid,
            post.dst_uid == pre.dst_uid,
            post.pending == pre.pending,
            post.depth@ == pre.depth@,
            post.vmap@ == pre.vmap@,
        ensures
            post.wf_feeding(c),
    {
        reveal(PathFinder::wf);
        reveal(PathFinder::wf_feeding);
        let vm = post.vmap@;
        let ln = post.learned@;
        let dp = post.depth@;
        assert forall|u: Seq<char>|
            vm.dom().contains(u) && u != post.src_uid@ implies (#[trigger] vm[u]).1 is Some
                && ln.dom().contains(vm[u].1->0) && ln[vm[u].1->0].contains(u) && vm.dom().contains(
            vm[u].1->0) && dp[u] == dp[vm[u].1->0] + 1 by {
            assert(pre.learned@.dom().contains(vm[u].1->0));
            assert(vm[u].1->0 != c) by {
                assert(!pre.learned@.dom().contains(c));
            }
            assert(ln[vm[u].1->0] == pre.learned@[vm[u].1->0]);
        }
        assert forall|u: Seq<char>, k: int|
            ln.dom().contains(u) && 0 <= k < ln[u].len() implies vm.dom().contains(
            #[trigger] ln[u][k]) && dp[ln[u][k]] <= dp[u] + 1 by {
            assert(u != c ==> ln[u] == pre.learned@[u]);
            assert(ln[c].len() == 0);
        }
    }

    /// Mid-feed consistency implies full consistency once the pending mark
    /// is dropped.
    proof fn lemma_end_feeding(pre: PathFinder, post: PathFinder, cu: Seq<char>)
        requires
            pre.wf_feeding(cu),
            post.pending is None,
            post.queue == pre.queue,
            post.visited == pre.visited,
            post.src_uid == pre.src_uid,
            post.dst_uid == pre.dst_uid,
            post.learned@ == pre.learned@,
            post.depth@ == pre.depth@,
            post.vmap@ == pre.vmap@,
            post.finished == pre.finished,
        ensures
            post.wf(),
    {
        reveal(PathFinder::wf);
        reveal(PathFinder::wf_feeding);
    }

    /// Records one verified edge out of `cur`: the neighbor joins the
    /// learned adjacency, and joins the frontier when seen the first time.
    #[verifier::rlimit(100)]
    fn absorb_neighbor(&mut self, cur: &String, next_uid: &String, neighbor: &Inner)
        requires
            old(self).wf_feeding(cur@),
        ensures
            final(self).wf_feeding(cur@),
            final(self).learned@ == old(self).learned@.insert(
                cur@,
                old(self).learned@[cur@].push(next_uid@),
            ),
            final(self).pending == old(self).pending,
            final(self).finished == old(self).finished,
            final(self).src_uid@ == old(self).src_uid@,
            final(self).dst_uid@ == old(self).dst_uid@,
    {
        proof {
            reveal(PathFinder::wf_feeding);
        }
        let ghost cu = cur@;
        let ghost old_learned = self.learned@;
        proof {
            self.learned@ = self.learned@.insert(cu, old_learned[cu].push(next_uid@));
            assert(self.learned@.dom() =~= old_learned.dom());
            assert(forall|u: Seq<char>|
                self.learned@.dom().contains(u) && u != cu ==> self.learned@[u]
                    == old_learned[u]);
            assert(forall|w: Seq<char>|
                old_learned[cu].contains(w) ==> #[trigger] self.learned@[cu].contains(w)) by {
                assert forall|w: Seq<char>|
                    old_learned[cu].contains(w) implies #[trigger] self.learned@[cu].contains(
                    w) by {
                    let k = choose|k: int|
                        0 <= k < old_learned[cu].len() && old_learned[cu][k] == w;
                    assert(self.learned@[cu][k] == w);
                }
            }
            assert(self.learned@[cu].last() == next_uid@);
        }
        match self.find_visited(next_uid.as_str()) {
            Some(i) => {
                proof {
                    assert(self.vmap@.dom().contains(self.visited[i as int].0@));
                    assert(self.vmap@.dom().contains(next_uid@));
                    let q = self.queue;
                    let dp = self.depth@;
                    if !old_learned.dom().contains(next_uid@) && next_uid@ != cu {
                        let k = choose|k: int|
                            0 <= k < q.len() && (#[trigger] q[k])@ == next_uid@;
                        assert(dp[next_uid@] <= dp[cu] + 1);
                    }
                    assert(dp.dom().contains(next_uid@));
                    assert(dp[next_uid@] <= dp[cu] + 1);
                    assert forall|u: Seq<char>, k: int|
                        self.learned@.dom().contains(u) && 0 <= k < self.learned@[u].len()
                            implies self.vmap@.dom().contains(#[trigger] self.learned@[u][k])
                            && dp[self.learned@[u][k]] <= dp[u] + 1 by {
                        if u == cu && k == self.learned@[cu].len() - 1 {
                        } else {
                            assert(self.learned@[u][k] == old_learned[u][k]);
                        }
                    }
                    assert(self.wf_feeding(cu)) by {
                        reveal(PathFinder::wf_feeding);
                    }
                }
            },
            None => {
                proof {
                    if self.vmap@.dom().contains(next_uid@) {
                        let u = next_uid@;
                        assert(exists|i: int|
                            0 <= i < self.visited.len() && (#[trigger] self.visited[i]).0@ == u);
                        assert(false);
                    }
                }
                let ghost old_vs = self.visited;
                let ghost old_q = self.queue;
                let ghost old_vm = self.vmap@;
                let ghost old_dp = self.depth@;
                self.queue.push(next_uid.clone());
                self.visited.push((next_uid.clone(), (neighbor.clone(), Some(cur.clone()))));
                proof {
                    self.vmap@ = self.vmap@.insert(next_uid@, (neighbor@, Some(cu)));
                    self.depth@ = self.depth@.insert(next_uid@, (old_dp[cu] + 1) as nat);
                    let vs = self.visited;
                    let q = self.queue;
                    let vm = self.vmap@;
                    let dp = self.depth@;
                    let nu = next_uid@;
                    assert(forall|i: int| 0 <= i < old_vs.len() ==> vs[i] == old_vs[i]);
                    assert(vs[vs.len() - 1].0@ == nu);
                    assert(forall|i: int| 0 <= i < old_q.len() ==> q[i] == old_q[i]);
                    assert(q[q.len() - 1]@ == nu);
                    // The old keys are all discovered, so the new key differs.
                    assert forall|i: int, j: int|
                        0 <= i < j < vs.len() implies (#[trigger] vs[i]).0@ != (
                    #[trigger] vs[j]).0@ by {
                        if j == vs.len() - 1 {
                            assert(old_vm.dom().contains(vs[i].0@));
                        }
                    }
                    assert forall|u: Seq<char>| vm.dom().contains(u) implies exists|i: int|
                        0 <= i < vs.len() && (#[trigger] vs[i]).0@ == u by {
                        if u == nu {
                            assert(vs[vs.len() - 1].0@ == u);
                        } else {
                            let i = choose|i: int|
                                0 <= i < old_vs.len() && (#[trigger] old_vs[i]).0@ == u;
                            assert(vs[i].0@ == u);
                        }
                    }
                    assert forall|i: int, j: int|
                        0 <= i < j < q.len() implies (#[trigger] q[i])@ != (#[trigger] q[j])@ by {
                        if j == q.len() - 1 {
                            assert(old_vm.dom().contains(q[i]@));
                        }
                    }
                    assert forall|u: Seq<char>|
                        #[trigger] vm.dom().contains(u) implies self.learned@.dom().contains(u)
                            || (exists|i: int| 0 <= i < q.len() && (#[trigger] q[i])@ == u) by {
                        if u == nu {
                            assert(q[q.len() - 1]@ == u);
                        } else if !self.learned@.dom().contains(u) {
                            let i = choose|i: int|
                                0 <= i < old_q.len() && (#[trigger] old_q[i])@ == u;
                            assert(q[i]@ == u);
                        }
                    }
                    // Depth facts for the fresh frontier node.
                    assert(dp[nu] == old_dp[cu] + 1);
                    assert(forall|u: Seq<char>|
                        old_dp.dom().contains(u) ==> dp.dom().contains(u) && dp[u] == old_dp[u]);
                    assert forall|i: int, j: int|
                        0 <= i <= j < q.len() implies dp[(#[trigger] q[i])@] <= dp[(
                    #[trigger] q[j])@] && dp[q[j]@] <= dp[q[i]@] + 1 by {
                        if j == q.len() - 1 && i < j {
                            assert(dp[q[i]@] >= dp[cu]);
                            assert(dp[q[i]@] <= dp[cu] + 1);
                        }
                    }
                    assert forall|u: Seq<char>, k: int|
                        self.learned@.dom().contains(u) && 0 <= k < self.learned@[u].len()
                            implies vm.dom().contains(#[trigger] self.learned@[u][k])
                            && dp[self.learned@[u][k]] <= dp[u] + 1 by {
                        if u == cu && k == self.learned@[cu].len() - 1 {
                        } else {
                            assert(self.learned@[u][k] == old_learned[u][k]);
                            assert(old_vm.dom().contains(old_learned[u][k]));
                        }
                    }
                    assert forall|u: Seq<char>|
                        vm.dom().contains(u) && u != self.src_uid@ implies (
                    #[trigger] vm[u]).1 is Some && self.learned@.dom().contains(vm[u].1->0)
                        && self.learned@[vm[u].1->0].contains(u) && vm.dom().contains(vm[u].1->0)
                        && dp[u] == dp[vm[u].1->0] + 1 by {
                        if u == nu {
                            assert(vm[u].1 == Some(cu));
                            assert(self.learned@[cu].last() == nu);
                        } else {
                            assert(vm[u] == old_vm[u]);
                            if old_vm[u].1->0 == cu {
                                assert(old_learned[cu].contains(u));
                                assert(self.learned@[cu].contains(u));
                            } else {
                                let pv = old_vm[u].1->0;
                                assert(self.learned@[pv] == old_learned[pv]);
                            }
                        }
                    }
                    assert(self.wf_feeding(cu)) by {
                        reveal(PathFinder::wf_feeding);
                    }
                }
            },
        }
    }

    /// Takes the decrypted rows of the pending expansion: checks each edge's
    /// composite identity against the expanded node, records the learned
    /// neighbors, and enqueues the ones not seen before. Any malformed or
    /// substituted edge surfaces as tampering.
    #[verifier::rlimit(100)]
    pub fn feed(&mut self, rows: &Rows) -> (r: Result<(), Error>)
        requires
            old(self).wf(),
            old(self).awaiting(),
            !old(self).is_done(),
        ensures
            final(self).wf(),
            final(self).src() == old(self).src(),
            final(self).dst() == old(self).dst(),
            match r {
                Ok(_) => expansion_ok(old(self).pending_uid(), rows@) && !final(self).awaiting()
                    && final(self).learned() == old(self).learned().insert(
                    old(self).pending_uid(),
                    expansion_neighbors(rows@),
                ),
                Err(e) => e == Error::Tamper && !expansion_ok(old(self).pending_uid(), rows@),
            },
    {
        let cur = match &self.pending {
            Some(c) => c.clone(),
            None => {
                proof {
                    assert(false);
                }
                return Err(Error::Tamper);
            },
        };
        let ghost cu = cur@;
        let src_rows = rows.rows();
        let mut j: usize = 0;
        proof {
            let pre = *self;
            self.learned@ = self.learned@.insert(cu, Seq::empty());
            Self::lemma_begin_feeding(pre, *self, cu);
            assert(expansion_neighbors(rows@.subrange(0, 0)) =~= Seq::<Seq<char>>::empty());
            assert(self.learned@ =~= old(self).learned@.insert(
                cu,
                expansion_neighbors(rows@.subrange(0, 0)),
            ));
        }
        while j < src_rows.len()
            invariant
                src_rows.deep_view() == rows@,
                0 <= j <= src_rows.len(),
                self.wf_feeding(cu),
                self.pending == Some(cur),
                cur@ == cu,
                old(self).pending_uid() == cu,
                self.src_uid@ == old(self).src_uid@,
                self.dst_uid@ == old(self).dst_uid@,
                self.finished == old(self).finished,
                expansion_ok(cu, rows@.subrange(0, j as int)),
                self.learned@ == old(self).learned@.insert(
                    cu,
                    expansion_neighbors(rows@.subrange(0, j as int)),
                ),
            decreases src_rows.len() - j,
        {
            let row = &src_rows[j];
            let inners = row.inners();
            if inners.len() != 2 {
                let ghost pre2 = *self;
                self.pending = None;
                proof {
                    assert(rows@[j as int].len() != 2);
                    assert(!expansion_ok(cu, rows@));
                    Self::lemma_end_feeding(pre2, *self, cu);
                }
                return Err(Error::Tamper);
            }
            let r_uid = match inners[0].get(UID_KEY) {
                Some(u) => u.clone(),
                None => {
                    let ghost pre2 = *self;
                    self.pending = None;
                    proof {
                        assert(spec_get(rows@[j as int][0].properties, UID_KEY@) is None);
                        assert(!expansion_ok(cu, rows@));
                        Self::lemma_end_feeding(pre2, *self, cu);
                    }
                    return Err(Error::Tamper);
                },
            };
            let next_uid = match inners[1].get(UID_KEY) {
                Some(u) => u.clone(),
                None => {
                    let ghost pre2 = *self;
                    self.pending = None;
                    proof {
                        assert(spec_get(rows@[j as int][1].properties, UID_KEY@) is None);
                        assert(!expansion_ok(cu, rows@));
                        Self::lemma_end_feeding(pre2, *self, cu);
                    }
                    return Err(Error::Tamper);
                },
            };
            let mut expected = cur.clone();
            expected.append(next_uid.as_str());
            if !str_eq(r_uid.as_str(), expected.as_str()) {
                let ghost pre2 = *self;
                self.pending = None;
                proof {
                    assert(spec_get(rows@[j as int][0].properties, UID_KEY@) == Some(r_uid@));
                    assert(spec_get(rows@[j as int][1].properties, UID_KEY@) == Some(next_uid@));
                    assert(r_uid@ != cu + next_uid@);
                    assert(!expansion_ok(cu, rows@));
                    Self::lemma_end_feeding(pre2, *self, cu);
                }
                return Err(Error::Tamper);
            }
            // The edge checks out; record it and enqueue unseen nodes.
            self.absorb_neighbor(&cur, &next_uid, &inners[1]);
            proof {
                assert(rows@.subrange(0, j + 1 as int).drop_last() =~= rows@.subrange(
                    0,
                    j as int,
                ));
                assert(expansion_neighbors(rows@.subrange(0, j + 1 as int)) =~= expansion_neighbors(
                    rows@.subrange(0, j as int),
                ).push(next_uid@));
                assert(self.learned@ =~= old(self).learned@.insert(
                    cu,
                    expansion_neighbors(rows@.subrange(0, j + 1 as int)),
                ));
            }
            j = j + 1;
        }
        proof {
            assert(rows@.subrange(0, src_rows.len() as int) =~= rows@);
        }
        let ghost pre2 = *self;
        self.pending = None;
        proof {
            Self::lemma_end_feeding(pre2, *self, cu);
        }
        Ok(())
    }

    /// The consistency that holds while an expansion's rows are being taken
    /// in: everything of [`Self::wf`] except that the pending node already
    /// sits in the learned map with the prefix fed so far.
    #[verifier::opaque]
    pub closed spec fn wf_feeding(&self, cu: Seq<char>) -> bool {
        let vm = self.vmap@;
        let dp = self.depth@;
        let ln = self.learned@;
        let q = self.queue;
        let vs = self.visited;
        &&& self.pending is Some && self.pending->0@ == cu
        &&& ln.dom().contains(cu)
        &&& vm.dom().contains(cu)
        &&& cu != self.dst_uid@
        &&& forall|i: int|
            0 <= i < vs.len() ==> vm.dom().contains((#[trigger] vs[i]).0@) && vm[vs[i].0@] == (
                (vs[i].1.0)@,
                vs[i].1.1.deep_view(),
            )
        &&& forall|u: Seq<char>|
            vm.dom().contains(u) ==> exists|i: int| 0 <= i < vs.len() && (#[trigger] vs[i]).0@ == u
        &&& forall|i: int, j: int| 0 <= i < j < vs.len() ==> (#[trigger] vs[i]).0@ != (#[trigger] vs[j]).0@
        &&& vm.dom().contains(self.src_uid@)
        &&& vm[self.src_uid@].1 is None
        &&& dp.dom().contains(self.src_uid@) && dp[self.src_uid@] == 0
        &&& forall|u: Seq<char>| #[trigger] vm.dom().contains(u) <==> dp.dom().contains(u)
        &&& forall|u: Seq<char>|
            vm.dom().contains(u) && u != self.src_uid@ ==> (#[trigger] vm[u]).1 is Some
                && ln.dom().contains(vm[u].1->0) && ln[vm[u].1->0].contains(u) && vm.dom().contains(
                vm[u].1->0,
            ) && dp[u] == dp[vm[u].1->0] + 1
        &&& forall|u: Seq<char>| vm.dom().contains(u) && (#[trigger] vm[u]).1 is None ==> u == self.src_uid@
        &&& forall|i: int|
            0 <= i < q.len() ==> vm.dom().contains((#[trigger] q[i])@) && !ln.dom().contains(
                q[i]@,
            )
        &&& forall|i: int, j: int| 0 <= i < j < q.len() ==> (#[trigger] q[i])@ != (#[trigger] q[j])@
        &&& forall|i: int| 0 <= i < q.len() ==> (#[trigger] q[i])@ != cu
        &&& forall|u: Seq<char>| #[trigger] ln.dom().contains(u) ==> vm.dom().contains(u)
        &&& forall|u: Seq<char>|
            #[trigger] vm.dom().contains(u) ==> ln.dom().contains(u) || (exists|i: int|
                0 <= i < q.len() && (#[trigger] q[i])@ == u)
        &&& !ln.dom().contains(self.dst_uid@)
        &&& forall|u: Seq<char>, k: int|
            ln.dom().contains(u) && 0 <= k < ln[u].len() ==> vm.dom().contains(
                #[trigger] ln[u][k],
            )
        &&& forall|i: int, j: int|
            0 <= i <= j < q.len() ==> dp[(#[trigger] q[i])@] <= dp[(#[trigger] q[j])@] && dp[q[j]@]
                <= dp[q[i]@] + 1
        &&& forall|u: Seq<char>, i: int|
            #[trigger] ln.dom().contains(u) && 0 <= i < q.len() ==> dp[u] <= dp[(#[trigger] q[i])@]
        &&& forall|i: int|
            0 <= i < q.len() ==> dp[cu] <= dp[(#[trigger] q[i])@] && dp[q[i]@] <= dp[cu] + 1
        &&& forall|u: Seq<char>| #[trigger] ln.dom().contains(u) ==> dp[u] <= dp[cu]
        &&& forall|u: Seq<char>, k: int|
            ln.dom().contains(u) && 0 <= k < ln[u].len() ==> dp[#[trigger] ln[u][k]] <= dp[u] + 1
    }
}

/// The plaintext neighbor-expansion read for one node: match it by its
/// identity, follow one outgoing relation, return the relation and the
/// neighbor.
pub open spec fn expansion_query_view(cur: Seq<char>) -> QueryView {
    QueryView {
        node: Some(
            EntityView {
                var_name: None,
                labels: Seq::empty(),
                properties: seq![(UID_KEY@, cur)],
            },
        ),
        relation: Some(
            EntityView {
                var_name: Some(RELATION_VAR@),
                labels: Seq::empty(),
                properties: Seq::empty(),
            },
        ),
        next_node: Some(
            EntityView {
                var_name: Some(NEXT_NODE_VAR@),
                labels: Seq::empty(),
                properties: Seq::empty(),
            },
        ),
        use_match: true,
        use_create: false,
        return_list: Some(seq![ItemView::Var(RELATION_VAR@), ItemView::Var(NEXT_NODE_VAR@)]),
        set_list: None,
        remove_list: None,
        delete_list: None,
        find_shortest_path: false,
    }
}

/// Along any learned path from the source, depth can rise by at most one
/// per hop, so the depth of the endpoint bounds no path from below.
proof fn lemma_learned_path_depth(
    learned: Map<Seq<char>, Seq<Seq<char>>>,
    depth: Map<Seq<char>, nat>,
    vmap: Map<Seq<char>, (InnerView, Option<Seq<char>>)>,
    src: Seq<char>,
    p: Seq<Seq<char>>,
)
    requires
        depth.dom().contains(src),
        depth[src] == 0,
        forall|u: Seq<char>| #[trigger] learned.dom().contains(u) ==> depth.dom().contains(u),
        forall|u: Seq<char>, k: int|
            learned.dom().contains(u) && 0 <= k < learned[u].len() ==> depth.dom().contains(
                #[trigger] learned[u][k],
            ) && depth[learned[u][k]] <= depth[u] + 1,
        is_learned_path(learned, p),
        p[0] == src,
    ensures
        depth.dom().contains(p.last()),
        depth[p.last()] <= p.len() - 1,
    decreases p.len(),
{
    if p.len() == 1 {
    } else {
        let q = p.drop_last();
        assert(is_learned_path(learned, q)) by {
            assert(forall|i: int| 0 <= i < q.len() - 1 ==> #[trigger] q[i] == p[i]);
            assert(forall|i: int|
                0 <= i < q.len() - 1 ==> learned.dom().contains(#[trigger] q[i])
                    && learned[q[i]].contains(q[i + 1]));
        }
        lemma_learned_path_depth(learned, depth, vmap, src, q);
        let u = p[p.len() - 2];
        assert(learned.dom().contains(u));
        assert(learned[u].contains(p.last())) by {
            assert(p[p.len() - 2 + 1] == p.last());
        }
        let k = choose|k: int| 0 <= k < learned[u].len() && learned[u][k] == p.last();
        assert(depth[p.last()] <= depth[u] + 1);
    }
}

/// When the frontier is exhausted, every discovered node was expanded, so
/// a learned path to the never-expanded destination cannot exist.
proof fn lemma_no_path_when_exhausted(
    learned: Map<Seq<char>, Seq<Seq<char>>>,
    depth: Map<Seq<char>, nat>,
    vmap: Map<Seq<char>, (InnerView, Option<Seq<char>>)>,
    src: Seq<char>,
    dst: Seq<char>,
)
    requires
        depth.dom().contains(src),
        depth[src] == 0,
        forall|u: Seq<char>| #[trigger] learned.dom().contains(u) ==> depth.dom().contains(u),
        forall|u: Seq<char>, k: int|
            learned.dom().contains(u) && 0 <= k < learned[u].len() ==> depth.dom().contains(
                #[trigger] learned[u][k],
            ) && depth[learned[u][k]] <= depth[u] + 1,
        forall|u: Seq<char>| #[trigger] depth.dom().contains(u) ==> learned.dom().contains(u),
        !learned.dom().contains(dst),
    ensures
        forall|q: Seq<Seq<char>>|
            !(is_learned_path(learned, q) && q[0] == src && q.last() == dst),
{
    assert forall|q: Seq<Seq<char>>|
        !(is_learned_path(learned, q) && q[0] == src && q.last() == dst) by {
        if is_learned_path(learned, q) && q[0] == src && q.last() == dst {
            lemma_learned_path_depth(learned, depth, vmap, src, q);
            assert(learned.dom().contains(dst));
        }
    }
}


/// The read that binds both endpoints of a shortest-path request under the
/// canonical names and returns them.
pub fn build_endpoints_query(src: Node, dst: Node) -> (r: CypherQuery)
    ensures
        r@ == (QueryView {
            node: Some(EntityView { var_name: Some("n"@), ..src@ }),
            relation: None,
            next_node: Some(EntityView { var_name: Some("m"@), ..dst@ }),
            use_match: true,
            use_create: false,
            return_list: Some(seq![ItemView::Var("n"@), ItemView::Var("m"@)]),
            set_list: None,
            remove_list: None,
            delete_list: None,
            find_shortest_path: false,
        }),
{
    let mut src = src;
    let mut dst = dst;
    src.var_name = Some(crate::canon::NODE_VAR.to_owned());
    dst.var_name = Some(crate::canon::NEXT_NODE_VAR.to_owned());
    let mut ret: Vec<Item> = Vec::new();
    ret.push(Item::Var(crate::canon::NODE_VAR.to_owned()));
    ret.push(Item::Var(crate::canon::NEXT_NODE_VAR.to_owned()));
    let q = CypherQuery {
        node: Some(src),
        relation: None,
        next_node: Some(dst),
        use_match: true,
        use_create: false,
        return_list: Some(ret),
        set_list: None,
        remove_list: None,
        delete_list: None,
        find_shortest_path: false,
    };
    proof {
        assert(q@.return_list->Some_0 =~= seq![ItemView::Var("n"@), ItemView::Var("m"@)]);
    }
    q
}

/// Whether an endpoint lookup bound exactly one source and one destination,
/// each carrying an identity.
pub open spec fn endpoints_ok(rows: Seq<Seq<InnerView>>) -> bool {
    rows.len() == 1 && rows[0].len() == 2 && spec_get(rows[0][0].properties, UID_KEY@) is Some
        && spec_get(rows[0][1].properties, UID_KEY@) is Some
}

impl PathFinder {
    /// Starts a search from the decrypted endpoint lookup: the result must
    /// bind exactly one source and one destination, both with identities;
    /// an absent or ambiguous binding surfaces as tampering.
    pub fn from_endpoints(plain_rows: &Rows) -> (r: Result<PathFinder, Error>)
        ensures
            match r {
                Ok(engine) => {
                    &&& endpoints_ok(plain_rows@)
                    &&& engine.wf()
                    &&& !engine.awaiting()
                    &&& !engine.is_done()
                    &&& Some(engine.src()) == spec_get(plain_rows@[0][0].properties, UID_KEY@)
                    &&& Some(engine.dst()) == spec_get(plain_rows@[0][1].properties, UID_KEY@)
                    &&& engine.learned() == Map::<Seq<char>, Seq<Seq<char>>>::empty()
                },
                Err(e) => e == Error::Tamper && !endpoints_ok(plain_rows@),
            },
    {
        let rows = plain_rows.rows();
        if rows.len() != 1 {
            return Err(Error::Tamper);
        }
        let inners = rows[0].inners();
        if inners.len() != 2 {
            return Err(Error::Tamper);
        }
        let src_uid = match inners[0].get(UID_KEY) {
            Some(u) => u.clone(),
            None => {
                return Err(Error::Tamper);
            },
        };
        let dst_uid = match inners[1].get(UID_KEY) {
            Some(u) => u.clone(),
            None => {
                return Err(Error::Tamper);
            },
        };
        Ok(PathFinder::start(src_uid, inners[0].clone(), dst_uid))
    }
}

} // verus!
