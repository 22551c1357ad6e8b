//! The planner's open list: a binary heap of search nodes, cheapest first,
//! the earlier of two equally cheap nodes first.

use crate::types::GridPos;
use vstd::prelude::*;

verus! {

/// A node of the time-expanded search: a cell at a tick, with the cost of
/// reaching it, the estimated cost through it, the node it was reached from
/// and its number in the order of insertion.
#[derive(Debug, Clone, Copy)]
pub struct SpaceTimeNode {
    pub pos: GridPos,
    pub tick: u64,
    pub g_cost: u128,
    pub f_cost: u128,
    pub parent: Option<(GridPos, u64)>,
    pub seq: u64,
}

/// `a` leaves the open list no later than `b`: it is cheaper, or as cheap
/// and inserted no later.
pub open spec fn node_le(a: SpaceTimeNode, b: SpaceTimeNode) -> bool {
    a.f_cost < b.f_cost || (a.f_cost == b.f_cost && a.seq <= b.seq)
}

/// No node of `open` leaves earlier than `n`.
pub open spec fn leaves_first_of(open: Set<SpaceTimeNode>, n: SpaceTimeNode) -> bool {
    open.contains(n) && forall|m: SpaceTimeNode| open.contains(m) ==> node_le(n, m)
}

/// The node of `open` that leaves first: the cheapest, and among the
/// cheapest the one inserted first.
pub open spec fn first_node(open: Set<SpaceTimeNode>) -> SpaceTimeNode {
    choose|n: SpaceTimeNode| leaves_first_of(open, n)
}

/// Every node of `s` but the root leaves no earlier than its parent in the
/// heap.
pub open spec fn heap_ordered(s: Seq<SpaceTimeNode>) -> bool {
    forall|j: int| 1 <= j < s.len() ==> node_le(s[(j - 1) / 2], #[trigger] s[j])
}

/// No two nodes of `s` have one insertion number, and all numbers are below
/// `bound`.
pub open spec fn seqs_distinct(s: Seq<SpaceTimeNode>, bound: u64) -> bool {
    &&& forall|i: int| 0 <= i < s.len() ==> (#[trigger] s[i]).seq < bound
    &&& forall|i: int, j: int|
        0 <= i < s.len() && 0 <= j < s.len() && i != j ==> (#[trigger] s[i]).seq != (#[trigger] s[j]).seq
}

/// The root of a heap leaves no later than any of its nodes.
pub proof fn lemma_root_first(s: Seq<SpaceTimeNode>, i: int)
    requires
        heap_ordered(s),
        0 <= i < s.len(),
    ensures
        node_le(s[0], s[i]),
    decreases i,
{
    if i > 0 {
        lemma_root_first(s, (i - 1) / 2);
    }
}

/// Exchanging two places of a sequence keeps its set of elements.
pub proof fn lemma_swap_keeps_set(s: Seq<SpaceTimeNode>, i: int, j: int)
    requires
        0 <= i < s.len(),
        0 <= j < s.len(),
    ensures
        s.update(i, s[j]).update(j, s[i]).to_set() == s.to_set(),
{
    let t = s.update(i, s[j]).update(j, s[i]);
    assert forall|n: SpaceTimeNode| t.to_set().contains(n) <==> s.to_set().contains(n) by {
        if t.contains(n) {
            let k = choose|k: int| 0 <= k < t.len() && t[k] == n;
            if k == i {
                assert(s[j] == n);
            } else if k == j {
                assert(s[i] == n);
            } else {
                assert(s[k] == n);
            }
        }
        if s.contains(n) {
            let k = choose|k: int| 0 <= k < s.len() && s[k] == n;
            if k == i {
                assert(t[j] == n);
            } else if k == j {
                assert(t[i] == n);
            } else {
                assert(t[k] == n);
            }
        }
    }
    assert(t.to_set() =~= s.to_set());
}

/// The open list of a search.
pub struct OpenList {
    items: Vec<SpaceTimeNode>,
    next_seq: u64,
}

impl View for OpenList {
    type V = Set<SpaceTimeNode>;

    /// The nodes that wait in the list.
    closed spec fn view(&self) -> Set<SpaceTimeNode> {
        self.items@.to_set()
    }
}

impl OpenList {
    /// The stored nodes form a heap and carry distinct insertion numbers.
    pub closed spec fn wf(&self) -> bool {
        &&& heap_ordered(self.items@)
        &&& seqs_distinct(self.items@, self.next_seq)
    }

    /// How many nodes have been inserted so far.
    pub closed spec fn pushed(&self) -> u64 {
        self.next_seq
    }

    /// How many nodes wait in the list.
    pub closed spec fn count(&self) -> nat {
        self.items@.len()
    }

    /// No two waiting nodes have one insertion number.
    pub proof fn lemma_one_node_per_seq(&self, a: SpaceTimeNode, b: SpaceTimeNode)
        requires
            self.wf(),
            self@.contains(a),
            self@.contains(b),
            a.seq == b.seq,
        ensures
            a == b,
    {
        let i = choose|i: int| 0 <= i < self.items@.len() && self.items@[i] == a;
        let j = choose|j: int| 0 <= j < self.items@.len() && self.items@[j] == b;
        if i != j {
            assert(self.items@[i].seq != self.items@[j].seq);
        }
    }

    /// The root of the heap is the node that leaves first.
    proof fn lemma_root_is_first(&self)
        requires
            self.wf(),
            self.count() > 0,
        ensures
            leaves_first_of(self@, self.items@[0]),
            first_node(self@) == self.items@[0],
    {
        let s = self.items@;
        let top = s[0];
        assert(s.contains(top));
        assert forall|m: SpaceTimeNode| s.to_set().contains(m) implies node_le(top, m) by {
            let k = choose|k: int| 0 <= k < s.len() && s[k] == m;
            lemma_root_first(s, k);
        }
        assert(leaves_first_of(self@, top));
        let other = first_node(self@);
        assert(leaves_first_of(self@, other));
        assert(node_le(top, other) && node_le(other, top));
        self.lemma_one_node_per_seq(top, other);
    }

    /// A list without waiting nodes is the empty set.
    pub proof fn lemma_count_zero(&self)
        ensures
            self.count() == 0 <==> self@ == Set::<SpaceTimeNode>::empty(),
    {
        if self.items@.len() == 0 {
            assert(self@ =~= Set::<SpaceTimeNode>::empty());
        } else {
            assert(self.items@.contains(self.items@[0]));
            assert(self@.contains(self.items@[0]));
        }
    }

    /// An empty list.
    pub fn new() -> (list: OpenList)
        ensures
            list.wf(),
            list@ == Set::<SpaceTimeNode>::empty(),
            list.pushed() == 0,
            list.count() == 0,
    {
        let list = OpenList { items: Vec::new(), next_seq: 0 };
        assert(list@ =~= Set::<SpaceTimeNode>::empty());
        list
    }

    /// Whether `a` leaves the list no later than `b`.
    fn leaves_first(a: &SpaceTimeNode, b: &SpaceTimeNode) -> (first: bool)
        ensures
            first == node_le(*a, *b),
    {
        a.f_cost < b.f_cost || (a.f_cost == b.f_cost && a.seq <= b.seq)
    }

    /// Exchanges the nodes at `i` and `j`.
    fn swap(&mut self, i: usize, j: usize)
        requires
            i < old(self).items@.len(),
            j < old(self).items@.len(),
        ensures
            final(self).items@ == old(self).items@.update(i as int, old(self).items@[j as int]).update(
                j as int,
                old(self).items@[i as int],
            ),
            final(self).next_seq == old(self).next_seq,
            final(self)@ == old(self)@,
    {
        let a = self.items[i];
        let b = self.items[j];
        self.items.set(i, b);
        self.items.set(j, a);
        proof {
            lemma_swap_keeps_set(old(self).items@, i as int, j as int);
        }
    }

    /// Inserts a node for the cell `pos` at `tick`, and numbers it.
    pub fn push(&mut self, pos: GridPos, tick: u64, g_cost: u128, f_cost: u128, parent: Option<(GridPos, u64)>)
        requires
            old(self).wf(),
            old(self).pushed() < u64::MAX,
        ensures
            final(self).wf(),
            final(self).pushed() == old(self).pushed() + 1,
            final(self).count() == old(self).count() + 1,
            final(self)@ == old(self)@.insert(
                SpaceTimeNode { pos, tick, g_cost, f_cost, parent, seq: old(self).pushed() },
            ),
    {
        let node = SpaceTimeNode { pos, tick, g_cost, f_cost, parent, seq: self.next_seq };
        self.next_seq = self.next_seq + 1;
        self.items.push(node);
        proof {
            let s = old(self).items@;
            let t = self.items@;
            assert(t == s.push(node));
            assert forall|n: SpaceTimeNode| t.to_set().contains(n) <==> s.to_set().insert(node).contains(
                n,
            ) by {
                if t.contains(n) {
                    let k = choose|k: int| 0 <= k < t.len() && t[k] == n;
                    if k < s.len() {
                        assert(s[k] == n);
                    }
                }
                if s.contains(n) {
                    let k = choose|k: int| 0 <= k < s.len() && s[k] == n;
                    assert(t[k] == n);
                }
                assert(t[s.len() as int] == node);
            }
            assert(t.to_set() =~= s.to_set().insert(node));
        }
        let mut i: usize = self.items.len() - 1;
        let mut settled: bool = false;
        while i > 0 && !settled
            invariant
                i < self.items@.len(),
                self.items@.len() == old(self).items@.len() + 1,
                self.next_seq == old(self).next_seq + 1,
                self@ == old(self)@.insert(node),
                seqs_distinct(self.items@, self.next_seq),
                forall|j: int|
                    1 <= j < self.items@.len() && j != i ==> node_le(
                        self.items@[(j - 1) / 2],
                        #[trigger] self.items@[j],
                    ),
                forall|j: int|
                    1 <= j < self.items@.len() && (j - 1) / 2 == i && i > 0 ==> node_le(
                        self.items@[(i - 1) / 2],
                        #[trigger] self.items@[j],
                    ),
                settled ==> heap_ordered(self.items@),
            decreases i + (if settled { 0int } else { 1int }),
        {
            let p: usize = (i - 1) / 2;
            if OpenList::leaves_first(&self.items[p], &self.items[i]) {
                settled = true;
            } else {
                self.swap(p, i);
                i = p;
            }
        }
    }

    /// Takes out the node that leaves first: the cheapest, and among the
    /// cheapest the one inserted first.
    pub fn pop(&mut self) -> (first: Option<SpaceTimeNode>)
        requires
            old(self).wf(),
        ensures
            final(self).wf(),
            final(self).pushed() == old(self).pushed(),
            first.is_none() <==> old(self).count() == 0,
            first.is_none() ==> final(self)@ == old(self)@,
            first.is_some() ==> {
                &&& old(self)@.contains(first.unwrap())
                &&& final(self)@ == old(self)@.remove(first.unwrap())
                &&& final(self).count() == old(self).count() - 1
                &&& forall|n: SpaceTimeNode| old(self)@.contains(n) ==> node_le(first.unwrap(), n)
                &&& first.unwrap() == first_node(old(self)@)
            },
    {
        let n = self.items.len();
        if n == 0 {
            return None;
        }
        let top = self.items[0];
        let last = self.items[n - 1];
        proof {
            let s = old(self).items@;
            assert(s.contains(top));
            old(self).lemma_root_is_first();
        }
        self.items.set(0, last);
        self.items.pop();
        proof {
            let s = old(self).items@;
            let t = self.items@;
            assert(t == s.update(0, last).drop_last());
            assert forall|m: SpaceTimeNode| t.to_set().contains(m) <==> s.to_set().remove(top).contains(
                m,
            ) by {
                if t.contains(m) {
                    let k = choose|k: int| 0 <= k < t.len() && t[k] == m;
                    if k == 0 {
                        assert(s[n - 1] == m);
                        assert(s[n - 1].seq != s[0].seq);
                    } else {
                        assert(s[k] == m);
                        assert(s[k].seq != s[0].seq);
                    }
                }
                if s.contains(m) && m != top {
                    let k = choose|k: int| 0 <= k < s.len() && s[k] == m;
                    if k == n - 1 {
                        assert(t[0] == m);
                    } else {
                        assert(t[k] == m);
                    }
                }
            }
            assert(t.to_set() =~= s.to_set().remove(top));
        }
        let len = self.items.len();
        let mut i: usize = 0;
        let mut settled: bool = false;
        while !settled
            invariant
                len == self.items@.len(),
                len == old(self).items@.len() - 1,
                i < len || (len == 0 && i == 0),
                self.next_seq == old(self).next_seq,
                self@ == old(self)@.remove(top),
                seqs_distinct(self.items@, self.next_seq),
                forall|j: int|
                    1 <= j < len && (j - 1) / 2 != i ==> node_le(
                        self.items@[(j - 1) / 2],
                        #[trigger] self.items@[j],
                    ),
                forall|j: int|
                    1 <= j < len && (j - 1) / 2 == i && i > 0 ==> node_le(
                        self.items@[(i - 1) / 2],
                        #[trigger] self.items@[j],
                    ),
                settled ==> heap_ordered(self.items@),
            decreases len - i + (if settled { 0int } else { 1int }),
        {
            let mut smallest: usize = i;
            if len > 0 && i <= (len - 1) / 2 {
                let l: usize = 2 * i + 1;
                if l < len {
                    if !OpenList::leaves_first(&self.items[smallest], &self.items[l]) {
                        smallest = l;
                    }
                    if l + 1 < len && !OpenList::leaves_first(&self.items[smallest], &self.items[l + 1]) {
                        smallest = l + 1;
                    }
                }
            }
            if smallest == i {
                settled = true;
            } else {
                self.swap(i, smallest);
                i = smallest;
            }
        }
        Some(top)
    }
}

} // verus!
