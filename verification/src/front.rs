//! Min-priority frontier queue over (arrival time, pixel index) pairs.
//!
//! The queue pops the entry with the smallest arrival time; among equal
//! times the smaller pixel index leaves first, so the propagation order is
//! fully determined by the input. Entries are held in a vector sorted in
//! strictly descending (time, index) order, so the minimum is always the
//! last element.

use vstd::prelude::*;
use vstd::multiset::Multiset;

verus! {

/// One frontier entry: a pixel index and its arrival time.
#[derive(Clone, Copy, PartialEq, Eq, Structural)]
pub struct Node {
    /// Arrival time in Q16.16.
    pub priority: u64,
    /// Pixel index.
    pub i: u32,
}

/// `a` comes strictly later than `b` in pop order: `a`'s time is larger,
/// or the times are equal and `a`'s pixel index is larger.
pub open spec fn lex_gt(a: Node, b: Node) -> bool {
    a.priority > b.priority || (a.priority == b.priority && a.i > b.i)
}

/// The frontier queue.
pub struct Front {
    /// Entries, sorted in strictly descending (time, index) order.
    pub v: Vec<Node>,
}

impl Front {
    /// The entries, in strictly descending (time, index) order; the last
    /// entry is the next to pop.
    pub open spec fn view(&self) -> Seq<Node> {
        self.v@
    }

    /// The entries are strictly descending, so the minimum sits at the end.
    pub open spec fn wf(&self) -> bool {
        forall|k1: int, k2: int|
            0 <= k1 < k2 < self.v@.len() ==> lex_gt(#[trigger] self.v@[k1], #[trigger] self.v@[k2])
    }

    /// Pixel `i` has an entry in the queue.
    pub open spec fn has_index(&self, i: u32) -> bool {
        exists|k: int| 0 <= k < self.view().len() && self.view()[k].i == i
    }

    /// An empty queue.
    pub fn new() -> (q: Front)
        ensures
            q@.len() == 0,
            q.wf(),
    {
        Front { v: Vec::new() }
    }

    /// Number of queued entries.
    pub fn len(&self) -> (n: usize)
        ensures
            n == self@.len(),
    {
        self.v.len()
    }

    /// Queue an entry for pixel `i` with arrival time `t`. The pixel must
    /// not be queued already, which keeps the order strict.
    pub fn push(&mut self, t: u64, i: u32)
        requires
            old(self).wf(),
            !old(self).has_index(i),
            old(self)@.len() < usize::MAX,
        ensures
            final(self).wf(),
            final(self)@.len() == old(self)@.len() + 1,
            final(self)@.to_multiset() == old(self)@.to_multiset().insert(
                Node { priority: t, i },
            ),
            forall|j: u32| final(self).has_index(j) <==> old(self).has_index(j) || j == i,
            exists|m: int|
                0 <= m <= old(self)@.len() && final(self)@ == old(self)@.insert(
                    m,
                    (Node { priority: t, i }),
                ),
    {
        let n = Node { priority: t, i };
        let len = self.v.len();
        let mut k: usize = 0;
        while k < len && (self.v[k].priority > t || (self.v[k].priority == t && self.v[k].i > i))
            invariant
                k <= len,
                forall|m: int| 0 <= m < k ==> lex_gt(#[trigger] self.v@[m], n),
            decreases len - k,
        {
            k = k + 1;
        }
        proof {
            let ghost pre = self.v@;
            // every entry at or after the insertion point is strictly below `n`
            assert forall|m: int| k <= m < pre.len() implies lex_gt(n, #[trigger] pre[m]) by {
                assert(!lex_gt(pre[k as int], n));
                assert(pre[k as int].i != i);
                assert(lex_gt(n, pre[k as int]));
                if m > k {
                    assert(lex_gt(pre[k as int], pre[m]));
                }
            }
        }
        let ghost pre = self.v@;
        self.v.insert(k, n);
        proof {
            assert(self.v@ == pre.insert(k as int, n));
            assert forall|k1: int, k2: int|
                0 <= k1 < k2 < self.v@.len() implies lex_gt(
                #[trigger] self.v@[k1],
                #[trigger] self.v@[k2],
            ) by {}
            pre.to_multiset_ensures();
            assert(self.v@.to_multiset() =~= pre.to_multiset().insert(n)) by {
                lemma_insert_multiset(pre, n, k as int);
            }
            assert forall|j: u32| final(self).has_index(j) implies old(self).has_index(j) || j
                == i by {
                let m = choose|m: int| 0 <= m < self.v@.len() && self.v@[m].i == j;
                if m < k {
                    assert(pre[m].i == j);
                } else if m > k {
                    assert(pre[m - 1].i == j);
                }
            }
            assert forall|j: u32| old(self).has_index(j) || j == i implies final(self).has_index(
                j,
            ) by {
                if j == i {
                    assert(self.view()[k as int].i == i);
                } else {
                    let m = choose|m: int| 0 <= m < pre.len() && pre[m].i == j;
                    if m < k {
                        assert(self.view()[m].i == j);
                    } else {
                        assert(self.view()[m + 1].i == j);
                    }
                }
            }
        }
    }

    /// Pop the entry with the least (time, index), or `None` when empty.
    pub fn pop(&mut self) -> (r: Option<Node>)
        requires
            old(self).wf(),
        ensures
            final(self).wf(),
            old(self)@.len() == 0 ==> r == None::<Node> && final(self)@ == old(self)@,
            old(self)@.len() > 0 ==> {
                &&& r == Some(old(self)@.last())
                &&& final(self)@ == old(self)@.drop_last()
                &&& forall|m: int|
                    0 <= m < old(self)@.len() - 1 ==> lex_gt(
                        #[trigger] old(self)@[m],
                        old(self)@.last(),
                    )
            },
    {
        let r = self.v.pop();
        proof {
            if old(self)@.len() > 0 {
                assert forall|m: int| 0 <= m < old(self)@.len() - 1 implies lex_gt(
                    #[trigger] old(self)@[m],
                    old(self)@.last(),
                ) by {}
            }
        }
        r
    }
}

/// Inserting an element anywhere in a sequence adds exactly it to the
/// sequence's multiset of elements.
proof fn lemma_insert_multiset(s: Seq<Node>, n: Node, k: int)
    requires
        0 <= k <= s.len(),
    ensures
        s.insert(k, n).to_multiset() =~= s.to_multiset().insert(n),
{
    let t = s.insert(k, n);
    t.to_multiset_ensures();
    assert(t[k] == n);
    assert(t.remove(k) =~= s);
    assert(t.remove(k).to_multiset() =~= t.to_multiset().remove(n));
    assert(t.contains(n));
    assert(t.to_multiset().count(n) > 0);
    assert forall|x: Node| t.to_multiset().count(x) == s.to_multiset().insert(n).count(x) by {
        assert(t.to_multiset().remove(n).count(x) == s.to_multiset().count(x));
    }
}

} // verus!
