//! A priority queue that hands out its smallest key first.
//!
//! The queue is a binary heap in a vector.  An entry pairs a key, by which
//! the entries are ordered, with a handle.  Floating-point priorities are
//! queued by an integer key with the same order.

use vstd::prelude::*;
use vstd::multiset::Multiset;
use vstd::seq_lib::{to_multiset_build, to_multiset_remove, to_multiset_update};

verus! {

/// An entry of the queue: a key and the handle it is queued for.
pub type Entry = (u64, usize);

/// Every entry but the first is no smaller than its parent.
pub open spec fn heap_ordered(s: Seq<Entry>) -> bool {
    forall|j: int| 1 <= j < s.len() ==> s[(j - 1) / 2].0 <= (#[trigger] s[j]).0
}

/// The heap order holds but perhaps between the entry at `i` and its parent;
/// the children of `i` are no smaller than the parent of `i`.
pub open spec fn ordered_but_above(s: Seq<Entry>, i: int) -> bool {
    &&& forall|j: int| 1 <= j < s.len() && j != i ==> s[(j - 1) / 2].0 <= (#[trigger] s[j]).0
    &&& forall|j: int|
        1 <= j < s.len() && (j - 1) / 2 == i && i >= 1 ==> s[(i - 1) / 2].0 <= (#[trigger] s[j]).0
}

/// The heap order holds but perhaps between the entry at `i` and its children;
/// the children of `i` are no smaller than the parent of `i`.
pub open spec fn ordered_but_below(s: Seq<Entry>, i: int) -> bool {
    &&& forall|j: int|
        1 <= j < s.len() && (j - 1) / 2 != i ==> s[(j - 1) / 2].0 <= (#[trigger] s[j]).0
    &&& forall|j: int|
        1 <= j < s.len() && (j - 1) / 2 == i && i >= 1 ==> s[(i - 1) / 2].0 <= (#[trigger] s[j]).0
}

/// In a heap-ordered sequence the first entry has the smallest key.
pub proof fn lemma_root_is_least(s: Seq<Entry>, j: int)
    requires
        heap_ordered(s),
        0 <= j < s.len(),
    ensures
        s[0].0 <= s[j].0,
    decreases j,
{
    if j >= 1 {
        lemma_root_is_least(s, (j - 1) / 2);
    }
}

/// Exchanging two entries keeps the multiset of entries.
pub proof fn lemma_exchange_keeps_entries(s: Seq<Entry>, a: int, b: int)
    requires
        0 <= a < s.len(),
        0 <= b < s.len(),
    ensures
        s.update(a, s[b]).update(b, s[a]).to_multiset() == s.to_multiset(),
{
    let mid = s.update(a, s[b]);
    to_multiset_update(s, a, s[b]);
    to_multiset_update(mid, b, s[a]);
    s.to_multiset_ensures();
    assert(s.to_multiset().count(s[a]) > 0);
    assert(s.to_multiset().count(s[b]) > 0);
    if a == b {
        assert(mid =~= s);
        assert(s.update(a, s[b]).update(b, s[a]) =~= s);
    } else {
        assert(mid[b] == s[b]);
        assert(s.to_multiset().insert(s[b]).remove(s[a]).insert(s[a]).remove(s[b])
            =~= s.to_multiset());
    }
}

/// Min-priority queue of keyed handles.
pub struct MinQueue {
    items: Vec<Entry>,
}

impl MinQueue {
    /// The entries that wait in the queue.
    pub closed spec fn view(&self) -> Multiset<Entry> {
        self.items@.to_multiset()
    }

    /// The entries are kept in heap order.
    pub closed spec fn wf(&self) -> bool {
        heap_ordered(self.items@)
    }

    /// Create an empty queue.
    pub fn new() -> (q: Self)
        ensures
            q.wf(),
            q@ == Multiset::<Entry>::empty(),
    {
        let q = MinQueue { items: Vec::new() };
        proof {
            q.items@.to_multiset_ensures();
            assert(q.items@.to_multiset().len() == 0);
            assert(q@ =~= Multiset::<Entry>::empty());
        }
        q
    }

    /// Number of entries that wait in the queue.
    pub fn len(&self) -> (n: usize)
        ensures
            n == self@.len(),
    {
        proof {
            self.items@.to_multiset_ensures();
        }
        self.items.len()
    }

    /// Tell whether no entry waits in the queue.
    pub fn is_empty(&self) -> (empty: bool)
        ensures
            empty == (self@.len() == 0),
    {
        proof {
            self.items@.to_multiset_ensures();
        }
        self.items.len() == 0
    }

    /// Add the entry `(key, id)`.
    pub fn push(&mut self, key: u64, id: usize)
        requires
            old(self).wf(),
        ensures
            final(self).wf(),
            final(self)@ == old(self)@.insert((key, id)),
    {
        proof {
            to_multiset_build(self.items@, (key, id));
        }
        self.items.push((key, id));
        let mut i: usize = self.items.len() - 1;
        while i > 0
            invariant
                i < self.items@.len(),
                ordered_but_above(self.items@, i as int),
                self.items@.to_multiset() == old(self)@.insert((key, id)),
            ensures
                heap_ordered(self.items@),
                self.items@.to_multiset() == old(self)@.insert((key, id)),
            decreases i,
        {
            let p: usize = (i - 1) / 2;
            let child = self.items[i];
            let parent = self.items[p];
            if parent.0 <= child.0 {
                break ;
            }
            proof {
                lemma_exchange_keeps_entries(self.items@, p as int, i as int);
            }
            self.items.set(p, child);
            self.items.set(i, parent);
            i = p;
        }
    }

    /// Take out an entry with the smallest key, if the queue holds any.
    pub fn pop(&mut self) -> (least: Option<Entry>)
        requires
            old(self).wf(),
        ensures
            final(self).wf(),
            least is None <==> old(self)@.len() == 0,
            least is None ==> final(self)@ == old(self)@,
            least matches Some(e) ==> {
                &&& old(self)@.count(e) > 0
                &&& final(self)@ == old(self)@.remove(e)
                &&& forall|other: Entry| old(self)@.count(other) > 0 ==> e.0 <= other.0
            },
    {
        proof {
            self.items@.to_multiset_ensures();
        }
        if self.items.len() == 0 {
            return None;
        }
        let top = self.items[0];
        let ghost before = self.items@;
        proof {
            assert forall|other: Entry| before.to_multiset().count(other) > 0 implies top.0
                <= other.0 by {
                let j = choose|j: int| 0 <= j < before.len() && before[j] == other;
                lemma_root_is_least(before, j);
            }
            assert(before.to_multiset().count(top) > 0);
            to_multiset_remove(before, before.len() - 1);
            assert(before.remove(before.len() - 1) =~= before.drop_last());
        }
        let last = self.items.pop().unwrap();
        let n = self.items.len();
        if n == 0 {
            assert(heap_ordered(self.items@));
            return Some(top);
        }
        proof {
            to_multiset_update(self.items@, 0, last);
            assert(self.items@.update(0, last).to_multiset() =~= before.to_multiset().remove(top));
        }
        self.items.set(0, last);
        let mut i: usize = 0;
        while i < n / 2
            invariant
                n == self.items@.len(),
                i < n,
                ordered_but_below(self.items@, i as int),
                self.items@.to_multiset() == before.to_multiset().remove(top),
            ensures
                heap_ordered(self.items@),
                self.items@.to_multiset() == before.to_multiset().remove(top),
            decreases n - i,
        {
            let l: usize = 2 * i + 1;
            let r: usize = l + 1;
            let mut c: usize = l;
            if r < n && self.items[r].0 < self.items[l].0 {
                c = r;
            }
            let child = self.items[c];
            let here = self.items[i];
            if here.0 <= child.0 {
                break ;
            }
            proof {
                lemma_exchange_keeps_entries(self.items@, i as int, c as int);
            }
            self.items.set(i, child);
            self.items.set(c, here);
            i = c;
        }
        Some(top)
    }
}

} // verus!
