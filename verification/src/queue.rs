//! A max-priority queue.
//!
//! The next entry to leave is one with the highest priority. Among entries
//! of equal priority the one that arrived first leaves first.
use vstd::prelude::*;

verus! {

/// Entry `i` of `entries` is the next to leave: none has a higher priority,
/// and none before it has the same.
pub open spec fn is_next_up<T>(entries: Seq<(u64, T)>, i: int) -> bool {
    &&& 0 <= i < entries.len()
    &&& forall|j: int| 0 <= j < entries.len() ==> (#[trigger] entries[j]).0 <= entries[i].0
    &&& forall|j: int| 0 <= j < i ==> (#[trigger] entries[j]).0 < entries[i].0
}

/// The position of the next entry to leave a queue that is not empty.
pub open spec fn next_up<T>(entries: Seq<(u64, T)>) -> int {
    choose|i: int| is_next_up(entries, i)
}

/// At most one entry is the next to leave.
pub proof fn lemma_next_up_unique<T>(entries: Seq<(u64, T)>, i: int, j: int)
    requires
        is_next_up(entries, i),
        is_next_up(entries, j),
    ensures
        i == j,
{
    if i < j {
        assert(entries[i].0 < entries[j].0);
    } else if j < i {
        assert(entries[j].0 < entries[i].0);
    }
}

/// Where an entry waits, one of them is the next to leave.
pub proof fn lemma_next_up_exists<T>(entries: Seq<(u64, T)>)
    requires
        entries.len() > 0,
    ensures
        is_next_up(entries, next_up(entries)),
    decreases entries.len(),
{
    if entries.len() == 1 {
        assert(is_next_up(entries, 0));
    } else {
        let front = entries.drop_last();
        lemma_next_up_exists(front);
        let best = next_up(front);
        let last = entries.len() - 1;
        if entries[last].0 > front[best].0 {
            assert forall|j: int| 0 <= j < last implies (#[trigger] entries[j]).0
                < entries[last].0 by {
                assert(front[j].0 <= front[best].0);
            }
            assert(is_next_up(entries, last));
        } else {
            assert forall|j: int| 0 <= j < entries.len() implies (#[trigger] entries[j]).0
                <= entries[best].0 by {
                if j < last {
                    assert(front[j].0 <= front[best].0);
                }
            }
            assert forall|j: int| 0 <= j < best implies (#[trigger] entries[j]).0
                < entries[best].0 by {
                assert(front[j].0 < front[best].0);
            }
            assert(is_next_up(entries, best));
        }
    }
}

/// Items that wait with a priority each.
pub struct PriorityQueue<T> {
    /// The entries, in the order in which they arrived.
    entries: Vec<(u64, T)>,
}

impl<T> View for PriorityQueue<T> {
    type V = Seq<(u64, T)>;

    /// The entries that wait, each with its priority, in the order in which
    /// they arrived.
    closed spec fn view(&self) -> Seq<(u64, T)> {
        self.entries@
    }
}

impl<T> PriorityQueue<T> {
    /// A queue without entries.
    pub fn new() -> (queue: Self)
        ensures
            queue@ == Seq::<(u64, T)>::empty(),
    {
        PriorityQueue { entries: Vec::new() }
    }

    /// The number of entries that wait.
    pub fn len(&self) -> (n: usize)
        ensures
            n == self@.len(),
    {
        self.entries.len()
    }

    /// Whether no entry waits.
    pub fn is_empty(&self) -> (empty: bool)
        ensures
            empty == (self@.len() == 0),
    {
        self.entries.len() == 0
    }

    /// Adds `item` with `priority`.
    pub fn push(&mut self, priority: u64, item: T)
        ensures
            final(self)@ == old(self)@.push((priority, item)),
    {
        self.entries.push((priority, item));
    }

    /// The position of the next entry to leave.
    fn find_next(&self) -> (at: usize)
        requires
            self@.len() > 0,
        ensures
            is_next_up(self@, at as int),
            at as int == next_up(self@),
    {
        let mut best: usize = 0;
        let mut i: usize = 1;
        while i < self.entries.len()
            invariant
                1 <= i <= self.entries@.len(),
                is_next_up(self.entries@.take(i as int), best as int),
            decreases self.entries@.len() - i,
        {
            let ghost seen = self.entries@.take(i as int);
            let ghost prev = best;
            if self.entries[i].0 > self.entries[best].0 {
                best = i;
            }
            i += 1;
            proof {
                let now = self.entries@.take(i as int);
                assert forall|j: int| 0 <= j < now.len() implies (#[trigger] now[j]).0
                    <= now[best as int].0 by {
                    if j < seen.len() {
                        assert(seen[j].0 <= seen[prev as int].0);
                    }
                }
                assert forall|j: int| 0 <= j < best implies (#[trigger] now[j]).0
                    < now[best as int].0 by {
                    assert(seen[j].0 <= seen[prev as int].0);
                    if best == prev {
                        assert(seen[j].0 < seen[prev as int].0);
                    }
                }
            }
        }
        proof {
            assert(self.entries@.take(i as int) =~= self.entries@);
            lemma_next_up_unique(self@, best as int, next_up(self@));
        }
        best
    }

    /// The next entry to leave, if any waits: its priority and its item.
    pub fn peek(&self) -> (next: Option<(u64, &T)>)
        ensures
            next is None == (self@.len() == 0),
            next matches Some(entry) ==> is_next_up(self@, next_up(self@)) && entry.0
                == self@[next_up(self@)].0 && *entry.1 == self@[next_up(self@)].1,
    {
        if self.entries.len() == 0 {
            None
        } else {
            let at = self.find_next();
            Some((self.entries[at].0, &self.entries[at].1))
        }
    }

    /// Takes the next entry out, if any waits. The others keep their order.
    pub fn pop(&mut self) -> (next: Option<(u64, T)>)
        ensures
            next is None == (old(self)@.len() == 0),
            next is None ==> *final(self) == *old(self),
            next matches Some(entry) ==> is_next_up(old(self)@, next_up(old(self)@)) && entry
                == old(self)@[next_up(old(self)@)] && final(self)@ == old(self)@.remove(
                next_up(old(self)@),
            ),
    {
        if self.entries.len() == 0 {
            None
        } else {
            let at = self.find_next();
            Some(self.entries.remove(at))
        }
    }
}

} // verus!
