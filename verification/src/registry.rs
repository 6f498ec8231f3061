//! The route registry: a process-wide index from HTTP path to the long-poll
//! queue that serves it.
//!
//! Queues themselves live in a pool owned by the embedding server state; the
//! registry stores pool indices, so a path and a strategy's child list can
//! share one queue. Registering an already-present path silently replaces the
//! mapping (last write wins).

use vstd::prelude::*;

verus! {

/// The mapping a sequence of registrations denotes: later entries win.
pub open spec fn map_of(s: Seq<(String, usize)>) -> Map<Seq<char>, usize>
    decreases s.len(),
{
    if s.len() == 0 {
        Map::empty()
    } else {
        map_of(s.drop_last()).insert(s.last().0@, s.last().1)
    }
}

/// No two entries bind the same path.
pub open spec fn keys_distinct(s: Seq<(String, usize)>) -> bool {
    forall|i: int, j: int| 0 <= i < j < s.len() ==> s[i].0@ != s[j].0@
}

/// Index from path to queue, viewed as a `Map<Seq<char>, usize>`.
pub struct LongpollRegistry {
    entries: Vec<(String, usize)>,
}

impl View for LongpollRegistry {
    type V = Map<Seq<char>, usize>;

    closed spec fn view(&self) -> Map<Seq<char>, usize> {
        map_of(self.entries@)
    }
}

proof fn lemma_map_of_contains(s: Seq<(String, usize)>, k: Seq<char>)
    ensures
        map_of(s).contains_key(k) <==> (exists|i: int| 0 <= i < s.len() && s[i].0@ == k),
    decreases s.len(),
{
    if s.len() > 0 {
        lemma_map_of_contains(s.drop_last(), k);
        if s.last().0@ == k {
            assert(s[s.len() - 1].0@ == k);
        } else if map_of(s).contains_key(k) {
            let i = choose|i: int| 0 <= i < s.drop_last().len() && s.drop_last()[i].0@ == k;
            assert(s[i].0@ == k);
        } else if exists|i: int| 0 <= i < s.len() && s[i].0@ == k {
            let i = choose|i: int| 0 <= i < s.len() && s[i].0@ == k;
            assert(s.drop_last()[i].0@ == k);
        }
    }
}

proof fn lemma_map_of_get(s: Seq<(String, usize)>, i: int)
    requires
        0 <= i < s.len(),
        keys_distinct(s),
    ensures
        map_of(s).contains_key(s[i].0@),
        map_of(s)[s[i].0@] == s[i].1,
    decreases s.len(),
{
    if i < s.len() - 1 {
        assert(keys_distinct(s.drop_last()));
        assert(s.drop_last()[i] == s[i]);
        lemma_map_of_get(s.drop_last(), i);
        assert(s[i].0@ != s.last().0@);
    }
}

proof fn lemma_map_of_update(s: Seq<(String, usize)>, i: int, e: (String, usize))
    requires
        0 <= i < s.len(),
        keys_distinct(s),
        s[i].0@ == e.0@,
    ensures
        map_of(s.update(i, e)) =~= map_of(s).insert(e.0@, e.1),
    decreases s.len(),
{
    let t = s.update(i, e);
    if i == s.len() - 1 {
        assert(t.drop_last() =~= s.drop_last());
        assert(t.last() == e);
    } else {
        assert(t.drop_last() =~= s.drop_last().update(i, e));
        assert(keys_distinct(s.drop_last()));
        assert(s.drop_last()[i] == s[i]);
        lemma_map_of_update(s.drop_last(), i, e);
        assert(t.last() == s.last());
        assert(s[i].0@ != s.last().0@);
        assert(map_of(t) =~= map_of(s).insert(e.0@, e.1));
    }
}

impl LongpollRegistry {
    /// The distinct-keys invariant that `new` establishes and every method
    /// preserves.
    pub closed spec fn wf(self) -> bool {
        keys_distinct(self.entries@)
    }

    /// An empty registry: no path resolves.
    pub fn new() -> (r: LongpollRegistry)
        ensures
            r.wf(),
            r@ == Map::<Seq<char>, usize>::empty(),
    {
        LongpollRegistry { entries: Vec::new() }
    }

    /// Resolve a path to the queue registered for it, if any.
    pub fn lookup(&self, path: &String) -> (r: Option<usize>)
        requires
            self.wf(),
        ensures
            r == if self@.contains_key(path@) {
                Some(self@[path@])
            } else {
                None::<usize>
            },
    {
        let n = self.entries.len();
        let mut i: usize = 0;
        while i < n
            invariant
                n == self.entries@.len(),
                i <= n,
                keys_distinct(self.entries@),
                forall|j: int| 0 <= j < i ==> self.entries@[j].0@ != path@,
            decreases n - i,
        {
            if self.entries[i].0 == *path {
                proof {
                    lemma_map_of_get(self.entries@, i as int);
                }
                return Some(self.entries[i].1);
            }
            i += 1;
        }
        proof {
            lemma_map_of_contains(self.entries@, path@);
        }
        None
    }

    /// Insert or overwrite: afterwards `path` resolves to `queue`, and no
    /// other path's mapping changes.
    pub fn register(&mut self, path: String, queue: usize)
        requires
            old(self).wf(),
        ensures
            final(self).wf(),
            final(self)@ == old(self)@.insert(path@, queue),
    {
        let ghost s0 = self.entries@;
        let n = self.entries.len();
        let mut i: usize = 0;
        while i < n
            invariant
                n == self.entries@.len(),
                i <= n,
                self.entries@ == s0,
                s0 == old(self).entries@,
                keys_distinct(s0),
                forall|j: int| 0 <= j < i ==> self.entries@[j].0@ != path@,
            decreases n - i,
        {
            if self.entries[i].0 == path {
                let _ = self.entries.remove(i);
                self.entries.insert(i, (path, queue));
                proof {
                    assert(self.entries@ =~= s0.update(i as int, self.entries@[i as int]));
                    assert(forall|a: int|
                        0 <= a < s0.len() ==> self.entries@[a].0@ == s0[a].0@);
                    assert(keys_distinct(self.entries@));
                    lemma_map_of_update(s0, i as int, self.entries@[i as int]);
                    assert(self.entries@[i as int].0@ == path@);
                    assert(self.entries@[i as int].1 == queue);
                    assert(map_of(self.entries@) =~= map_of(s0).insert(path@, queue));
                }
                return;
            }
            i += 1;
        }
        self.entries.push((path, queue));
        proof {
            assert(self.entries@.drop_last() =~= s0);
            assert(keys_distinct(self.entries@));
        }
    }
}

} // verus!
