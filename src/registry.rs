//! The scheduler's registry of running targets: one cancel handle per
//! target id. Adding a tracked id again changes nothing; removing an id
//! hands back its handle.

use vstd::prelude::*;

verus! {

/// Whether some entry has id `id`.
pub open spec fn has_id<T>(s: Seq<(i64, T)>, id: i64) -> bool {
    exists|i: int| 0 <= i < s.len() && s[i].0 == id
}

/// Running targets with their cancel handles, in the order they were added.
pub struct TargetRegistry<T> {
    entries: Vec<(i64, T)>,
}

impl<T> TargetRegistry<T> {
    pub closed spec fn entries(&self) -> Seq<(i64, T)> {
        self.entries@
    }

    /// No id appears twice.
    pub open spec fn wf(&self) -> bool {
        forall|i: int, j: int|
            0 <= i < j < self.entries().len() ==> #[trigger] self.entries()[i].0 != #[trigger] self.entries()[j].0
    }

    pub fn new() -> (r: TargetRegistry<T>)
        ensures
            r.wf(),
            r.entries().len() == 0,
    {
        TargetRegistry { entries: Vec::new() }
    }

    fn find(&self, id: i64) -> (r: Option<usize>)
        ensures
            match r {
                Some(i) => i < self.entries().len() && self.entries()[i as int].0 == id,
                None => !has_id(self.entries(), id),
            },
    {
        let mut i: usize = 0;
        while i < self.entries.len()
            invariant
                i <= self.entries@.len(),
                forall|k: int| 0 <= k < i ==> self.entries@[k].0 != id,
            decreases self.entries@.len() - i,
        {
            if self.entries[i].0 == id {
                return Some(i);
            }
            i += 1;
        }
        None
    }

    /// Whether `id` is tracked.
    pub fn contains(&self, id: i64) -> (r: bool)
        ensures
            r == has_id(self.entries(), id),
    {
        self.find(id).is_some()
    }

    /// Tracks `id` with `handle` and returns `true`; when `id` is already
    /// tracked, changes nothing and returns `false`.
    pub fn add(&mut self, id: i64, handle: T) -> (r: bool)
        requires
            old(self).wf(),
        ensures
            final(self).wf(),
            r == !has_id(old(self).entries(), id),
            r ==> final(self).entries() == old(self).entries().push((id, handle)),
            !r ==> final(self).entries() == old(self).entries(),
    {
        if self.find(id).is_some() {
            return false;
        }
        self.entries.push((id, handle));
        true
    }

    /// Stops tracking `id` and returns its handle; `None` when it was not
    /// tracked.
    pub fn remove(&mut self, id: i64) -> (r: Option<T>)
        requires
            old(self).wf(),
        ensures
            final(self).wf(),
            !has_id(final(self).entries(), id),
            match r {
                Some(h) => exists|i: int|
                    0 <= i < old(self).entries().len() && old(self).entries()[i] == (id, h)
                        && final(self).entries() == old(self).entries().remove(i),
                None => !has_id(old(self).entries(), id) && final(self).entries() == old(self).entries(),
            },
    {
        match self.find(id) {
            Some(i) => {
                let ghost before = self.entries@;
                let (_, h) = self.entries.remove(i);
                proof {
                    assert forall|k: int| 0 <= k < self.entries@.len() implies self.entries@[k].0 != id by {
                        if k < i {
                            assert(self.entries@[k] == before[k]);
                        } else {
                            assert(self.entries@[k] == before[k + 1]);
                        }
                    }
                    assert forall|a: int, b: int| 0 <= a < b < self.entries@.len() implies
                        #[trigger] self.entries@[a].0 != #[trigger] self.entries@[b].0 by {
                        let a2 = if a < i { a } else { a + 1 };
                        let b2 = if b < i { b } else { b + 1 };
                        assert(self.entries@[a] == before[a2]);
                        assert(self.entries@[b] == before[b2]);
                    }
                    assert(before[i as int] == (id, h));
                }
                Some(h)
            },
            None => None,
        }
    }
}

} // verus!
