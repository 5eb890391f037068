//! The resource table: the registry of open, handle-addressable objects.
//!
//! Ids are allocated monotonically and never reused: an id below the
//! allocation counter was handed out exactly once, so a missing id below the
//! counter belongs to a resource that was open once and has been closed,
//! while an id at or above the counter was never allocated at all. All
//! mutations happen on the event-loop thread; workers never touch the table.

use vstd::prelude::*;
use crate::errors::ResourceError;

verus! {

/// The kind of object a resource handle addresses.
#[derive(Clone, Copy, PartialEq, Eq, Structural, Debug)]
pub enum ResourceKind {
    File,
    NetListener,
    NetStream,
    Timer,
    Child,
}

/// One open resource: its unique id and its kind.
#[derive(Clone, Copy, PartialEq, Eq, Structural, Debug)]
pub struct ResourceEntry {
    pub id: u32,
    pub kind: ResourceKind,
}

/// The table of currently open resources.
pub struct ResourceTable {
    pub entries: Vec<ResourceEntry>,
    pub next_id: u32,
}

impl ResourceTable {
    /// A resource with this id is currently open.
    pub open spec fn has(self, id: u32) -> bool {
        exists|i: int| 0 <= i < self.entries@.len() && self.entries@[i].id == id
    }

    /// The position of the open resource with this id.
    pub open spec fn idx_of(self, id: u32) -> int {
        choose|i: int| 0 <= i < self.entries@.len() && self.entries@[i].id == id
    }

    /// The kind of the open resource with this id.
    pub open spec fn kind_of(self, id: u32) -> ResourceKind {
        self.entries@[self.idx_of(id)].kind
    }

    /// How many resources are open.
    pub open spec fn open_count(self) -> nat {
        self.entries@.len()
    }

    /// Well-formedness: open ids are pairwise distinct, and every open id
    /// was produced by the monotone allocation counter.
    pub open spec fn wf(self) -> bool {
        &&& forall|i: int, j: int| #![trigger self.entries@[i].id, self.entries@[j].id]
            0 <= i < j < self.entries@.len() ==> self.entries@[i].id != self.entries@[j].id
        &&& forall|i: int| 0 <= i < self.entries@.len() ==> self.entries@[i].id < self.next_id
    }

    /// Law: ids are unique among concurrently open resources — any two
    /// distinct entries of a well-formed table carry different ids.
    pub proof fn lemma_open_ids_unique(self, i: int, j: int)
        requires
            self.wf(),
            0 <= i < self.entries@.len(),
            0 <= j < self.entries@.len(),
            i != j,
        ensures
            self.entries@[i].id != self.entries@[j].id,
    {
    }

    pub fn new() -> (t: Self)
        ensures
            t.wf(),
            t.entries@.len() == 0,
            t.next_id == 0,
    {
        ResourceTable { entries: Vec::new(), next_id: 0 }
    }

    /// Stores a new resource under a fresh id and returns the id. The id
    /// was never handed out before and collides with no open resource.
    pub fn allocate(&mut self, kind: ResourceKind) -> (id: u32)
        requires
            old(self).wf(),
            old(self).next_id < u32::MAX,
        ensures
            final(self).wf(),
            id == old(self).next_id,
            !old(self).has(id),
            final(self).has(id),
            final(self).kind_of(id) == kind,
            final(self).entries@ == old(self).entries@.push(ResourceEntry { id, kind }),
            final(self).next_id == old(self).next_id + 1,
            forall|r: u32| r != id ==> final(self).has(r) == old(self).has(r),
            forall|r: u32| r != id && old(self).has(r)
                ==> final(self).kind_of(r) == old(self).kind_of(r),
    {
        let id = self.next_id;
        self.entries.push(ResourceEntry { id, kind });
        self.next_id = self.next_id + 1;
        proof {
            let n = self.entries@.len() - 1;
            assert(self.entries@[n].id == id);
            assert forall|r: u32| r != id implies self.has(r) == old(self).has(r) by {
                if old(self).has(r) {
                    let i = old(self).idx_of(r);
                    assert(self.entries@[i].id == r);
                }
                if self.has(r) {
                    let i = self.idx_of(r);
                    assert(0 <= i < n);
                    assert(old(self).entries@[i].id == r);
                }
            }
            assert forall|r: u32| r != id && old(self).has(r)
                implies self.kind_of(r) == old(self).kind_of(r) by {
                let i = self.idx_of(r);
                assert(0 <= i < n && self.entries@[i].id == r);
                let j = old(self).idx_of(r);
                assert(old(self).entries@[j].id == r);
                assert(self.entries@[j].id == r);
                if i != j {
                    assert(self.entries@[i].id != self.entries@[j].id);
                }
            }
        }
        id
    }

    /// Looks a resource up without touching the table.
    pub fn get(&self, id: u32) -> (r: Result<ResourceKind, ResourceError>)
        requires
            self.wf(),
        ensures
            match r {
                Ok(k) => self.has(id) && k == self.kind_of(id),
                Err(e) => !self.has(id) && e == ResourceError::NotFound,
            },
    {
        let mut i: usize = 0;
        while i < self.entries.len()
            invariant
                self.wf(),
                i <= self.entries@.len(),
                forall|j: int| 0 <= j < i ==> self.entries@[j].id != id,
            decreases self.entries@.len() - i,
        {
            if self.entries[i].id == id {
                proof {
                    let w = self.idx_of(id);
                    assert(self.entries@[w].id == id);
                    if w != i as int {
                        assert(self.entries@[w].id != self.entries@[i as int].id);
                    }
                    assert(w == i as int);
                }
                return Ok(self.entries[i].kind);
            }
            i += 1;
        }
        Err(ResourceError::NotFound)
    }

    /// Removes the resource and releases its entry. A missing id below the
    /// allocation counter was open once: it reports `AlreadyClosed`; an id
    /// never allocated reports `NotFound`. On error the table is unchanged.
    pub fn close(&mut self, id: u32) -> (r: Result<(), ResourceError>)
        requires
            old(self).wf(),
        ensures
            final(self).wf(),
            final(self).next_id == old(self).next_id,
            old(self).has(id) ==> {
                &&& r == Ok::<(), ResourceError>(())
                &&& !final(self).has(id)
                &&& final(self).open_count() == old(self).open_count() - 1
                &&& final(self).entries@ == old(self).entries@.remove(old(self).idx_of(id))
            },
            !old(self).has(id) && id < old(self).next_id ==> r == Err::<(), ResourceError>(
                ResourceError::AlreadyClosed),
            !old(self).has(id) && id >= old(self).next_id ==> r == Err::<(), ResourceError>(
                ResourceError::NotFound),
            !old(self).has(id) ==> *final(self) == *old(self),
            forall|q: u32| q != id ==> final(self).has(q) == old(self).has(q),
            forall|q: u32| q != id && old(self).has(q)
                ==> final(self).kind_of(q) == old(self).kind_of(q),
    {
        let ghost pre = *self;
        let mut i: usize = 0;
        while i < self.entries.len()
            invariant
                *self == pre,
                pre == *old(self),
                pre.wf(),
                i <= self.entries@.len(),
                forall|j: int| 0 <= j < i ==> self.entries@[j].id != id,
            decreases self.entries@.len() - i,
        {
            if self.entries[i].id == id {
                proof {
                    let w = pre.idx_of(id);
                    assert(pre.entries@[w].id == id);
                    if w != i as int {
                        assert(pre.entries@[w].id != pre.entries@[i as int].id);
                    }
                    assert(w == i as int);
                }
                self.entries.remove(i);
                proof {
                    lemma_remove_preserves_others(pre.entries@, i as int, id);
                    assert(!self.has(id)) by {
                        if self.has(id) {
                            let w = self.idx_of(id);
                            assert(self.entries@[w].id == id);
                        }
                    }
                    assert forall|a: int| 0 <= a < self.entries@.len()
                        implies self.entries@[a].id < self.next_id by {
                        let b = choose|b: int| 0 <= b < pre.entries@.len()
                            && self.entries@[a] == pre.entries@[b];
                        assert(pre.entries@[b].id < pre.next_id);
                    }
                    assert forall|q: u32| q != id implies self.has(q) == pre.has(q) by {
                        assert(spec_id_present(self.entries@, q)
                            <==> spec_id_present(pre.entries@, q));
                    }
                    assert forall|q: u32| q != id && pre.has(q)
                        implies self.has(q) && self.kind_of(q) == pre.kind_of(q) by {
                        assert(spec_id_present(pre.entries@, q));
                        assert(spec_id_present(self.entries@, q));
                        assert(self.has(q));
                        let a = self.idx_of(q);
                        assert(0 <= a < self.entries@.len() && self.entries@[a].id == q);
                        let b = choose|b: int| 0 <= b < pre.entries@.len()
                            && self.entries@[a] == pre.entries@[b];
                        assert(pre.entries@[b].id == q);
                        let w = pre.idx_of(q);
                        assert(pre.entries@[w].id == q);
                        if b != w {
                            assert(pre.entries@[b].id != pre.entries@[w].id);
                        }
                    }
                }
                return Ok(());
            }
            i += 1;
        }
        assert(!pre.has(id)) by {
            if pre.has(id) {
                let w = pre.idx_of(id);
                assert(pre.entries@[w].id == id);
            }
        }
        if id < self.next_id {
            Err(ResourceError::AlreadyClosed)
        } else {
            Err(ResourceError::NotFound)
        }
    }
}

/// Some entry of `s` carries the id `q`.
pub open spec fn spec_id_present(s: Seq<ResourceEntry>, q: u32) -> bool {
    exists|a: int| 0 <= a < s.len() && s[a].id == q
}

/// Removing one entry keeps every other id present with its kind, keeps
/// distinctness, and keeps the id bound.
proof fn lemma_remove_preserves_others(s: Seq<ResourceEntry>, i: int, id: u32)
    requires
        0 <= i < s.len(),
        s[i].id == id,
        forall|a: int, b: int| #![trigger s[a].id, s[b].id]
            0 <= a < b < s.len() ==> s[a].id != s[b].id,
    ensures
        forall|a: int, b: int| #![trigger s.remove(i)[a].id, s.remove(i)[b].id]
            0 <= a < b < s.remove(i).len() ==> s.remove(i)[a].id != s.remove(i)[b].id,
        forall|q: u32| #![trigger spec_id_present(s.remove(i), q)]
            q != id ==> (spec_id_present(s.remove(i), q) <==> spec_id_present(s, q)),
        forall|a: int| #![trigger s.remove(i)[a]] 0 <= a < s.remove(i).len()
            ==> exists|b: int| 0 <= b < s.len() && s.remove(i)[a] == s[b],
    decreases s.len(),
{
    let t = s.remove(i);
    assert forall|a: int| #![trigger t[a]] 0 <= a < t.len() implies exists|b: int|
        0 <= b < s.len() && t[a] == s[b] by {
        if a < i {
            assert(t[a] == s[a]);
        } else {
            assert(t[a] == s[a + 1]);
        }
    }
    assert forall|a: int, b: int| #![trigger t[a].id, t[b].id]
        0 <= a < b < t.len() implies t[a].id != t[b].id by {
        let a2 = if a < i { a } else { a + 1 };
        let b2 = if b < i { b } else { b + 1 };
        assert(t[a] == s[a2] && t[b] == s[b2]);
    }
    assert forall|q: u32| #![trigger spec_id_present(t, q)] q != id
        implies (spec_id_present(t, q) <==> spec_id_present(s, q)) by {
        if spec_id_present(t, q) {
            let a = choose|a: int| 0 <= a < t.len() && t[a].id == q;
            let a2 = if a < i { a } else { a + 1 };
            assert(s[a2].id == q);
        }
        if spec_id_present(s, q) {
            let a = choose|a: int| 0 <= a < s.len() && s[a].id == q;
            assert(a != i);
            let a2 = if a < i { a } else { a - 1 };
            assert(t[a2].id == q);
        }
    }
}

} // verus!
