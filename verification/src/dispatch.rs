//! The op registry: which numbered ops exist and how each behaves.
//!
//! Handlers are registered under stable numeric op ids. The registry is
//! data the dispatcher routes by; the I/O a handler performs runs outside
//! the core, on the worker pool, and reports back through the completion
//! channel.

use vstd::prelude::*;
use crate::resources::ResourceKind;

verus! {

/// What the handler registered under an op id does at dispatch time.
///
/// A handler never blocks the calling thread: it validates its arguments,
/// performs any synchronous side effect on the resource table immediately,
/// and either answers with bytes or defers work to the pool and answers
/// with a pending token.
#[derive(Clone, Copy, PartialEq, Eq, Structural, Debug)]
pub enum HandlerBehavior {
    /// Answers synchronously with the request's payload buffer.
    Echo,
    /// Creates a resource of the given kind and answers with its id.
    OpenResource(ResourceKind),
    /// Closes the resource named by the first argument.
    CloseResource,
    /// Defers work bound to the resource named by the first argument to the
    /// worker pool and answers with a pending token.
    StartAsync,
    /// Creates a timer resource and arms it: its expiry is an ordinary
    /// async completion for the returned pending token.
    ArmTimer,
}

/// One registry row: a stable numeric op id and its handler's behavior.
#[derive(Clone, Copy, PartialEq, Eq, Structural, Debug)]
pub struct OpEntry {
    pub op_id: u32,
    pub behavior: HandlerBehavior,
}

/// The dispatch table mapping op ids to handlers.
pub struct DispatchTable {
    pub entries: Vec<OpEntry>,
}

impl DispatchTable {
    /// A handler is registered under this op id.
    pub open spec fn registered(self, op_id: u32) -> bool {
        exists|i: int| 0 <= i < self.entries@.len() && self.entries@[i].op_id == op_id
    }

    /// The behavior registered under this op id.
    pub open spec fn behavior_of(self, op_id: u32) -> HandlerBehavior {
        self.entries@[choose|i: int| 0 <= i < self.entries@.len()
            && self.entries@[i].op_id == op_id].behavior
    }

    /// Well-formedness: one handler per op id.
    pub open spec fn wf(self) -> bool {
        forall|i: int, j: int| #![trigger self.entries@[i].op_id, self.entries@[j].op_id]
            0 <= i < j < self.entries@.len() ==> self.entries@[i].op_id != self.entries@[j].op_id
    }

    pub fn new() -> (t: Self)
        ensures
            t.wf(),
            t.entries@.len() == 0,
    {
        DispatchTable { entries: Vec::new() }
    }

    /// Registers a handler under `op_id`. An id already taken is refused:
    /// registration returns false and the table is unchanged.
    pub fn register(&mut self, op_id: u32, behavior: HandlerBehavior) -> (ok: bool)
        requires
            old(self).wf(),
        ensures
            final(self).wf(),
            ok == !old(self).registered(op_id),
            !ok ==> *final(self) == *old(self),
            ok ==> final(self).entries@ == old(self).entries@.push(OpEntry { op_id, behavior }),
            final(self).registered(op_id) || !ok,
            ok ==> final(self).behavior_of(op_id) == behavior,
            forall|q: u32| q != op_id ==> final(self).registered(q) == old(self).registered(q),
            forall|q: u32| q != op_id && old(self).registered(q)
                ==> final(self).behavior_of(q) == old(self).behavior_of(q),
    {
        let ghost pre = *self;
        let mut i: usize = 0;
        while i < self.entries.len()
            invariant
                *self == pre,
                pre == *old(self),
                pre.wf(),
                i <= self.entries@.len(),
                forall|j: int| 0 <= j < i ==> self.entries@[j].op_id != op_id,
            decreases self.entries@.len() - i,
        {
            if self.entries[i].op_id == op_id {
                return false;
            }
            i += 1;
        }
        assert(!pre.registered(op_id)) by {
            if pre.registered(op_id) {
                let w = choose|w: int| 0 <= w < pre.entries@.len()
                    && pre.entries@[w].op_id == op_id;
                assert(pre.entries@[w].op_id == op_id);
            }
        }
        self.entries.push(OpEntry { op_id, behavior });
        proof {
            let n = self.entries@.len() - 1;
            assert(self.entries@[n].op_id == op_id);
            assert forall|q: u32| q != op_id
                implies self.registered(q) == pre.registered(q) by {
                if pre.registered(q) {
                    let w = choose|w: int| 0 <= w < pre.entries@.len()
                        && pre.entries@[w].op_id == q;
                    assert(self.entries@[w].op_id == q);
                }
                if self.registered(q) {
                    let w = choose|w: int| 0 <= w < self.entries@.len()
                        && self.entries@[w].op_id == q;
                    assert(0 <= w < n);
                    assert(pre.entries@[w].op_id == q);
                }
            }
            assert forall|q: u32| q != op_id && pre.registered(q)
                implies self.behavior_of(q) == pre.behavior_of(q) by {
                let a = choose|a: int| 0 <= a < self.entries@.len()
                    && self.entries@[a].op_id == q;
                assert(0 <= a < n && self.entries@[a].op_id == q);
                let b = choose|b: int| 0 <= b < pre.entries@.len()
                    && pre.entries@[b].op_id == q;
                assert(self.entries@[b].op_id == q);
                if a != b {
                    assert(self.entries@[a].op_id != self.entries@[b].op_id);
                }
            }
        }
        true
    }

    /// Routes an op id to its handler's behavior, or reports it unknown.
    pub fn lookup(&self, op_id: u32) -> (r: Option<HandlerBehavior>)
        requires
            self.wf(),
        ensures
            match r {
                Some(b) => self.registered(op_id) && b == self.behavior_of(op_id),
                None => !self.registered(op_id),
            },
    {
        let mut i: usize = 0;
        while i < self.entries.len()
            invariant
                self.wf(),
                i <= self.entries@.len(),
                forall|j: int| 0 <= j < i ==> self.entries@[j].op_id != op_id,
            decreases self.entries@.len() - i,
        {
            if self.entries[i].op_id == op_id {
                proof {
                    let w = choose|w: int| 0 <= w < self.entries@.len()
                        && self.entries@[w].op_id == op_id;
                    assert(self.entries@[w].op_id == op_id);
                    if w != i as int {
                        assert(self.entries@[w].op_id != self.entries@[i as int].op_id);
                    }
                    assert(w == i as int);
                }
                return Some(self.entries[i].behavior);
            }
            i += 1;
        }
        proof {
            if self.registered(op_id) {
                let w = choose|w: int| 0 <= w < self.entries@.len()
                    && self.entries@[w].op_id == op_id;
                assert(self.entries@[w].op_id == op_id);
            }
        }
        None
    }
}

} // verus!
