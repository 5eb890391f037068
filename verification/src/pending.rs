//! The set of pending operations: async work dispatched but not yet
//! resolved by a delivered response or an explicit cancellation.
//!
//! Every pending op carries a completion token, allocated monotonically and
//! never reused, the id of the resource the work is bound to, and the
//! request id its eventual response must answer. Closing a resource marks
//! its in-flight ops cancelled; they stay in the set until their worker
//! reports, and then resolve as `Cancelled` through the normal path.

use vstd::prelude::*;

verus! {

/// One operation dispatched to the worker pool and not yet resolved.
#[derive(Clone, Copy, PartialEq, Eq, Structural, Debug)]
pub struct PendingOp {
    pub token: u32,
    pub rid: u32,
    pub request_id: u32,
    pub cancelled: bool,
}

/// Some op of `s` carries the token `t`.
pub open spec fn spec_token_present(s: Seq<PendingOp>, t: u32) -> bool {
    exists|i: int| 0 <= i < s.len() && s[i].token == t
}

/// The position in `s` of the op that carries the token `t`.
pub open spec fn spec_idx_of(s: Seq<PendingOp>, t: u32) -> int {
    choose|i: int| 0 <= i < s.len() && s[i].token == t
}

/// The op of `s` that carries the token `t`.
pub open spec fn spec_op_of(s: Seq<PendingOp>, t: u32) -> PendingOp {
    s[spec_idx_of(s, t)]
}

/// The pending-operation set, tracked from dispatch time until the
/// corresponding response is delivered or the op is discarded at teardown.
pub struct PendingSet {
    pub ops: Vec<PendingOp>,
    pub next_token: u32,
}

impl PendingSet {
    /// An op with this completion token is still pending.
    pub open spec fn has_token(self, t: u32) -> bool {
        spec_token_present(self.ops@, t)
    }

    /// The pending op with this token.
    pub open spec fn op_of(self, t: u32) -> PendingOp {
        spec_op_of(self.ops@, t)
    }

    /// How many ops are pending.
    pub open spec fn count(self) -> nat {
        self.ops@.len()
    }

    /// Well-formedness: tokens are pairwise distinct and every token was
    /// produced by the monotone token counter.
    pub open spec fn wf(self) -> bool {
        &&& forall|i: int, j: int| #![trigger self.ops@[i].token, self.ops@[j].token]
            0 <= i < j < self.ops@.len() ==> self.ops@[i].token != self.ops@[j].token
        &&& forall|i: int| 0 <= i < self.ops@.len() ==> self.ops@[i].token < self.next_token
    }

    pub fn new() -> (p: Self)
        ensures
            p.wf(),
            p.ops@.len() == 0,
            p.next_token == 0,
    {
        PendingSet { ops: Vec::new(), next_token: 0 }
    }

    /// Tracks a newly dispatched async op bound to the resource `rid` and
    /// returns its fresh completion token.
    pub fn register(&mut self, rid: u32, request_id: u32) -> (token: u32)
        requires
            old(self).wf(),
            old(self).next_token < u32::MAX,
        ensures
            final(self).wf(),
            token == old(self).next_token,
            !old(self).has_token(token),
            final(self).has_token(token),
            final(self).op_of(token) == (PendingOp { token, rid, request_id, cancelled: false }),
            final(self).ops@ == old(self).ops@.push(
                PendingOp { token, rid, request_id, cancelled: false }),
            final(self).next_token == old(self).next_token + 1,
            forall|t: u32| t != token ==> final(self).has_token(t) == old(self).has_token(t),
            forall|t: u32| t != token && old(self).has_token(t)
                ==> final(self).op_of(t) == old(self).op_of(t),
    {
        let token = self.next_token;
        let op = PendingOp { token, rid, request_id, cancelled: false };
        self.ops.push(op);
        self.next_token = self.next_token + 1;
        proof {
            let n = self.ops@.len() - 1;
            assert(self.ops@[n].token == token);
            assert forall|t: u32| t != token
                implies self.has_token(t) == old(self).has_token(t) by {
                if old(self).has_token(t) {
                    let i = choose|i: int| 0 <= i < old(self).ops@.len()
                        && old(self).ops@[i].token == t;
                    assert(self.ops@[i].token == t);
                }
                if self.has_token(t) {
                    let i = choose|i: int| 0 <= i < self.ops@.len() && self.ops@[i].token == t;
                    assert(0 <= i < n);
                    assert(old(self).ops@[i].token == t);
                }
            }
            assert forall|t: u32| t != token && old(self).has_token(t)
                implies self.op_of(t) == old(self).op_of(t) by {
                let i = choose|i: int| 0 <= i < self.ops@.len() && self.ops@[i].token == t;
                assert(0 <= i < n && self.ops@[i].token == t);
                let j = choose|j: int| 0 <= j < old(self).ops@.len()
                    && old(self).ops@[j].token == t;
                assert(self.ops@[j].token == t);
                if i != j {
                    assert(self.ops@[i].token != self.ops@[j].token);
                }
            }
        }
        token
    }

    /// Marks every pending op bound to the resource `rid` cancelled. Their
    /// eventual responses become `Cancelled`; nothing is dropped silently.
    pub fn cancel_rid(&mut self, rid: u32)
        requires
            old(self).wf(),
        ensures
            final(self).wf(),
            final(self).next_token == old(self).next_token,
            final(self).ops@.len() == old(self).ops@.len(),
            forall|i: int| #![trigger final(self).ops@[i]] 0 <= i < old(self).ops@.len()
                ==> final(self).ops@[i] == (PendingOp {
                    cancelled: old(self).ops@[i].cancelled || old(self).ops@[i].rid == rid,
                    ..old(self).ops@[i]
                }),
            forall|t: u32| final(self).has_token(t) == old(self).has_token(t),
    {
        let n = self.ops.len();
        let mut i: usize = 0;
        while i < n
            invariant
                old(self).wf(),
                n == self.ops@.len(),
                n == old(self).ops@.len(),
                i <= n,
                self.next_token == old(self).next_token,
                forall|j: int| #![trigger self.ops@[j]] 0 <= j < i ==> self.ops@[j]
                    == (PendingOp {
                        cancelled: old(self).ops@[j].cancelled || old(self).ops@[j].rid == rid,
                        ..old(self).ops@[j]
                    }),
                forall|j: int| #![trigger self.ops@[j]] i <= j < n
                    ==> self.ops@[j] == old(self).ops@[j],
            decreases n - i,
        {
            if self.ops[i].rid == rid {
                let op = self.ops[i];
                self.ops.set(i, PendingOp { cancelled: true, ..op });
            }
            i += 1;
        }
        proof {
            assert forall|i: int, j: int| #![trigger self.ops@[i].token, self.ops@[j].token]
                0 <= i < j < self.ops@.len()
                implies self.ops@[i].token != self.ops@[j].token by {
                assert(old(self).ops@[i].token != old(self).ops@[j].token);
            }
            assert forall|t: u32| self.has_token(t) == old(self).has_token(t) by {
                if old(self).has_token(t) {
                    let k = choose|k: int| 0 <= k < old(self).ops@.len()
                        && old(self).ops@[k].token == t;
                    assert(self.ops@[k].token == t);
                }
                if self.has_token(t) {
                    let k = choose|k: int| 0 <= k < self.ops@.len() && self.ops@[k].token == t;
                    assert(old(self).ops@[k].token == t);
                }
            }
        }
    }

    /// Resolves the pending op with this token: removes and returns it. A
    /// token that is not pending (already resolved, or never issued) leaves
    /// the set unchanged.
    pub fn take(&mut self, token: u32) -> (r: Option<PendingOp>)
        requires
            old(self).wf(),
        ensures
            final(self).wf(),
            final(self).next_token == old(self).next_token,
            !old(self).has_token(token) ==> *final(self) == *old(self) && r is None,
            old(self).has_token(token) ==> {
                &&& r == Some(old(self).op_of(token))
                &&& !final(self).has_token(token)
                &&& final(self).count() == old(self).count() - 1
                &&& final(self).ops@ == old(self).ops@.remove(spec_idx_of(old(self).ops@, token))
            },
            forall|t: u32| t != token ==> final(self).has_token(t) == old(self).has_token(t),
            forall|t: u32| t != token && old(self).has_token(t)
                ==> final(self).op_of(t) == old(self).op_of(t),
    {
        let ghost pre = *self;
        let mut i: usize = 0;
        while i < self.ops.len()
            invariant
                *self == pre,
                pre == *old(self),
                pre.wf(),
                i <= self.ops@.len(),
                forall|j: int| 0 <= j < i ==> self.ops@[j].token != token,
            decreases self.ops@.len() - i,
        {
            if self.ops[i].token == token {
                proof {
                    let w = choose|w: int| 0 <= w < pre.ops@.len() && pre.ops@[w].token == token;
                    assert(pre.ops@[w].token == token);
                    if w != i as int {
                        assert(pre.ops@[w].token != pre.ops@[i as int].token);
                    }
                    assert(w == i as int);
                    let w2 = spec_idx_of(pre.ops@, token);
                    assert(pre.ops@[w2].token == token);
                    if w2 != i as int {
                        assert(pre.ops@[w2].token != pre.ops@[i as int].token);
                    }
                    assert(w2 == i as int);
                }
                let op = self.ops.remove(i);
                proof {
                    lemma_remove_preserves_other_tokens(pre.ops@, i as int, token);
                    assert(!self.has_token(token)) by {
                        if self.has_token(token) {
                            let w = choose|w: int| 0 <= w < self.ops@.len()
                                && self.ops@[w].token == token;
                            assert(self.ops@[w].token == token);
                        }
                    }
                    assert forall|a: int| 0 <= a < self.ops@.len()
                        implies self.ops@[a].token < self.next_token by {
                        let b = choose|b: int| 0 <= b < pre.ops@.len()
                            && self.ops@[a] == pre.ops@[b];
                        assert(pre.ops@[b].token < pre.next_token);
                    }
                    assert forall|t: u32| t != token
                        implies self.has_token(t) == pre.has_token(t) by {
                        assert(spec_token_present(self.ops@, t)
                            <==> spec_token_present(pre.ops@, t));
                    }
                    assert forall|t: u32| t != token && pre.has_token(t)
                        implies self.op_of(t) == pre.op_of(t) by {
                        assert(spec_token_present(self.ops@, t));
                        let a = choose|a: int| 0 <= a < self.ops@.len()
                            && self.ops@[a].token == t;
                        let b = choose|b: int| 0 <= b < pre.ops@.len()
                            && self.ops@[a] == pre.ops@[b];
                        assert(pre.ops@[b].token == t);
                        let w = choose|w: int| 0 <= w < pre.ops@.len()
                            && pre.ops@[w].token == t;
                        if b != w {
                            assert(pre.ops@[b].token != pre.ops@[w].token);
                        }
                    }
                }
                return Some(op);
            }
            i += 1;
        }
        assert(!pre.has_token(token)) by {
            if pre.has_token(token) {
                let w = choose|w: int| 0 <= w < pre.ops@.len() && pre.ops@[w].token == token;
                assert(pre.ops@[w].token == token);
            }
        }
        None
    }
}

/// Removing one op keeps every other token present with its op, keeps
/// distinctness, and keeps the token bound.
proof fn lemma_remove_preserves_other_tokens(s: Seq<PendingOp>, i: int, token: u32)
    requires
        0 <= i < s.len(),
        s[i].token == token,
        forall|a: int, b: int| #![trigger s[a].token, s[b].token]
            0 <= a < b < s.len() ==> s[a].token != s[b].token,
    ensures
        forall|a: int, b: int| #![trigger s.remove(i)[a].token, s.remove(i)[b].token]
            0 <= a < b < s.remove(i).len() ==> s.remove(i)[a].token != s.remove(i)[b].token,
        forall|q: u32| #![trigger spec_token_present(s.remove(i), q)]
            q != token ==> (spec_token_present(s.remove(i), q) <==> spec_token_present(s, q)),
        forall|a: int| #![trigger s.remove(i)[a]] 0 <= a < s.remove(i).len()
            ==> exists|b: int| 0 <= b < s.len() && s.remove(i)[a] == s[b],
{
    let t = s.remove(i);
    assert forall|a: int| #![trigger t[a]] 0 <= a < t.len() implies exists|b: int|
        0 <= b < s.len() && t[a] == s[b] by {
        if a < i {
            assert(t[a] == s[a]);
        } else {
            assert(t[a] == s[a + 1]);
        }
    }
    assert forall|a: int, b: int| #![trigger t[a].token, t[b].token]
        0 <= a < b < t.len() implies t[a].token != t[b].token by {
        let a2 = if a < i { a } else { a + 1 };
        let b2 = if b < i { b } else { b + 1 };
        assert(t[a] == s[a2] && t[b] == s[b2]);
    }
    assert forall|q: u32| #![trigger spec_token_present(t, q)] q != token
        implies (spec_token_present(t, q) <==> spec_token_present(s, q)) by {
        if spec_token_present(t, q) {
            let a = choose|a: int| 0 <= a < t.len() && t[a].token == q;
            let a2 = if a < i { a } else { a + 1 };
            assert(s[a2].token == q);
        }
        if spec_token_present(s, q) {
            let a = choose|a: int| 0 <= a < s.len() && s[a].token == q;
            assert(a != i);
            let a2 = if a < i { a } else { a - 1 };
            assert(t[a2].token == q);
        }
    }
}

} // verus!
