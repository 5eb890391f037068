//! The isolate: one instance of the sandboxed runtime.
//!
//! It owns the configuration snapshot, the dispatch table, the resource
//! table and the pending-operation set, and drives the event loop. Script
//! execution is single-threaded and cooperative; async work completes on a
//! worker pool and reports through a single completion channel whose events
//! the embedder hands to the isolate one at a time. Delivery back into the
//! script context is therefore strictly serialized: each response is fully
//! processed before the next completion is consumed, whatever order the
//! pool finishes in.

use vstd::prelude::*;
use crate::control::{
    decode_control, encode_response, err_response, le32_bytes, ok_response, parse_control,
    push_u32_le, ERR_ALREADY_CLOSED, ERR_CANCELLED, ERR_MALFORMED, ERR_NOT_FOUND,
    ERR_UNKNOWN_OP, STATUS_OK,
};
use crate::dispatch::{DispatchTable, HandlerBehavior};
use crate::errors::{ConfigError, ExecError, FatalError};
use crate::pending::{spec_idx_of, spec_token_present, PendingOp, PendingSet};
use crate::resources::{ResourceEntry, ResourceKind, ResourceTable};

verus! {

/// The phases of the event loop. `Idle` before any execution, `Running`
/// while script executes synchronously (including delivery turns),
/// `Draining` while only completions are awaited, `Terminated` at the end.
#[derive(Clone, Copy, PartialEq, Eq, Structural, Debug)]
pub enum LoopState {
    Idle,
    Running,
    Draining,
    Terminated,
}

/// The immutable options snapshot supplied at construction. The core never
/// re-parses or mutates it.
#[derive(Clone, Copy, PartialEq, Eq, Structural, Debug)]
pub struct Config {
    /// Size of the fixed worker pool that runs async op work.
    pub worker_threads: u32,
    /// Verbose diagnostics requested.
    pub log_debug: bool,
}

impl Config {
    /// A configuration is valid exactly when the worker pool is not empty.
    pub fn validate(&self) -> (r: Result<(), ConfigError>)
        ensures
            r == Ok::<(), ConfigError>(()) <==> self.worker_threads >= 1,
            r is Err ==> r == Err::<(), ConfigError>(ConfigError::NoWorkerThreads),
    {
        if self.worker_threads >= 1 {
            Ok(())
        } else {
            Err(ConfigError::NoWorkerThreads)
        }
    }
}

/// What the engine host reports after synchronously running a unit.
#[derive(Clone, Copy, PartialEq, Eq, Structural, Debug)]
pub enum EngineOutcome {
    Success,
    CompileError,
    ThrownException,
}

/// The dispatcher's answer to one op request: response bytes right away,
/// or a pending token whose response arrives through the completion channel.
#[derive(Debug)]
pub enum OpOutcome {
    Sync(Vec<u8>),
    Async(u32),
}

/// One response delivered into the script context.
#[derive(Debug)]
pub struct Delivery {
    pub request_id: u32,
    pub response: Vec<u8>,
}

/// The mathematical model of a delivery.
pub ghost struct DeliveryModel {
    pub request_id: u32,
    pub response: Seq<u8>,
}

impl View for Delivery {
    type V = DeliveryModel;

    open spec fn view(&self) -> DeliveryModel {
        DeliveryModel { request_id: self.request_id, response: self.response@ }
    }
}

/// One event from the completion channel: a worker finished the op with
/// this token and produced this payload.
#[derive(Debug)]
pub struct Completion {
    pub token: u32,
    pub payload: Vec<u8>,
}

/// The response a pending op resolves with: its worker's payload, unless
/// the op was cancelled by closing its resource, in which case the normal
/// response path carries `Cancelled` and never the original payload.
pub open spec fn response_of(op: PendingOp, payload: Seq<u8>) -> Seq<u8> {
    if op.cancelled {
        err_response(op.request_id, ERR_CANCELLED)
    } else {
        ok_response(op.request_id, payload)
    }
}

/// Law: a cancelled op resolves with `Cancelled` through the normal
/// response path — never with the handler's original success payload,
/// whatever the worker computed.
pub proof fn lemma_cancelled_response_is_never_payload(op: PendingOp, payload: Seq<u8>)
    requires
        op.cancelled,
    ensures
        response_of(op, payload) == err_response(op.request_id, ERR_CANCELLED),
        response_of(op, payload) != ok_response(op.request_id, payload),
{
    crate::control::lemma_err_response_is_not_ok(op.request_id, ERR_CANCELLED, payload);
}

/// The deliveries made when the completions `cs` are consumed in order
/// against the pending ops `ops`: a completion whose token is still pending
/// resolves that op and yields exactly one response, in consumption order;
/// a stale token yields nothing. Delivery order is completion order, not
/// issue order.
pub open spec fn drain_spec(ops: Seq<PendingOp>, cs: Seq<Completion>) -> Seq<DeliveryModel>
    decreases cs.len(),
{
    if cs.len() == 0 {
        Seq::empty()
    } else {
        let c = cs[0];
        if spec_token_present(ops, c.token) {
            let i = spec_idx_of(ops, c.token);
            seq![DeliveryModel {
                request_id: ops[i].request_id,
                response: response_of(ops[i], c.payload@),
            }] + drain_spec(ops.remove(i), cs.drop_first())
        } else {
            drain_spec(ops, cs.drop_first())
        }
    }
}

/// The models of a sequence of deliveries.
pub open spec fn deliveries_model(s: Seq<Delivery>) -> Seq<DeliveryModel> {
    Seq::new(s.len(), |i: int| s[i]@)
}

/// One instance of the sandboxed runtime: configuration, dispatch table,
/// resource table, pending ops and loop phase. The ghost `resolved` set
/// records every completion token whose op has been resolved — by a
/// delivered response, or by an explicit cancellation at teardown.
pub struct Isolate {
    pub config: Config,
    pub registry: DispatchTable,
    pub table: ResourceTable,
    pub pending: PendingSet,
    pub state: LoopState,
    pub fatal: bool,
    pub resolved: Ghost<Set<u32>>,
}

impl Isolate {
    /// Well-formedness: the parts are well-formed, every issued token is
    /// either still pending or already resolved and never both, and a
    /// cleanly terminated loop has no pending op left.
    pub open spec fn wf(self) -> bool {
        &&& self.table.wf()
        &&& self.pending.wf()
        &&& self.registry.wf()
        &&& forall|t: u32| #![trigger self.pending.has_token(t)]
            self.pending.has_token(t) ==> !self.resolved@.contains(t) && t
                < self.pending.next_token
        &&& forall|t: u32| #![trigger self.resolved@.contains(t)]
            t < self.pending.next_token ==> self.pending.has_token(t)
                || self.resolved@.contains(t)
        &&& forall|t: u32| #![trigger self.resolved@.contains(t)]
            self.resolved@.contains(t) ==> t < self.pending.next_token
        &&& (self.state == LoopState::Terminated && !self.fatal ==> self.pending.ops@.len()
            == 0)
    }

    /// The parts that a pure routing error must leave untouched.
    pub open spec fn same_stores(pre: Isolate, post: Isolate) -> bool {
        &&& post.table == pre.table
        &&& post.pending == pre.pending
        &&& post.resolved == pre.resolved
    }

    /// The parts no dispatch may change: configuration, registry, fault
    /// flag and loop phase — a dispatch never terminates the loop.
    pub open spec fn same_control_plane(pre: Isolate, post: Isolate) -> bool {
        &&& post.config == pre.config
        &&& post.registry == pre.registry
        &&& post.fatal == pre.fatal
        &&& post.state == pre.state
    }

    /// Constructs an isolate around a configuration snapshot and a dispatch
    /// table: empty resource table, nothing pending, loop idle.
    pub fn new(config: Config, registry: DispatchTable) -> (iso: Isolate)
        requires
            registry.wf(),
        ensures
            iso.wf(),
            iso.config == config,
            iso.registry == registry,
            iso.table.entries@.len() == 0,
            iso.table.next_id == 0,
            iso.pending.ops@.len() == 0,
            iso.pending.next_token == 0,
            iso.state == LoopState::Idle,
            !iso.fatal,
            iso.resolved@ == Set::<u32>::empty(),
    {
        Isolate {
            config,
            registry,
            table: ResourceTable::new(),
            pending: PendingSet::new(),
            state: LoopState::Idle,
            fatal: false,
            resolved: Ghost(Set::empty()),
        }
    }

    /// Records the outcome of compiling and running a unit synchronously
    /// against the engine context. Compile and runtime failures are typed
    /// results, never an implicit abort: the caller decides whether they
    /// are fatal. Success puts the loop in its running phase.
    pub fn execute(&mut self, outcome: EngineOutcome) -> (r: Result<(), ExecError>)
        requires
            old(self).wf(),
            old(self).state == LoopState::Idle,
        ensures
            final(self).wf(),
            Self::same_stores(*old(self), *final(self)),
            final(self).config == old(self).config,
            final(self).registry == old(self).registry,
            final(self).fatal == old(self).fatal,
            outcome == EngineOutcome::Success ==> r == Ok::<(), ExecError>(())
                && final(self).state == LoopState::Running,
            outcome == EngineOutcome::CompileError ==> r == Err::<(), ExecError>(
                ExecError::CompileFailed) && final(self).state == LoopState::Idle,
            outcome == EngineOutcome::ThrownException ==> r == Err::<(), ExecError>(
                ExecError::ScriptFailed) && final(self).state == LoopState::Idle,
    {
        match outcome {
            EngineOutcome::Success => {
                self.state = LoopState::Running;
                Ok(())
            },
            EngineOutcome::CompileError => Err(ExecError::CompileFailed),
            EngineOutcome::ThrownException => Err(ExecError::ScriptFailed),
        }
    }

    /// Consumes one completion event. A token still pending resolves to
    /// exactly one delivery — the worker's payload, or `Cancelled` if the
    /// op's resource was closed in the meantime — and opens a short running
    /// phase for the delivery turn. A stale token (already resolved, or
    /// never issued) changes nothing and yields nothing: no op is ever
    /// resolved twice.
    pub fn on_completion(&mut self, token: u32, payload: &Vec<u8>) -> (r: Option<Delivery>)
        requires
            old(self).wf(),
        ensures
            final(self).wf(),
            final(self).config == old(self).config,
            final(self).registry == old(self).registry,
            final(self).fatal == old(self).fatal,
            final(self).table == old(self).table,
            final(self).pending.next_token == old(self).pending.next_token,
            !old(self).pending.has_token(token) ==> *final(self) == *old(self) && r is None,
            old(self).pending.has_token(token) ==> {
                let op = old(self).pending.op_of(token);
                &&& r matches Some(d) && d.request_id == op.request_id && d.response@
                    == response_of(op, payload@)
                &&& final(self).pending.ops@ == old(self).pending.ops@.remove(
                    spec_idx_of(old(self).pending.ops@, token))
                &&& !final(self).pending.has_token(token)
                &&& final(self).pending.count() == old(self).pending.count() - 1
                &&& forall|t: u32| t != token ==> final(self).pending.has_token(t) == old(
                    self).pending.has_token(t)
                &&& forall|t: u32| t != token && old(self).pending.has_token(t) ==> final(
                    self).pending.op_of(t) == old(self).pending.op_of(t)
                &&& final(self).resolved@ == old(self).resolved@.insert(token)
                &&& final(self).state == LoopState::Running
            },
    {
        match self.pending.take(token) {
            None => None,
            Some(op) => {
                self.state = LoopState::Running;
                proof {
                    self.resolved@ = self.resolved@.insert(token);
                    assert forall|t: u32| #![trigger self.pending.has_token(t)]
                        self.pending.has_token(t) implies !self.resolved@.contains(t) && t
                        < self.pending.next_token by {
                        assert(t != token);
                        assert(old(self).pending.has_token(t));
                    }
                    assert forall|t: u32| #![trigger self.resolved@.contains(t)]
                        t < self.pending.next_token implies self.pending.has_token(t)
                        || self.resolved@.contains(t) by {
                        if t != token && old(self).pending.has_token(t) {
                            assert(self.pending.has_token(t));
                        }
                    }
                }
                let resp = if op.cancelled {
                    let empty: Vec<u8> = Vec::new();
                    let r = encode_response(op.request_id, ERR_CANCELLED, &empty);
                    assert(r@ =~= err_response(op.request_id, ERR_CANCELLED));
                    r
                } else {
                    encode_response(op.request_id, STATUS_OK, payload)
                };
                Some(Delivery { request_id: op.request_id, response: resp })
            },
        }
    }

    /// Called when script has no further synchronous work. With nothing
    /// pending the loop terminates at once; with work still in flight it
    /// drains, polling only for completions.
    pub fn on_script_idle(&mut self) -> (done: bool)
        requires
            old(self).wf(),
            old(self).state == LoopState::Running,
        ensures
            final(self).wf(),
            Self::same_stores(*old(self), *final(self)),
            final(self).config == old(self).config,
            final(self).registry == old(self).registry,
            final(self).fatal == old(self).fatal,
            done == (old(self).pending.count() == 0),
            old(self).pending.count() == 0 ==> final(self).state == LoopState::Terminated,
            old(self).pending.count() != 0 ==> final(self).state == LoopState::Draining,
    {
        if self.pending.ops.len() == 0 {
            self.state = LoopState::Terminated;
            true
        } else {
            self.state = LoopState::Draining;
            false
        }
    }

    /// Records an uncaught top-level script exception or unrecoverable
    /// native fault: the loop aborts. In-flight work is not resolved; the
    /// caller performs best-effort diagnostics and terminates.
    pub fn on_fatal(&mut self) -> (e: FatalError)
        requires
            old(self).wf(),
        ensures
            final(self).wf(),
            Self::same_stores(*old(self), *final(self)),
            final(self).config == old(self).config,
            final(self).registry == old(self).registry,
            e == FatalError::EngineFatal,
            final(self).state == LoopState::Terminated,
            final(self).fatal,
    {
        self.fatal = true;
        self.state = LoopState::Terminated;
        FatalError::EngineFatal
    }

    /// Tears the isolate down: force-closes every remaining resource and
    /// discards in-flight results, resolving their ops by explicit
    /// cancellation. Ids and tokens are not reused afterwards.
    pub fn teardown(&mut self)
        requires
            old(self).wf(),
        ensures
            final(self).wf(),
            final(self).config == old(self).config,
            final(self).registry == old(self).registry,
            final(self).table.entries@.len() == 0,
            final(self).table.next_id == old(self).table.next_id,
            final(self).pending.ops@.len() == 0,
            final(self).pending.next_token == old(self).pending.next_token,
            final(self).state == LoopState::Terminated,
            forall|t: u32| #![trigger final(self).resolved@.contains(t)]
                final(self).resolved@.contains(t) <==> (old(self).resolved@.contains(t)
                || old(self).pending.has_token(t)),
    {
        self.table.entries.clear();
        self.pending.ops.clear();
        self.state = LoopState::Terminated;
        proof {
            self.resolved@ = self.resolved@.union(
                Set::new(|t: u32| spec_token_present(old(self).pending.ops@, t)));
        }
    }

    /// What a registered handler does, per behavior, to the stores and to
    /// the outcome. `pre` and `post` are the isolate before and after the
    /// dispatch, `c` the parsed request, `data` the raw payload buffer.
    pub open spec fn handler_post(
        pre: Isolate,
        post: Isolate,
        c: crate::control::ControlView,
        data: Seq<u8>,
        r: OpOutcome,
    ) -> bool {
        match pre.registry.behavior_of(c.op_id) {
            HandlerBehavior::Echo => Self::same_stores(pre, post) && (r matches
                OpOutcome::Sync(v) && v@ == ok_response(c.request_id, data)),
            HandlerBehavior::OpenResource(k) => {
                &&& post.pending == pre.pending
                &&& post.resolved == pre.resolved
                &&& post.table.entries@ == pre.table.entries@.push(
                    (ResourceEntry { id: pre.table.next_id, kind: k }))
                &&& post.table.next_id == pre.table.next_id + 1
                &&& (r matches OpOutcome::Sync(v) && v@ == ok_response(
                    c.request_id, le32_bytes(pre.table.next_id)))
            },
            HandlerBehavior::CloseResource => {
                if c.args.len() == 0 {
                    Self::same_stores(pre, post) && (r matches OpOutcome::Sync(v) && v@
                        == err_response(c.request_id, ERR_MALFORMED))
                } else {
                    let rid = c.args[0];
                    if pre.table.has(rid) {
                        &&& post.resolved == pre.resolved
                        &&& !post.table.has(rid)
                        &&& post.table.next_id == pre.table.next_id
                        &&& post.table.open_count() == pre.table.open_count() - 1
                        &&& forall|q: u32| q != rid ==> post.table.has(q) == pre.table.has(q)
                        &&& forall|q: u32| q != rid && pre.table.has(q)
                            ==> post.table.kind_of(q) == pre.table.kind_of(q)
                        &&& post.pending.next_token == pre.pending.next_token
                        &&& post.pending.ops@.len() == pre.pending.ops@.len()
                        &&& forall|i: int| #![trigger post.pending.ops@[i]]
                            0 <= i < pre.pending.ops@.len() ==> post.pending.ops@[i]
                                == (PendingOp {
                                    cancelled: pre.pending.ops@[i].cancelled
                                        || pre.pending.ops@[i].rid == rid,
                                    ..pre.pending.ops@[i]
                                })
                        &&& (r matches OpOutcome::Sync(v) && v@ == ok_response(
                            c.request_id, Seq::empty()))
                    } else if rid < pre.table.next_id {
                        Self::same_stores(pre, post) && (r matches OpOutcome::Sync(v) && v@
                            == err_response(c.request_id, ERR_ALREADY_CLOSED))
                    } else {
                        Self::same_stores(pre, post) && (r matches OpOutcome::Sync(v) && v@
                            == err_response(c.request_id, ERR_NOT_FOUND))
                    }
                }
            },
            HandlerBehavior::StartAsync => {
                if c.args.len() == 0 {
                    Self::same_stores(pre, post) && (r matches OpOutcome::Sync(v) && v@
                        == err_response(c.request_id, ERR_MALFORMED))
                } else if !pre.table.has(c.args[0]) {
                    Self::same_stores(pre, post) && (r matches OpOutcome::Sync(v) && v@
                        == err_response(c.request_id, ERR_NOT_FOUND))
                } else {
                    &&& post.table == pre.table
                    &&& post.resolved == pre.resolved
                    &&& post.pending.ops@ == pre.pending.ops@.push((PendingOp {
                        token: pre.pending.next_token,
                        rid: c.args[0],
                        request_id: c.request_id,
                        cancelled: false,
                    }))
                    &&& post.pending.next_token == pre.pending.next_token + 1
                    &&& r == OpOutcome::Async(pre.pending.next_token)
                }
            },
            HandlerBehavior::ArmTimer => {
                &&& post.resolved == pre.resolved
                &&& post.table.entries@ == pre.table.entries@.push(
                    (ResourceEntry { id: pre.table.next_id, kind: ResourceKind::Timer }))
                &&& post.table.next_id == pre.table.next_id + 1
                &&& post.pending.ops@ == pre.pending.ops@.push((PendingOp {
                    token: pre.pending.next_token,
                    rid: pre.table.next_id,
                    request_id: c.request_id,
                    cancelled: false,
                }))
                &&& post.pending.next_token == pre.pending.next_token + 1
                &&& r == OpOutcome::Async(pre.pending.next_token)
            },
        }
    }

    /// Routes one numbered request from script. A structurally invalid
    /// control buffer or an unknown op id is answered with an ordinary,
    /// non-fatal error response and affects no state. A registered handler
    /// validates its arguments, performs its synchronous side effect on the
    /// resource table immediately, and answers either with bytes or with a
    /// fresh pending token for work deferred to the pool. Dispatch never
    /// blocks and never changes the loop phase.
    pub fn dispatch(&mut self, control: &Vec<u8>, data: &Vec<u8>) -> (r: OpOutcome)
        requires
            old(self).wf(),
            old(self).state != LoopState::Terminated,
            old(self).table.next_id < u32::MAX,
            old(self).pending.next_token < u32::MAX,
        ensures
            final(self).wf(),
            Self::same_control_plane(*old(self), *final(self)),
            parse_control(control@) is None ==> Self::same_stores(*old(self), *final(self))
                && (r matches OpOutcome::Sync(v) && v@ == err_response(0, ERR_MALFORMED)),
            parse_control(control@) matches Some(c) ==> {
                &&& !old(self).registry.registered(c.op_id) ==> Self::same_stores(
                    *old(self), *final(self)) && (r matches OpOutcome::Sync(v) && v@
                    == err_response(c.request_id, ERR_UNKNOWN_OP))
                &&& old(self).registry.registered(c.op_id) ==> Self::handler_post(
                    *old(self), *final(self), c, data@, r)
            },
    {
        let req = match decode_control(control) {
            Ok(q) => q,
            Err(_) => {
                let empty: Vec<u8> = Vec::new();
                let resp = encode_response(0, ERR_MALFORMED, &empty);
                assert(resp@ =~= err_response(0, ERR_MALFORMED));
                return OpOutcome::Sync(resp);
            },
        };
        let behavior = match self.registry.lookup(req.op_id) {
            Some(b) => b,
            None => {
                let empty: Vec<u8> = Vec::new();
                let resp = encode_response(req.request_id, ERR_UNKNOWN_OP, &empty);
                assert(resp@ =~= err_response(req.request_id, ERR_UNKNOWN_OP));
                return OpOutcome::Sync(resp);
            },
        };
        match behavior {
            HandlerBehavior::Echo => {
                let resp = encode_response(req.request_id, STATUS_OK, data);
                OpOutcome::Sync(resp)
            },
            HandlerBehavior::OpenResource(kind) => {
                let id = self.table.allocate(kind);
                let mut payload: Vec<u8> = Vec::new();
                push_u32_le(&mut payload, id);
                assert(payload@ =~= le32_bytes(id));
                let resp = encode_response(req.request_id, STATUS_OK, &payload);
                OpOutcome::Sync(resp)
            },
            HandlerBehavior::CloseResource => {
                if req.args.len() == 0 {
                    let empty: Vec<u8> = Vec::new();
                    let resp = encode_response(req.request_id, ERR_MALFORMED, &empty);
                    assert(resp@ =~= err_response(req.request_id, ERR_MALFORMED));
                    return OpOutcome::Sync(resp);
                }
                let rid = req.args[0];
                match self.table.close(rid) {
                    Ok(()) => {
                        self.pending.cancel_rid(rid);
                        let empty: Vec<u8> = Vec::new();
                        let resp = encode_response(req.request_id, STATUS_OK, &empty);
                        assert(resp@ =~= ok_response(req.request_id, Seq::empty()));
                        OpOutcome::Sync(resp)
                    },
                    Err(e) => {
                        let code = if matches!(e, crate::errors::ResourceError::AlreadyClosed) {
                            ERR_ALREADY_CLOSED
                        } else {
                            ERR_NOT_FOUND
                        };
                        let empty: Vec<u8> = Vec::new();
                        let resp = encode_response(req.request_id, code, &empty);
                        assert(resp@ =~= err_response(req.request_id, code));
                        OpOutcome::Sync(resp)
                    },
                }
            },
            HandlerBehavior::StartAsync => {
                if req.args.len() == 0 {
                    let empty: Vec<u8> = Vec::new();
                    let resp = encode_response(req.request_id, ERR_MALFORMED, &empty);
                    assert(resp@ =~= err_response(req.request_id, ERR_MALFORMED));
                    return OpOutcome::Sync(resp);
                }
                let rid = req.args[0];
                match self.table.get(rid) {
                    Ok(_) => {
                        let token = self.pending.register(rid, req.request_id);
                        proof {
                            self.lemma_wf_after_register(*old(self), token);
                        }
                        OpOutcome::Async(token)
                    },
                    Err(_) => {
                        let empty: Vec<u8> = Vec::new();
                        let resp = encode_response(req.request_id, ERR_NOT_FOUND, &empty);
                        assert(resp@ =~= err_response(req.request_id, ERR_NOT_FOUND));
                        OpOutcome::Sync(resp)
                    },
                }
            },
            HandlerBehavior::ArmTimer => {
                let rid = self.table.allocate(ResourceKind::Timer);
                let token = self.pending.register(rid, req.request_id);
                proof {
                    self.lemma_wf_after_register(*old(self), token);
                }
                OpOutcome::Async(token)
            },
        }
    }

    /// After registering one fresh pending token on a well-formed isolate
    /// whose loop has not terminated, the token bookkeeping is well-formed
    /// again.
    proof fn lemma_wf_after_register(self, pre: Isolate, token: u32)
        requires
            pre.wf(),
            pre.state != LoopState::Terminated,
            self.state == pre.state,
            self.fatal == pre.fatal,
            self.resolved == pre.resolved,
            token == pre.pending.next_token,
            self.pending.next_token == pre.pending.next_token + 1,
            self.pending.has_token(token),
            forall|t: u32| t != token ==> self.pending.has_token(t) == pre.pending.has_token(t),
        ensures
            forall|t: u32| #![trigger self.pending.has_token(t)]
                self.pending.has_token(t) ==> !self.resolved@.contains(t) && t
                    < self.pending.next_token,
            forall|t: u32| #![trigger self.resolved@.contains(t)]
                t < self.pending.next_token ==> self.pending.has_token(t)
                    || self.resolved@.contains(t),
            forall|t: u32| #![trigger self.resolved@.contains(t)]
                self.resolved@.contains(t) ==> t < self.pending.next_token,
            self.state == LoopState::Terminated && !self.fatal ==> self.pending.ops@.len()
                == 0,
    {
        assert forall|t: u32| #![trigger self.pending.has_token(t)]
            self.pending.has_token(t) implies !self.resolved@.contains(t) && t
            < self.pending.next_token by {
            if t != token {
                assert(pre.pending.has_token(t));
            } else {
                if self.resolved@.contains(t) {
                    assert(t < pre.pending.next_token);
                }
            }
        }
        assert forall|t: u32| #![trigger self.resolved@.contains(t)]
            t < self.pending.next_token implies self.pending.has_token(t)
            || self.resolved@.contains(t) by {
            if t < pre.pending.next_token {
                if pre.pending.has_token(t) {
                    assert(t != token);
                }
            } else {
                assert(t == token);
            }
        }
    }

    /// Drives the event loop over a batch of completion events, consuming
    /// them strictly in order. Every completion whose token is still
    /// pending is resolved into exactly one delivery turn — the responses
    /// returned here, in consumption order, are `drain_spec` of the batch:
    /// whichever op completes first is delivered first, whatever order the
    /// ops were issued in, and no two deliveries interleave. A stale token
    /// is ignored. After the batch the loop terminates when nothing is
    /// pending and keeps draining otherwise.
    pub fn event_loop(&mut self, completions: &Vec<Completion>) -> (r: Vec<Delivery>)
        requires
            old(self).wf(),
            old(self).state == LoopState::Running,
        ensures
            final(self).wf(),
            final(self).config == old(self).config,
            final(self).registry == old(self).registry,
            final(self).table == old(self).table,
            final(self).fatal == old(self).fatal,
            deliveries_model(r@) == drain_spec(old(self).pending.ops@, completions@),
            final(self).pending.count() == 0 <==> final(self).state == LoopState::Terminated,
            final(self).pending.count() != 0 <==> final(self).state == LoopState::Draining,
    {
        let mut out: Vec<Delivery> = Vec::new();
        let mut i: usize = 0;
        proof {
            assert(completions@.skip(0) =~= completions@);
            assert(deliveries_model(out@) =~= Seq::<DeliveryModel>::empty());
        }
        while i < completions.len()
            invariant
                self.wf(),
                self.state == LoopState::Running,
                self.config == old(self).config,
                self.registry == old(self).registry,
                self.table == old(self).table,
                self.fatal == old(self).fatal,
                i <= completions@.len(),
                deliveries_model(out@) + drain_spec(self.pending.ops@, completions@.skip(
                    i as int)) == drain_spec(old(self).pending.ops@, completions@),
            decreases completions@.len() - i,
        {
            let ghost pre_ops = self.pending.ops@;
            let ghost rest = completions@.skip(i as int);
            let ghost total = drain_spec(old(self).pending.ops@, completions@);
            let c = &completions[i];
            proof {
                assert(rest[0] == completions@[i as int]);
                assert(rest.drop_first() =~= completions@.skip(i as int + 1));
            }
            let d = self.on_completion(c.token, &c.payload);
            match d {
                Some(dd) => {
                    proof {
                        let idx = spec_idx_of(pre_ops, c.token);
                        assert(drain_spec(pre_ops, rest) == seq![DeliveryModel {
                            request_id: pre_ops[idx].request_id,
                            response: response_of(pre_ops[idx], rest[0].payload@),
                        }] + drain_spec(pre_ops.remove(idx), rest.drop_first()));
                        assert(dd@ == (DeliveryModel {
                            request_id: pre_ops[idx].request_id,
                            response: response_of(pre_ops[idx], rest[0].payload@),
                        }));
                        assert(deliveries_model(out@.push(dd)) =~= deliveries_model(out@)
                            + seq![dd@]);
                        assert((deliveries_model(out@) + seq![dd@]) + drain_spec(
                            self.pending.ops@, completions@.skip(i as int + 1))
                            =~= deliveries_model(out@) + (seq![dd@] + drain_spec(
                            self.pending.ops@, completions@.skip(i as int + 1))));
                    }
                    out.push(dd);
                },
                None => {
                    proof {
                        assert(drain_spec(pre_ops, rest) == drain_spec(pre_ops,
                            rest.drop_first()));
                    }
                },
            }
            i += 1;
        }
        proof {
            assert(completions@.skip(completions@.len() as int)
                =~= Seq::<Completion>::empty());
            assert(deliveries_model(out@) + Seq::<DeliveryModel>::empty()
                =~= deliveries_model(out@));
        }
        self.on_script_idle();
        out
    }

    /// Law: dispatched async ops never leak — when the loop reaches clean
    /// termination, nothing is pending and every token the isolate ever
    /// issued has been resolved, by a delivered response or an explicit
    /// cancellation.
    pub proof fn lemma_terminated_resolves_all(iso: Isolate)
        requires
            iso.wf(),
            iso.state == LoopState::Terminated,
            !iso.fatal,
        ensures
            iso.pending.count() == 0,
            forall|t: u32| t < iso.pending.next_token ==> iso.resolved@.contains(t),
    {
        assert forall|t: u32| t < iso.pending.next_token implies iso.resolved@.contains(t) by {
            if iso.pending.has_token(t) {
                let i = choose|i: int| 0 <= i < iso.pending.ops@.len()
                    && iso.pending.ops@[i].token == t;
                assert(0 <= i < 0);
            }
        }
    }

    /// Law: an op is resolved at most once — a resolved token is no longer
    /// pending, so a late completion for it is ignored rather than
    /// delivered a second time.
    pub proof fn lemma_resolved_never_pending(iso: Isolate, t: u32)
        requires
            iso.wf(),
            iso.resolved@.contains(t),
        ensures
            !iso.pending.has_token(t),
    {
    }
}

} // verus!
