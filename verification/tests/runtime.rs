use isolate_rt::control::{
    encode_control, encode_response, ControlRequest, ERR_ALREADY_CLOSED, ERR_CANCELLED,
    ERR_MALFORMED, ERR_NOT_FOUND, ERR_UNKNOWN_OP, STATUS_OK,
};
use isolate_rt::dispatch::{DispatchTable, HandlerBehavior};
use isolate_rt::errors::{ConfigError, ExecError, FatalError, ResourceError};
use isolate_rt::isolate::{
    Completion, Config, EngineOutcome, Isolate, LoopState, OpOutcome,
};
use isolate_rt::resources::{ResourceKind, ResourceTable};

const OP_ECHO: u32 = 1;
const OP_OPEN_FILE: u32 = 2;
const OP_CLOSE: u32 = 3;
const OP_READ: u32 = 4;
const OP_TIMER: u32 = 5;

fn registry() -> DispatchTable {
    let mut t = DispatchTable::new();
    assert!(t.register(OP_ECHO, HandlerBehavior::Echo));
    assert!(t.register(OP_OPEN_FILE, HandlerBehavior::OpenResource(ResourceKind::File)));
    assert!(t.register(OP_CLOSE, HandlerBehavior::CloseResource));
    assert!(t.register(OP_READ, HandlerBehavior::StartAsync));
    assert!(t.register(OP_TIMER, HandlerBehavior::ArmTimer));
    t
}

fn isolate() -> Isolate {
    Isolate::new(Config { worker_threads: 4, log_debug: false }, registry())
}

fn control(op_id: u32, request_id: u32, is_async: bool, args: Vec<u32>) -> Vec<u8> {
    encode_control(&ControlRequest { op_id, request_id, is_async, args })
}

fn response(request_id: u32, status: u8, payload: &[u8]) -> Vec<u8> {
    encode_response(request_id, status, &payload.to_vec())
}

fn sync_bytes(r: OpOutcome) -> Vec<u8> {
    match r {
        OpOutcome::Sync(v) => v,
        OpOutcome::Async(t) => panic!("expected a sync outcome, got token {}", t),
    }
}

fn async_token(r: OpOutcome) -> u32 {
    match r {
        OpOutcome::Async(t) => t,
        OpOutcome::Sync(v) => panic!("expected an async outcome, got bytes {:?}", v),
    }
}

#[test]
fn config_validation() {
    assert_eq!(Config { worker_threads: 0, log_debug: false }.validate(),
        Err(ConfigError::NoWorkerThreads));
    assert_eq!(Config { worker_threads: 1, log_debug: true }.validate(), Ok(()));
}

#[test]
fn duplicate_op_id_is_refused() {
    let mut t = registry();
    assert!(!t.register(OP_ECHO, HandlerBehavior::CloseResource));
}

#[test]
fn execute_outcomes_are_typed() {
    let mut iso = isolate();
    assert_eq!(iso.state, LoopState::Idle);
    assert_eq!(iso.execute(EngineOutcome::CompileError), Err(ExecError::CompileFailed));
    assert_eq!(iso.state, LoopState::Idle);
    assert_eq!(iso.execute(EngineOutcome::ThrownException), Err(ExecError::ScriptFailed));
    assert_eq!(iso.execute(EngineOutcome::Success), Ok(()));
    assert_eq!(iso.state, LoopState::Running);
}

#[test]
fn resource_ids_are_unique_and_never_reused() {
    let mut t = ResourceTable::new();
    let mut ids = Vec::new();
    for _ in 0..5 {
        ids.push(t.allocate(ResourceKind::File));
    }
    assert_eq!(ids, vec![0, 1, 2, 3, 4]);
    for order in [2u32, 0, 4, 1, 3] {
        assert_eq!(t.close(order), Ok(()));
        // Whatever subset remains open, its ids stay pairwise distinct.
        for i in 0..t.entries.len() {
            for j in 0..t.entries.len() {
                if i != j {
                    assert_ne!(t.entries[i].id, t.entries[j].id);
                }
            }
        }
    }
    // Ids are never reused, even once everything is closed.
    assert_eq!(t.allocate(ResourceKind::Timer), 5);
}

#[test]
fn close_distinguishes_never_allocated_from_closed() {
    let mut t = ResourceTable::new();
    let id = t.allocate(ResourceKind::NetStream);
    assert_eq!(t.close(99), Err(ResourceError::NotFound));
    assert_eq!(t.close(id), Ok(()));
    assert_eq!(t.close(id), Err(ResourceError::AlreadyClosed));
    assert_eq!(t.get(id), Err(ResourceError::NotFound));
}

#[test]
fn dispatch_malformed_buffer() {
    let mut iso = isolate();
    let bytes = sync_bytes(iso.dispatch(&vec![3, 1, 4], &Vec::new()));
    assert_eq!(bytes, response(0, ERR_MALFORMED, &[]));
}

#[test]
fn dispatch_unknown_op_changes_nothing() {
    let mut iso = isolate();
    iso.execute(EngineOutcome::Success).unwrap();
    let open_before = iso.table.entries.len();
    let pending_before = iso.pending.ops.len();
    let bytes = sync_bytes(iso.dispatch(&control(99, 7, false, vec![]), &Vec::new()));
    assert_eq!(bytes, response(7, ERR_UNKNOWN_OP, &[]));
    assert_eq!(iso.table.entries.len(), open_before);
    assert_eq!(iso.pending.ops.len(), pending_before);
    // The loop is not terminated by an unknown op.
    assert_eq!(iso.state, LoopState::Running);
}

#[test]
fn dispatch_echo_returns_payload() {
    let mut iso = isolate();
    let data: Vec<u8> = vec![9, 8, 7];
    let bytes = sync_bytes(iso.dispatch(&control(OP_ECHO, 11, false, vec![]), &data));
    assert_eq!(bytes, response(11, STATUS_OK, &[9, 8, 7]));
}

#[test]
fn open_resource_returns_fresh_ids() {
    let mut iso = isolate();
    let first = sync_bytes(iso.dispatch(&control(OP_OPEN_FILE, 1, false, vec![]), &Vec::new()));
    assert_eq!(first, response(1, STATUS_OK, &[0, 0, 0, 0]));
    let second = sync_bytes(iso.dispatch(&control(OP_OPEN_FILE, 2, false, vec![]), &Vec::new()));
    assert_eq!(second, response(2, STATUS_OK, &[1, 0, 0, 0]));
    assert_eq!(iso.table.entries.len(), 2);
}

#[test]
fn close_error_codes() {
    let mut iso = isolate();
    sync_bytes(iso.dispatch(&control(OP_OPEN_FILE, 1, false, vec![]), &Vec::new()));
    // Missing argument: the handler rejects the request as malformed.
    let no_args = sync_bytes(iso.dispatch(&control(OP_CLOSE, 2, false, vec![]), &Vec::new()));
    assert_eq!(no_args, response(2, ERR_MALFORMED, &[]));
    let never = sync_bytes(iso.dispatch(&control(OP_CLOSE, 3, false, vec![9]), &Vec::new()));
    assert_eq!(never, response(3, ERR_NOT_FOUND, &[]));
    let ok = sync_bytes(iso.dispatch(&control(OP_CLOSE, 4, false, vec![0]), &Vec::new()));
    assert_eq!(ok, response(4, STATUS_OK, &[]));
    let again = sync_bytes(iso.dispatch(&control(OP_CLOSE, 5, false, vec![0]), &Vec::new()));
    assert_eq!(again, response(5, ERR_ALREADY_CLOSED, &[]));
}

#[test]
fn start_async_needs_an_open_resource() {
    let mut iso = isolate();
    let missing = sync_bytes(iso.dispatch(&control(OP_READ, 1, true, vec![0]), &Vec::new()));
    assert_eq!(missing, response(1, ERR_NOT_FOUND, &[]));
    sync_bytes(iso.dispatch(&control(OP_OPEN_FILE, 2, false, vec![]), &Vec::new()));
    let token = async_token(iso.dispatch(&control(OP_READ, 3, true, vec![0]), &Vec::new()));
    assert_eq!(token, 0);
    assert_eq!(iso.pending.ops.len(), 1);
}

#[test]
fn close_cancels_in_flight_work() {
    let mut iso = isolate();
    iso.execute(EngineOutcome::Success).unwrap();
    sync_bytes(iso.dispatch(&control(OP_OPEN_FILE, 1, false, vec![]), &Vec::new()));
    let token = async_token(iso.dispatch(&control(OP_READ, 2, true, vec![0]), &Vec::new()));
    // Closing is synchronous at the table level: the entry is gone at once,
    // while the worker is still in flight.
    sync_bytes(iso.dispatch(&control(OP_CLOSE, 3, false, vec![0]), &Vec::new()));
    assert_eq!(iso.table.entries.len(), 0);
    assert_eq!(iso.pending.ops.len(), 1);
    // The worker's late result arrives with its original payload; the
    // response is Cancelled, never that payload.
    let d = iso.on_completion(token, &vec![42, 42]).unwrap();
    assert_eq!(d.request_id, 2);
    assert_eq!(d.response, response(2, ERR_CANCELLED, &[]));
    assert_ne!(d.response, response(2, STATUS_OK, &[42, 42]));
    assert_eq!(iso.pending.ops.len(), 0);
}

#[test]
fn delivery_follows_completion_order_not_issue_order() {
    let mut iso = isolate();
    iso.execute(EngineOutcome::Success).unwrap();
    sync_bytes(iso.dispatch(&control(OP_OPEN_FILE, 1, false, vec![]), &Vec::new()));
    // A is issued first and finishes slow; B is issued second and fast.
    let token_a = async_token(iso.dispatch(&control(OP_READ, 10, true, vec![0]), &Vec::new()));
    let token_b = async_token(iso.dispatch(&control(OP_READ, 11, true, vec![0]), &Vec::new()));
    let completions = vec![
        Completion { token: token_b, payload: vec![0xbb] },
        Completion { token: token_a, payload: vec![0xaa] },
    ];
    let deliveries = iso.event_loop(&completions);
    // B's response is delivered before A's, each turn run to completion.
    assert_eq!(deliveries.len(), 2);
    assert_eq!(deliveries[0].request_id, 11);
    assert_eq!(deliveries[0].response, response(11, STATUS_OK, &[0xbb]));
    assert_eq!(deliveries[1].request_id, 10);
    assert_eq!(deliveries[1].response, response(10, STATUS_OK, &[0xaa]));
    assert_eq!(iso.state, LoopState::Terminated);
}

#[test]
fn stale_completion_is_ignored() {
    let mut iso = isolate();
    assert!(iso.on_completion(77, &vec![1]).is_none());
    assert_eq!(iso.pending.ops.len(), 0);
}

#[test]
fn a_response_is_delivered_at_most_once() {
    let mut iso = isolate();
    sync_bytes(iso.dispatch(&control(OP_OPEN_FILE, 1, false, vec![]), &Vec::new()));
    let token = async_token(iso.dispatch(&control(OP_READ, 2, true, vec![0]), &Vec::new()));
    assert!(iso.on_completion(token, &vec![5]).is_some());
    assert!(iso.on_completion(token, &vec![5]).is_none());
}

#[test]
fn zero_ops_terminates_immediately() {
    let mut iso = isolate();
    iso.execute(EngineOutcome::Success).unwrap();
    assert!(iso.on_script_idle());
    assert_eq!(iso.state, LoopState::Terminated);
}

#[test]
fn armed_timers_delay_termination() {
    let mut iso = isolate();
    iso.execute(EngineOutcome::Success).unwrap();
    let t1 = async_token(iso.dispatch(&control(OP_TIMER, 1, true, vec![]), &Vec::new()));
    let t2 = async_token(iso.dispatch(&control(OP_TIMER, 2, true, vec![]), &Vec::new()));
    let t3 = async_token(iso.dispatch(&control(OP_TIMER, 3, true, vec![]), &Vec::new()));
    // Two of three expiries: the loop must keep draining.
    let expiries = vec![
        Completion { token: t1, payload: vec![] },
        Completion { token: t2, payload: vec![] },
    ];
    let deliveries = iso.event_loop(&expiries);
    assert_eq!(deliveries.len(), 2);
    assert_eq!(iso.state, LoopState::Draining);
    // The last expiry arrives: deliver it, and only then terminate.
    let d = iso.on_completion(t3, &Vec::new()).unwrap();
    assert_eq!(d.request_id, 3);
    assert_eq!(iso.state, LoopState::Running);
    assert!(iso.on_script_idle());
    assert_eq!(iso.state, LoopState::Terminated);
}

#[test]
fn fatal_failure_terminates_the_loop() {
    let mut iso = isolate();
    iso.execute(EngineOutcome::Success).unwrap();
    assert_eq!(iso.on_fatal(), FatalError::EngineFatal);
    assert_eq!(iso.state, LoopState::Terminated);
}

#[test]
fn teardown_force_closes_everything() {
    let mut iso = isolate();
    sync_bytes(iso.dispatch(&control(OP_OPEN_FILE, 1, false, vec![]), &Vec::new()));
    sync_bytes(iso.dispatch(&control(OP_OPEN_FILE, 2, false, vec![]), &Vec::new()));
    async_token(iso.dispatch(&control(OP_READ, 3, true, vec![0]), &Vec::new()));
    iso.teardown();
    assert_eq!(iso.table.entries.len(), 0);
    assert_eq!(iso.pending.ops.len(), 0);
    assert_eq!(iso.state, LoopState::Terminated);
}
