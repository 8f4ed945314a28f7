use ddquery::command::{ClientCommand, ControlCommand};
use ddquery::gid::GID;
use ddquery::name::Name;
use ddquery::row::Row;
use ddquery::system::{ClientResponse, System};
use ddquery::timestamp::SysTime;
use ddquery::trace::Trace;
use ddquery::worker::{PendingQuery, WorkerContext};
use ddquery::PeekResult;

fn create(sys: &mut System, name: &str) {
    match sys.step(ClientCommand::CreateInputAndTrace { name: Name::new(name) }) {
        ClientResponse::Done => {}
        _ => panic!("creation failed"),
    }
}

fn upsert(sys: &mut System, name: &str, key: i64, value: i64) {
    match sys.step(ClientCommand::Upsert {
        name: Name::new(name),
        key: Row::new(key),
        value: Some(Row::new(value)),
    }) {
        ClientResponse::Done => {}
        _ => panic!("upsert failed"),
    }
}

fn delete(sys: &mut System, name: &str, key: i64) {
    match sys.step(ClientCommand::Upsert {
        name: Name::new(name),
        key: Row::new(key),
        value: None,
    }) {
        ClientResponse::Done => {}
        _ => panic!("delete failed"),
    }
}

fn query(sys: &mut System, name: &str, key: i64) -> Vec<Row> {
    match sys.step(ClientCommand::Query { name: Name::new(name), key: Row::new(key) }) {
        ClientResponse::Rows { gid: _, rows } => rows,
        _ => panic!("query failed"),
    }
}

#[test]
fn smoke() {
    let mut sys = System::new(1);
    create(&mut sys, "t1");

    upsert(&mut sys, "t1", 1, 103);
    let d = query(&mut sys, "t1", 1);
    assert_eq!(d, vec![Row::new(103)]);

    delete(&mut sys, "t1", 1);
    let d = query(&mut sys, "t1", 1);
    assert_eq!(d, Vec::<Row>::new());
}

#[test]
fn query_before_any_update() {
    let mut sys = System::new(2);
    create(&mut sys, "t1");
    // The bootstrap advance has run: the first query reads at the least
    // time, where nothing is stored yet.
    assert_eq!(sys.coord.epoch, SysTime::new(1));
    assert_eq!(query(&mut sys, "t1", 1), Vec::<Row>::new());
}

#[test]
fn multi_worker_round_trip() {
    let mut sys = System::new(3);
    create(&mut sys, "t1");
    upsert(&mut sys, "t1", 1, 103);
    upsert(&mut sys, "t1", 2, 7);
    assert_eq!(query(&mut sys, "t1", 1), vec![Row::new(103)]);
    assert_eq!(query(&mut sys, "t1", 2), vec![Row::new(7)]);
    delete(&mut sys, "t1", 2);
    assert_eq!(query(&mut sys, "t1", 2), Vec::<Row>::new());
    assert_eq!(query(&mut sys, "t1", 1), vec![Row::new(103)]);
}

#[test]
fn last_upsert_wins() {
    let mut sys = System::new(2);
    create(&mut sys, "t1");
    upsert(&mut sys, "t1", 5, 100);
    upsert(&mut sys, "t1", 5, 200);
    upsert(&mut sys, "t1", 5, 300);
    assert_eq!(query(&mut sys, "t1", 5), vec![Row::new(300)]);
}

#[test]
fn upsert_against_missing_input_is_rejected() {
    let mut sys = System::new(1);
    match sys.step(ClientCommand::Upsert {
        name: Name::new("nope"),
        key: Row::new(1),
        value: Some(Row::new(2)),
    }) {
        ClientResponse::Failed(e) => {
            let s = format!("{:?}", e);
            assert!(s.contains("InputNotExists"));
        }
        _ => panic!("expected a rejection"),
    }
    // No side effect: the epoch did not advance.
    assert_eq!(sys.coord.epoch, SysTime::new(1));
}

#[test]
fn query_against_missing_trace_is_rejected() {
    let mut sys = System::new(1);
    match sys.step(ClientCommand::Query { name: Name::new("nope"), key: Row::new(1) }) {
        ClientResponse::Failed(e) => {
            let s = format!("{:?}", e);
            assert!(s.contains("TraceNotExist"));
        }
        _ => panic!("expected a rejection"),
    }
}

#[test]
fn duplicate_creation_is_rejected() {
    let mut sys = System::new(1);
    create(&mut sys, "t1");
    match sys.step(ClientCommand::CreateInputAndTrace { name: Name::new("t1") }) {
        ClientResponse::Failed(e) => {
            let s = format!("{:?}", e);
            assert!(s.contains("InputAlreadyExists"));
        }
        _ => panic!("expected a rejection"),
    }
}

#[test]
fn internal_snapshot() {
    let mut sys = System::new(2);
    create(&mut sys, "t1");
    upsert(&mut sys, "t1", 1, 10);
    match sys.step(ClientCommand::CollectInternal) {
        ClientResponse::Internal(d) => {
            assert_eq!(d.coord.workers, 2);
            assert_eq!(d.coord.frontier, SysTime::new(2));
            assert_eq!(d.workers.len(), 2);
            for (i, w) in d.workers.iter().enumerate() {
                assert_eq!(w.index, i);
                assert_eq!(w.frontier, SysTime::new(2));
                assert_eq!(w.upsert_input_info.len(), 1);
                assert_eq!(w.upsert_input_info[0].name, "t1");
                assert_eq!(w.upsert_input_info[0].time, SysTime::new(2));
                assert_eq!(w.trace_info.len(), 1);
                assert_eq!(w.trace_info[0].name, "t1");
                assert_eq!(w.trace_info[0].logical_compaction, SysTime::new(1));
            }
        }
        _ => panic!("expected a snapshot"),
    }
}

#[test]
fn graceful_shutdown() {
    let mut sys = System::new(2);
    create(&mut sys, "t1");
    match sys.step(ClientCommand::Shutdown) {
        ClientResponse::ShuttingDown => {}
        _ => panic!("expected shutdown"),
    }
    assert!(sys.coord.closed);
    for w in sys.workers.iter() {
        assert!(w.shutdown);
        assert_eq!(w.peeks.len(), 0);
    }
}

#[test]
fn replay_is_deterministic() {
    let run = || {
        let mut sys = System::new(2);
        create(&mut sys, "t1");
        upsert(&mut sys, "t1", 1, 10);
        upsert(&mut sys, "t1", 2, 20);
        delete(&mut sys, "t1", 1);
        upsert(&mut sys, "t1", 1, 30);
        (
            query(&mut sys, "t1", 1),
            query(&mut sys, "t1", 2),
            sys.coord.epoch,
        )
    };
    let a = run();
    let b = run();
    assert_eq!(a, b);
    assert_eq!(a.0, vec![Row::new(30)]);
    assert_eq!(a.1, vec![Row::new(20)]);
}

#[test]
fn frontier_advances_per_update() {
    let mut sys = System::new(1);
    create(&mut sys, "t1");
    assert_eq!(sys.coord.epoch, SysTime::new(1));
    upsert(&mut sys, "t1", 1, 1);
    assert_eq!(sys.coord.epoch, SysTime::new(2));
    assert_eq!(sys.workers[0].frontier, SysTime::new(2));
    upsert(&mut sys, "t1", 1, 2);
    assert_eq!(sys.coord.epoch, SysTime::new(3));
    assert_eq!(sys.workers[0].frontier, SysTime::new(3));
}

#[test]
fn peek_defers_until_trace_is_beyond_time() {
    let mut tr = Trace::new(Name::new("t1"), SysTime::new(0));
    tr.advance(&vec![(Row::new(1), Some(Row::new(9)))], SysTime::new(0));
    // upper is now 1: a peek at time 1 is not ready, a peek at time 0 is.
    let early = PendingQuery {
        gid: GID(0),
        name: Name::new("t1"),
        time: SysTime::new(1),
        key: Row::new(1),
        logical: SysTime::new(0),
    };
    match early.attempt(&tr) {
        (PeekResult::NotReady, reply) => assert!(reply.is_none()),
        _ => panic!("expected a deferred peek"),
    }
    let ready = PendingQuery {
        gid: GID(1),
        name: Name::new("t1"),
        time: SysTime::new(0),
        key: Row::new(1),
        logical: SysTime::new(0),
    };
    match ready.attempt(&tr) {
        (PeekResult::Done, Some(rows)) => assert_eq!(rows, vec![Row::new(9)]),
        _ => panic!("expected an answer"),
    }
}

#[test]
fn worker_control_commands() {
    let mut w = WorkerContext::new(0);
    assert_eq!(w.frontier, SysTime::new(0));
    let none = w.handle_control_command(ControlCommand::AdvanceTimestamp(SysTime::new(1)));
    assert!(none.is_none());
    assert_eq!(w.frontier, SysTime::new(1));
    let snap = w.handle_control_command(ControlCommand::CollectInternal).unwrap();
    assert_eq!(snap.index, 0);
    assert_eq!(snap.frontier, SysTime::new(1));
    assert!(!w.shutdown);
    w.handle_control_command(ControlCommand::Shutdown);
    assert!(w.shutdown);
}

#[test]
fn worker_peek_queue_drains() {
    let mut w = WorkerContext::new(0);
    let replies = w.handle_peeks();
    assert!(replies.is_empty());
    assert!(w.peeks.is_empty());
}
