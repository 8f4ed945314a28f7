use ddquery::catalog::Catalog;
use ddquery::dd_input::{DDInputGroup, DDSession};
use ddquery::error::Error;
use ddquery::gid::{GIDGen, GID};
use ddquery::name::Name;
use ddquery::row::Row;
use ddquery::timestamp::SysTime;
use ddquery::trace::{collect_key_trace, read_key, trace_beyond, Trace};
use ddquery::trace_group::TraceGroup;
use ddquery::txn_manager::TxnManager;
use ddquery::upsert_input::{UpsertInput, UpsertInputGroup, UpsertSession};

#[test]
fn test_generate_gid() {
    let mut g = GIDGen::new();
    let a = g.next();
    assert_eq!(a, GID(0));

    let a = g.next();
    assert_eq!(a, GID(1));
    let a = g.next();
    assert_eq!(a, GID(2));
}

#[test]
fn test_show() {
    let a = Name::new("abc");
    let s = a.text();
    assert_eq!(s, "abc");

    let s = a.clone().text();
    assert_eq!(s, "abc");
}

#[test]
fn name_equality() {
    assert!(Name::new("t1") == Name::new("t1"));
    assert!(Name::new("t1") != Name::new("t2"));
}

#[test]
fn row_key_is_itself() {
    let r = Row::new(7);
    assert_eq!(r.get_key(), r);
}

#[test]
fn catalog_creation_and_errors() {
    let mut c = Catalog::new(4);
    assert!(c.create_input_and_trace(Name::new("t1")).is_ok());
    assert!(c.input_exists(&Name::new("t1")));
    assert!(c.trace_exists(&Name::new("t1")));
    match c.create_input_and_trace(Name::new("t1")) {
        Err(Error::InputAlreadyExists(n)) => assert_eq!(n.text(), "t1"),
        _ => panic!("expected a name conflict"),
    }
    assert!(c.create_trace(Name::new("t2")).is_ok());
    match c.create_input_and_trace(Name::new("t2")) {
        Err(Error::TraceAlreadyExists(n)) => assert_eq!(n.text(), "t2"),
        _ => panic!("expected a trace name conflict"),
    }
    assert!(c.create_input(Name::new("t3")).is_ok());
    match c.create_input(Name::new("t3")) {
        Err(Error::InputAlreadyExists(n)) => assert_eq!(n.text(), "t3"),
        _ => panic!("expected an input name conflict"),
    }
}

#[test]
fn catalog_routes_within_pool_and_deterministically() {
    let mut c = Catalog::new(3);
    c.create_input_and_trace(Name::new("t1")).unwrap();
    let key = Row::new(99);
    let first = c.determine_trace_worker(&Name::new("t1"), &key).unwrap();
    let second = c.determine_trace_worker(&Name::new("t1"), &key).unwrap();
    assert!(first < 3);
    assert_eq!(first, second);
    match c.determine_trace_worker(&Name::new("missing"), &key) {
        Err(Error::TraceNotExist(n)) => assert_eq!(n.text(), "missing"),
        _ => panic!("expected a missing trace"),
    }
}

#[test]
fn upsert_group_sessions() {
    let mut g = UpsertInputGroup::new();
    g.register(UpsertSession::new(Name::new("a"), SysTime::new(1)));
    g.register(UpsertSession::new(Name::new("b"), SysTime::new(1)));
    assert!(g.get(&Name::new("a")).is_some());
    assert!(g.get(&Name::new("c")).is_none());
    g.upsert(&Name::new("a"), Row::new(10));
    g.delete(&Name::new("a"), Row::new(10));
    let s = g.get_mut(&Name::new("a")).unwrap();
    assert_eq!(s.buffer.len(), 2);
    assert_eq!(s.buffer[0], (Row::new(10), Some(Row::new(10))));
    assert_eq!(s.buffer[1], (Row::new(10), None));
    let drained = s.take_buffer();
    assert_eq!(drained.len(), 2);
    assert_eq!(s.buffer.len(), 0);
    g.advance_to(SysTime::new(5));
    assert_eq!(g.get(&Name::new("a")).unwrap().time, SysTime::new(5));
    assert_eq!(g.get(&Name::new("b")).unwrap().time, SysTime::new(5));
    g.advance_to(SysTime::new(3));
    assert_eq!(g.get(&Name::new("b")).unwrap().time, SysTime::new(5));
    let info = g.collect_info();
    assert_eq!(info.len(), 2);
    assert_eq!(info[0].name, "a");
    assert_eq!(info[0].time, SysTime::new(5));
}

#[test]
fn dd_group_sessions() {
    let mut g = DDInputGroup::new();
    g.register(DDSession::new(Name::new("facts"), SysTime::new(0)));
    g.update(&Name::new("facts"), Row::new(1), 2);
    g.update_at(&Name::new("facts"), Row::new(2), SysTime::new(4), -1);
    g.insert_batch(&Name::new("facts"), vec![Row::new(3), Row::new(4)]);
    {
        let s = g.get(&Name::new("facts")).unwrap();
        assert_eq!(s.buffer.len(), 4);
        assert_eq!(s.buffer[0], (Row::new(1), SysTime::new(0), 2));
        assert_eq!(s.buffer[1], (Row::new(2), SysTime::new(4), -1));
        assert_eq!(s.buffer[2], (Row::new(3), SysTime::new(0), 1));
        assert_eq!(s.buffer[3], (Row::new(4), SysTime::new(0), 1));
    }
    g.advance_and_flush(SysTime::new(5));
    let s = g.get_mut(&Name::new("facts")).unwrap();
    assert_eq!(s.buffer.len(), 0);
    assert_eq!(s.log.len(), 4);
    assert_eq!(s.time, SysTime::new(5));
    let info = g.collect_info();
    assert_eq!(info.len(), 1);
    assert_eq!(info[0].time, SysTime::new(5));
}

#[test]
fn trace_upsert_read() {
    let mut tr = Trace::new(Name::new("t1"), SysTime::new(0));
    // first epoch: insert key 1 -> 103
    tr.advance(&vec![(Row::new(1), Some(Row::new(103)))], SysTime::new(0));
    assert!(trace_beyond(&tr, &SysTime::new(0)));
    assert!(!trace_beyond(&tr, &SysTime::new(1)));
    let rows = read_key(&tr, &Row::new(1), &SysTime::new(0));
    assert_eq!(rows, vec![Row::new(103)]);
    // second epoch: overwrite key 1 -> 104
    tr.advance(&vec![(Row::new(1), Some(Row::new(104)))], SysTime::new(1));
    assert_eq!(read_key(&tr, &Row::new(1), &SysTime::new(0)), vec![Row::new(103)]);
    assert_eq!(read_key(&tr, &Row::new(1), &SysTime::new(1)), vec![Row::new(104)]);
    // third epoch: delete key 1
    tr.advance(&vec![(Row::new(1), None)], SysTime::new(2));
    assert_eq!(read_key(&tr, &Row::new(1), &SysTime::new(2)), Vec::<Row>::new());
    assert_eq!(read_key(&tr, &Row::new(1), &SysTime::new(1)), vec![Row::new(104)]);
    assert_eq!(read_key(&tr, &Row::new(2), &SysTime::new(2)), Vec::<Row>::new());
}

#[test]
fn trace_collect_keys() {
    let mut tr = Trace::new(Name::new("t1"), SysTime::new(0));
    tr.advance(
        &vec![(Row::new(1), Some(Row::new(10))), (Row::new(2), Some(Row::new(20)))],
        SysTime::new(0),
    );
    tr.advance(&vec![(Row::new(2), None)], SysTime::new(1));
    let mut keys = collect_key_trace(&tr, &SysTime::new(0));
    keys.sort();
    assert_eq!(keys, vec![Row::new(1), Row::new(2)]);
    let keys_later = collect_key_trace(&tr, &SysTime::new(1));
    assert_eq!(keys_later, vec![Row::new(1)]);
}

#[test]
fn trace_group_compaction() {
    let mut g = TraceGroup::new();
    g.register_trace(Trace::new(Name::new("a"), SysTime::new(0)));
    g.register_trace(Trace::new(Name::new("b"), SysTime::new(0)));
    assert!(g.get(&Name::new("a")).is_some());
    assert!(g.get(&Name::new("c")).is_none());
    {
        let tr = g.get_mut(&Name::new("a")).unwrap();
        tr.advance(&vec![(Row::new(1), Some(Row::new(5)))], SysTime::new(0));
    }
    {
        let tr = g.get_mut(&Name::new("b")).unwrap();
        tr.advance(&Vec::new(), SysTime::new(0));
    }
    g.physical_compaction();
    g.logical_compaction(SysTime::new(0));
    let info = g.collect_info();
    assert_eq!(info.len(), 2);
    assert_eq!(info[0].name, "a");
    assert_eq!(info[0].logical_compaction, SysTime::new(0));
    assert_eq!(info[0].physical_compaction, SysTime::new(1));
}

#[test]
fn txn_tokens() {
    let mut m = TxnManager::new();
    let token = m.allocate_read_token(SysTime::new(3));
    assert_eq!(token.txn.time, SysTime::new(3));
    assert_eq!(m.read_txns.len(), 1);
    let txn = token.txn.duplicate();
    m.read_complete(txn);
    assert_eq!(m.read_txns.len(), 0);
}
