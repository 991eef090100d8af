use stream_db::db_ctx::Create;
use stream_db::names::MAX_PENDING;
use stream_db::{CreateStreamErr, FatalErr, FileIO, IOReq, URes, UserCtx, DB, OS};

/// A sink that keeps the names it was told of.
struct Sink {
    created: Vec<Vec<u8>>,
}

impl Sink {
    fn new() -> Self {
        Sink { created: Vec::new() }
    }
}

impl UserCtx for Sink {
    fn send(&mut self, res: URes<'_>) {
        match res {
            URes::StreamCreated { name } => self.created.push(name.to_vec()),
        }
    }
}

fn distinct_names(n: usize) -> Vec<Vec<u8>> {
    (0..n).map(|i| format!("stream-{i}").into_bytes()).collect()
}

#[test]
fn duplicate_is_refused_and_two_ticks_list_two_streams() {
    for capacity in [2usize, 3, 64] {
        let mut db: DB<usize> = DB::with_capacity(0, capacity);
        let mut os = OS::new(0);
        let mut sink = Sink::new();
        assert_eq!(db.create_stream(b"a", &mut os), Ok(()));
        assert_eq!(db.create_stream(b"b", &mut os), Ok(()));
        assert_eq!(db.create_stream(b"a", &mut os), Err(CreateStreamErr::DuplicateName));
        os.tick(&mut db, &mut sink);
        os.tick(&mut db, &mut sink);
        assert_eq!(db.stream_count(), 2);
        let a = *db.stream(b"a").unwrap();
        let b = *db.stream(b"b").unwrap();
        assert!((a == 0 && b == 1) || (a == 1 && b == 0));
        os.tick(&mut db, &mut sink);
        assert_eq!(db.stream_count(), 2);
    }
}

#[test]
fn capacity_one_is_used_up_by_one_request_and_restored_by_one_tick() {
    let mut db: DB<usize> = DB::with_capacity(0, 1);
    let mut os = OS::new(0);
    let mut sink = Sink::new();
    assert_eq!(db.create_stream(b"x", &mut os), Ok(()));
    assert_eq!(db.create_stream(b"y", &mut os), Err(CreateStreamErr::ReservationLimitExceeded));
    assert_eq!(os.pending_requests(), 1);
    os.tick(&mut db, &mut sink);
    assert_eq!(db.stream(b"x"), Some(&0));
    assert_eq!(sink.created, vec![b"x".to_vec()]);
    assert_eq!(db.create_stream(b"y", &mut os), Ok(()));
    assert_eq!(db.create_stream(b"z", &mut os), Err(CreateStreamErr::ReservationLimitExceeded));
}

#[test]
fn capacity_zero_refuses_every_request() {
    let mut db: DB<usize> = DB::with_capacity(0, 0);
    let mut os = OS::new(0);
    assert_eq!(db.create_stream(b"x", &mut os), Err(CreateStreamErr::ReservationLimitExceeded));
    assert_eq!(os.pending_requests(), 0);
}

#[test]
fn duplicate_is_refused_in_a_database_of_full_size() {
    let mut db: DB<usize> = DB::new(0);
    let mut os = OS::new(0);
    let mut sink = Sink::new();
    assert_eq!(db.create_stream(b"a", &mut os), Ok(()));
    assert_eq!(db.create_stream(b"b", &mut os), Ok(()));
    assert_eq!(db.create_stream(b"a", &mut os), Err(CreateStreamErr::DuplicateName));
    assert_eq!(os.pending_requests(), 2);
    os.tick(&mut db, &mut sink);
    os.tick(&mut db, &mut sink);
    assert_eq!(db.stream_count(), 2);
    let a = *db.stream(b"a").unwrap();
    let b = *db.stream(b"b").unwrap();
    assert!((a == 0 && b == 1) || (a == 1 && b == 0));
    assert_eq!(os.pending_requests(), 0);
    os.tick(&mut db, &mut sink);
    assert_eq!(db.stream_count(), 2);
    assert_eq!(sink.created.len(), 2);
    assert_eq!(os.stats().files_created, 2);
}

#[test]
fn last_free_slot_is_taken_refused_and_free_again_after_one_tick() {
    let filler = distinct_names(MAX_PENDING - 1);
    let mut db: DB<usize> = DB::new(0);
    let mut os = OS::new(0);
    let mut sink = Sink::new();
    for name in filler.iter() {
        assert_eq!(db.create_stream(name, &mut os), Ok(()));
    }
    assert_eq!(db.create_stream(b"x", &mut os), Ok(()));
    assert_eq!(db.create_stream(b"y", &mut os), Err(CreateStreamErr::ReservationLimitExceeded));
    os.tick(&mut db, &mut sink);
    assert_eq!(db.stream_count(), 1);
    assert_eq!(db.create_stream(b"y", &mut os), Ok(()));
    assert_eq!(db.create_stream(b"z", &mut os), Err(CreateStreamErr::ReservationLimitExceeded));
}

#[test]
fn one_tick_completes_the_only_pending_request() {
    let mut db: DB<usize> = DB::new(0);
    let mut os = OS::new(0);
    let mut sink = Sink::new();
    assert_eq!(db.create_stream(b"x", &mut os), Ok(()));
    assert!(db.is_pending(b"x"));
    os.tick(&mut db, &mut sink);
    assert!(!db.is_pending(b"x"));
    assert_eq!(db.stream(b"x"), Some(&0));
    assert_eq!(sink.created, vec![b"x".to_vec()]);
    assert_eq!(db.create_stream(b"y", &mut os), Ok(()));
}

#[test]
fn tick_without_requests_does_nothing() {
    let mut db: DB<usize> = DB::new(0);
    let mut os = OS::new(0);
    let mut sink = Sink::new();
    os.tick(&mut db, &mut sink);
    assert_eq!(os.try_tick(&mut db, &mut sink), Ok(false));
    assert_eq!(db.stream_count(), 0);
    assert_eq!(os.stats().files_created, 0);
    assert!(sink.created.is_empty());
}

#[test]
fn tick_completes_the_highest_priority_first() {
    let mut db: DB<usize> = DB::new(0);
    let mut os = OS::new(0);
    let mut sink = Sink::new();
    for (name, priority) in [(&b"low"[..], 1u64), (&b"high"[..], 9), (&b"mid"[..], 5)] {
        let req = db.request_create(name).unwrap();
        os.submit(priority, req);
    }
    os.tick(&mut db, &mut sink);
    os.tick(&mut db, &mut sink);
    os.tick(&mut db, &mut sink);
    assert_eq!(sink.created, vec![b"high".to_vec(), b"mid".to_vec(), b"low".to_vec()]);
    assert_eq!(db.stream(b"high"), Some(&0));
    assert_eq!(db.stream(b"mid"), Some(&1));
    assert_eq!(db.stream(b"low"), Some(&2));
}

#[test]
fn handles_count_the_files_in_order_of_creation() {
    let names = distinct_names(10);
    let mut db: DB<usize> = DB::new(0);
    let mut os = OS::new(1);
    let mut sink = Sink::new();
    for name in names.iter() {
        assert_eq!(db.create_stream(name, &mut os), Ok(()));
    }
    for k in 0..10 {
        assert_eq!(os.try_tick(&mut db, &mut sink), Ok(true));
        assert_eq!(os.stats().files_created, k + 1);
        assert_eq!(db.stream(&sink.created[k as usize]), Some(&(k as usize)));
    }
    assert_eq!(os.try_tick(&mut db, &mut sink), Ok(false));
}

#[test]
fn same_seed_gives_the_same_completion_order() {
    let names = distinct_names(40);
    let mut orders = Vec::new();
    for seed in [11u64, 11] {
        let mut db: DB<usize> = DB::new(seed);
        let mut os = OS::new(seed);
        let mut sink = Sink::new();
        for name in names.iter() {
            assert_eq!(db.create_stream(name, &mut os), Ok(()));
        }
        for _ in 0..40 {
            os.tick(&mut db, &mut sink);
        }
        orders.push(sink.created);
    }
    assert_eq!(orders[0], orders[1]);
}

#[test]
fn completion_order_does_not_follow_submission_order() {
    let names = distinct_names(40);
    let mut db: DB<usize> = DB::new(0);
    let mut os = OS::new(0);
    let mut sink = Sink::new();
    for name in names.iter() {
        assert_eq!(db.create_stream(name, &mut os), Ok(()));
    }
    for _ in 0..40 {
        os.tick(&mut db, &mut sink);
    }
    assert_ne!(sink.created, names);
}

#[test]
fn other_seed_gives_the_same_names_in_the_directory() {
    let names = distinct_names(40);
    let mut orders = Vec::new();
    for seed in [1u64, 2, 3] {
        let mut db: DB<usize> = DB::new(0);
        let mut os = OS::new(seed);
        let mut sink = Sink::new();
        for name in names.iter() {
            assert_eq!(db.create_stream(name, &mut os), Ok(()));
        }
        for _ in 0..40 {
            os.tick(&mut db, &mut sink);
        }
        assert_eq!(db.stream_count(), 40);
        for name in names.iter() {
            assert!(db.stream(name).is_some());
            assert!(!db.is_pending(name));
        }
        orders.push(sink.created);
    }
    assert_ne!(orders[0], orders[1]);
    assert_ne!(orders[1], orders[2]);
}

#[test]
fn try_tick_refuses_a_request_that_is_not_a_create() {
    let mut db: DB<usize> = DB::new(0);
    let mut os = OS::new(0);
    let mut sink = Sink::new();
    os.send(IOReq::Delete(3));
    assert_eq!(os.refusal(&db), Some(FatalErr::UnimplementedOperation));
    assert_eq!(os.try_tick(&mut db, &mut sink), Err(FatalErr::UnimplementedOperation));
    assert_eq!(os.pending_requests(), 1);
    assert_eq!(os.stats().files_created, 0);
}

#[test]
fn try_tick_refuses_a_completion_that_the_database_cannot_take() {
    let mut db: DB<usize> = DB::new(0);
    let mut os = OS::new(0);
    let mut sink = Sink::new();
    os.submit(1, IOReq::Create(Create::stream(4)));
    assert_eq!(os.try_tick(&mut db, &mut sink), Err(FatalErr::NotPending));
    assert_eq!(os.pending_requests(), 1);
    assert_eq!(os.stats().files_created, 0);
    assert_eq!(db.stream_count(), 0);
}

#[test]
fn try_tick_refuses_the_completion_of_a_listed_name() {
    let mut db: DB<usize> = DB::new(0);
    let mut os = OS::new(0);
    let mut sink = Sink::new();
    assert_eq!(db.create_stream(b"a", &mut os), Ok(()));
    assert_eq!(os.try_tick(&mut db, &mut sink), Ok(true));
    assert_eq!(db.create_stream(b"a", &mut os), Ok(()));
    assert_eq!(os.try_tick(&mut db, &mut sink), Err(FatalErr::DirectoryConflict));
    assert_eq!(db.stream(b"a"), Some(&0));
    assert!(db.is_pending(b"a"));
    assert_eq!(os.pending_requests(), 1);
    assert_eq!(sink.created.len(), 1);
}

#[test]
fn send_holds_the_request_until_a_tick() {
    let mut os = OS::new(0);
    assert_eq!(os.pending_requests(), 0);
    os.send(IOReq::Create(Create::stream(0)));
    os.send(IOReq::Create(Create::stream(1)));
    assert_eq!(os.pending_requests(), 2);
    assert_eq!(os.stats().files_created, 0);
}
