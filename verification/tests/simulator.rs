use rand::rngs::SmallRng;
use rand::SeedableRng;
use stream_db::db_ctx::Create;
use stream_db::{CreateStreamErr, Ctx, FatalErr, Simulator, URes, UserCtx, UsrStats, DB, OS};

#[test]
fn new_sink_has_seen_nothing() {
    let ctx = Ctx::new();
    assert_eq!(ctx.stats(), UsrStats::default());
    assert_eq!(
        ctx.stats(),
        UsrStats {
            streams_created: 0,
            stream_name_duplicates: 0,
            stream_name_reservation_limit_exceeded: 0
        }
    );
}

#[test]
fn sink_counts_each_kind_on_its_own() {
    let mut ctx = Ctx::new();
    ctx.on_stream_create_req_err(CreateStreamErr::DuplicateName);
    ctx.on_stream_create_req_err(CreateStreamErr::DuplicateName);
    ctx.on_stream_create_req_err(CreateStreamErr::ReservationLimitExceeded);
    ctx.send(URes::StreamCreated { name: b"a" });
    ctx.send(URes::StreamCreated { name: b"b" });
    ctx.send(URes::StreamCreated { name: b"c" });
    ctx.send(URes::StreamCreated { name: b"d" });
    assert_eq!(
        ctx.stats(),
        UsrStats {
            streams_created: 4,
            stream_name_duplicates: 2,
            stream_name_reservation_limit_exceeded: 1
        }
    );
}

#[test]
fn sink_counts_what_the_database_tells_it() {
    let mut db: DB<usize> = DB::new(0);
    let mut os = OS::new(0);
    let mut ctx = Ctx::new();
    assert_eq!(db.create_stream(b"a", &mut os), Ok(()));
    assert_eq!(db.create_stream(b"b", &mut os), Ok(()));
    os.tick(&mut db, &mut ctx);
    assert_eq!(ctx.stats().streams_created, 1);
    os.tick(&mut db, &mut ctx);
    os.tick(&mut db, &mut ctx);
    assert_eq!(ctx.stats().streams_created, 2);
}

#[test]
fn new_simulation_has_done_nothing() {
    let sim = Simulator::new(0, b"abc", 2);
    let (os, usr) = sim.stats();
    assert_eq!(os.files_created, 0);
    assert_eq!(usr, UsrStats::default());
}

#[test]
fn simulation_requests_then_completes() {
    let mut rng = SmallRng::seed_from_u64(0);
    let mut sim = Simulator::new(0, b"abcdef", 6);
    assert_eq!(sim.advance(), Ok(false));
    let mut requested = 0;
    let mut cut: Vec<u8> = Vec::new();
    while let Some((name, answer)) = sim.request_stream(&mut rng) {
        cut.extend_from_slice(name);
        if answer.is_ok() {
            requested += 1;
        }
        assert!(requested <= 64);
        if cut.len() == 6 {
            break;
        }
    }
    assert_eq!(cut, b"abcdef");
    assert!(requested >= 1);
    for _ in 0..requested {
        assert_eq!(sim.advance(), Ok(true));
    }
    assert_eq!(sim.advance(), Ok(false));
    let (os, usr) = sim.stats();
    assert_eq!(os.files_created, requested);
    assert_eq!(usr.streams_created, requested);
    assert_eq!(usr.stream_name_reservation_limit_exceeded, 0);
}

#[test]
fn simulation_counts_a_duplicate_and_submits_nothing_for_it() {
    let mut rng = SmallRng::seed_from_u64(0);
    // With names of length zero only, every name is the empty name.
    let mut sim = Simulator::new(0, b"abc", 0);
    assert_eq!(sim.request_stream(&mut rng), Some((&b""[..], Ok(()))));
    assert_eq!(
        sim.request_stream(&mut rng),
        Some((&b""[..], Err(CreateStreamErr::DuplicateName)))
    );
    assert_eq!(sim.stats().1.stream_name_duplicates, 1);
    assert_eq!(sim.advance(), Ok(true));
    assert_eq!(sim.advance(), Ok(false));
    assert_eq!(sim.stats().0.files_created, 1);
    assert_eq!(sim.stats().1.streams_created, 1);
}

#[test]
fn simulation_stops_on_a_name_that_is_listed_already() {
    let mut rng = SmallRng::seed_from_u64(0);
    let mut sim = Simulator::new(0, b"abc", 0);
    assert_eq!(sim.request_stream(&mut rng), Some((&b""[..], Ok(()))));
    assert_eq!(sim.advance(), Ok(true));
    assert_eq!(sim.request_stream(&mut rng), Some((&b""[..], Ok(()))));
    assert_eq!(sim.advance(), Err(FatalErr::DirectoryConflict));
    assert_eq!(sim.advance(), Err(FatalErr::DirectoryConflict));
    let (os, usr) = sim.stats();
    assert_eq!(os.files_created, 1);
    assert_eq!(usr.streams_created, 1);
}

#[test]
fn simulation_says_none_once_the_names_are_used_up() {
    let mut rng = SmallRng::seed_from_u64(3);
    let mut sim = Simulator::new(3, b"", 8);
    assert_eq!(sim.request_stream(&mut rng), None);
    assert_eq!(sim.stats().0.files_created, 0);
}

#[test]
fn simulation_counts_a_request_beyond_the_capacity() {
    let bytes: Vec<u8> = (0..70u8).collect();
    let mut rng = SmallRng::seed_from_u64(1);
    let mut sim = Simulator::new(1, &bytes, 1);
    let mut granted = 0u64;
    let mut refused_for_room = 0u64;
    while let Some((name, answer)) = sim.request_stream(&mut rng) {
        match answer {
            Ok(()) => granted += 1,
            Err(CreateStreamErr::ReservationLimitExceeded) => {
                assert_eq!(granted, 64);
                refused_for_room += 1;
            }
            Err(CreateStreamErr::DuplicateName) => assert!(name.is_empty()),
        }
    }
    let (_, usr) = sim.stats();
    assert_eq!(usr.stream_name_reservation_limit_exceeded, refused_for_room);
    assert!(granted <= 64);
}

#[test]
fn same_seed_gives_the_same_statistics() {
    let bytes: Vec<u8> = (0..=255u8).cycle().take(600).collect();
    let mut runs = Vec::new();
    for _ in 0..2 {
        let mut rng = SmallRng::seed_from_u64(21);
        let mut sim = Simulator::new(21, &bytes, 16);
        let mut answers = Vec::new();
        for step in 0..400 {
            if step % 3 != 0 {
                answers.push(sim.request_stream(&mut rng).map(|(n, a)| (n.to_vec(), a)));
            } else {
                match sim.advance() {
                    Ok(_) => {}
                    Err(_) => break,
                }
            }
        }
        runs.push((answers, sim.stats()));
    }
    assert_eq!(runs[0].0, runs[1].0);
    assert_eq!(runs[0].1 .1, runs[1].1 .1);
    assert_eq!(runs[0].1 .0.files_created, runs[1].1 .0.files_created);
}

#[test]
fn token_of_a_simulated_request_names_the_slot() {
    let mut db: DB<usize> = DB::new(0);
    let mut os = OS::new(0);
    let req = db.request_create(b"n").unwrap();
    os.submit(7, req);
    match os.poll() {
        Some(stream_db::IORes::Create(fd, token)) => {
            assert_eq!(fd, 0);
            assert_eq!(token, Create::Stream { name_idx: 0, _padding: 0 });
        }
        _ => panic!("expected the completion of a create"),
    }
    assert_eq!(os.poll().is_none(), true);
}
