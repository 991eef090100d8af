//! The simulation: a database, a simulated substrate, a counting user and a
//! source of names, advanced step by step.
//!
//! Whether a step requests a stream or advances the substrate is for the
//! caller to decide. The simulation keeps the database and the substrate in
//! step, so that nothing but a repeated name can stop it.
use crate::db::{DbState, FatalErr, Notice, UserCtx, DB};
use crate::file_io::{FileIO, IORes};
use crate::name_source::NameSource;
use crate::names::{CreateStreamErr, MAX_PENDING};
use crate::os::{db_after_tick, requests, OsState, Stats, FD, OS};
use crate::system::{
    in_step, law_create_keeps_in_step, law_in_step_at_start, law_only_a_conflict_stops_a_tick,
    law_tick_keeps_in_step,
};
use crate::usr::{Ctx, UsrStats};
use rand::rngs::SmallRng;
use vstd::prelude::*;

verus! {

/// One simulation.
pub struct Simulator<'a> {
    /// Counts what the user sees.
    usr_ctx: Ctx,
    db: DB<'a, FD>,
    os: OS,
    /// Where the names of the streams come from.
    rsng: NameSource<'a>,
}

impl<'a> Simulator<'a> {
    /// The state of the database.
    pub closed spec fn db(&self) -> DbState<FD> {
        self.db@
    }

    /// The state of the substrate.
    pub closed spec fn os(&self) -> OsState {
        self.os@
    }

    /// The user's sink.
    pub closed spec fn usr(&self) -> Ctx {
        self.usr_ctx
    }

    /// The source of names.
    pub closed spec fn names(&self) -> NameSource<'a> {
        self.rsng
    }

    /// The parts are well formed, and the substrate holds exactly the create
    /// requests of the pending names.
    pub closed spec fn wf(&self) -> bool {
        &&& self.db.wf()
        &&& self.rsng.wf()
        &&& in_step(self.db@, requests(self.os@.events))
    }

    /// In a well-formed simulation the database and the substrate are in
    /// step.
    pub proof fn lemma_wf(&self)
        requires
            self.wf(),
        ensures
            self.db().wf(),
            in_step(self.db(), requests(self.os().events)),
    {
        self.db.lemma_wf();
    }

    /// A simulation in which nothing has happened yet. The seed fixes the
    /// priorities that the substrate draws; the names are cut from `bytes`,
    /// each at most `max_name_len` long.
    pub fn new(seed: u64, bytes: &'a [u8], max_name_len: usize) -> (sim: Self)
        ensures
            sim.wf(),
            sim.db() == DbState::<FD>::empty(MAX_PENDING as nat),
            sim.os().events.len() == 0,
            sim.os().files.len() == 0,
            sim.usr().told() == Seq::<Notice>::empty(),
            sim.usr().duplicates() == 0,
            sim.usr().limit_exceeded() == 0,
            sim.names().bytes() == bytes@,
            sim.names().position() == 0,
            sim.names().max_len() == max_name_len,
    {
        proof {
            law_in_step_at_start(MAX_PENDING as nat);
        }
        Simulator {
            usr_ctx: Ctx::new(),
            db: DB::new(seed),
            os: OS::new(seed),
            rsng: NameSource::new(bytes, max_name_len),
        }
    }

    /// Cuts the next name off the source and requests a stream of that name.
    /// Returns the name with the database's answer, or `None` once the
    /// source is exhausted. A refusal is counted by the user's sink and
    /// leaves the database and the substrate as they were.
    pub fn request_stream(&mut self, rng: &mut SmallRng) -> (r: Option<
        (&'a [u8], Result<(), CreateStreamErr>),
    >)
        requires
            old(self).wf(),
        ensures
            final(self).wf(),
            final(self).names().bytes() == old(self).names().bytes(),
            final(self).names().max_len() == old(self).names().max_len(),
            final(self).usr().told() == old(self).usr().told(),
            final(self).os().files == old(self).os().files,
            r is None == (old(self).names().position() == old(self).names().bytes().len()),
            r is None ==> final(self).names().position() == old(self).names().position()
                && final(self).db() == old(self).db() && final(self).os() == old(self).os()
                && final(self).usr() == old(self).usr(),
            r matches Some((name, answer)) ==> {
                &&& name@.len() <= old(self).names().room()
                &&& name@ == old(self).names().bytes().subrange(
                    old(self).names().position() as int,
                    final(self).names().position() as int,
                )
                &&& final(self).names().position() == old(self).names().position() + name@.len()
                &&& answer == old(self).db().create_answer(name@)
                &&& final(self).db() == old(self).db().after_create(name@)
                &&& match old(self).db().create_outcome(name@) {
                    Ok(req) => exists|priority: u64|
                        final(self).os().events == old(self).os().events.push((priority, req)),
                    Err(_) => final(self).os() == old(self).os(),
                }
                &&& final(self).usr().duplicates() == old(self).usr().duplicates() + if answer
                    == Err::<(), CreateStreamErr>(CreateStreamErr::DuplicateName) {
                    1nat
                } else {
                    0nat
                }
                &&& final(self).usr().limit_exceeded() == old(self).usr().limit_exceeded()
                    + if answer == Err::<(), CreateStreamErr>(
                    CreateStreamErr::ReservationLimitExceeded,
                ) {
                    1nat
                } else {
                    0nat
                }
            },
    {
        match self.rsng.get(rng) {
            None => None,
            Some(name) => {
                proof {
                    self.db.lemma_wf();
                    law_create_keeps_in_step(self.db@, requests(self.os@.events), name@);
                }
                match self.db.request_create(name) {
                    Ok(req) => {
                        self.os.send(req);
                        Some((name, Ok(())))
                    },
                    Err(err) => {
                        self.usr_ctx.on_stream_create_req_err(err);
                        Some((name, Err(err)))
                    },
                }
            },
        }
    }

    /// Advances the substrate by one completion and says whether one was
    /// delivered. Nothing but a repeated name can stop this: where the
    /// directory already lists the name whose create has completed, the
    /// answer is `DirectoryConflict`, and nothing has changed.
    pub fn advance(&mut self) -> (r: Result<bool, FatalErr>)
        requires
            old(self).wf(),
        ensures
            final(self).wf(),
            final(self).names() == old(self).names(),
            final(self).usr().duplicates() == old(self).usr().duplicates(),
            final(self).usr().limit_exceeded() == old(self).usr().limit_exceeded(),
            match r {
                Ok(delivered) => {
                    &&& old(self).os().refusal(old(self).db()) is None
                    &&& delivered == (old(self).os().events.len() > 0)
                    &&& final(self).os() == old(self).os().after_tick()
                    &&& final(self).db() == db_after_tick(old(self).os(), old(self).db())
                    &&& final(self).usr().told() == if delivered {
                        old(self).usr().told().push(
                            old(self).db().notice(old(self).os().completion()),
                        )
                    } else {
                        old(self).usr().told()
                    }
                },
                Err(why) => {
                    &&& why == FatalErr::DirectoryConflict
                    &&& old(self).os().refusal(old(self).db()) == Some(why)
                    &&& final(self).os() == old(self).os()
                    &&& final(self).db() == old(self).db()
                    &&& final(self).usr() == old(self).usr()
                },
            },
    {
        proof {
            self.db.lemma_wf();
            law_only_a_conflict_stops_a_tick(self.db@, self.os@);
            if self.os@.refusal(self.db@) is None {
                law_tick_keeps_in_step(self.db@, self.os@);
            }
        }
        match self.os.refusal(&self.db) {
            Some(why) => Err(why),
            None => match self.os.poll() {
                Some(IORes::Create(fd, token)) => {
                    let usr_res = self.db.complete_create(fd, token);
                    self.usr_ctx.send(usr_res);
                    Ok(true)
                },
                _ => Ok(false),
            },
        }
    }

    /// The counters of the substrate and of the user.
    pub fn stats(&self) -> (stats: (Stats, UsrStats))
        ensures
            stats.0.files_created == self.os().files.len(),
            stats.1.streams_created == crate::usr::counted(self.usr().told().len()),
            stats.1.stream_name_duplicates == crate::usr::counted(self.usr().duplicates()),
            stats.1.stream_name_reservation_limit_exceeded == crate::usr::counted(
                self.usr().limit_exceeded(),
            ),
    {
        (self.os.stats(), self.usr_ctx.stats())
    }
}

} // verus!
