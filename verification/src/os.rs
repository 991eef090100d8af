//! A simulated I/O substrate.
//!
//! It holds every request with a random priority and completes, on each
//! tick, the one with the highest: requests are answered in an order that
//! has nothing to do with the order in which they came.
use crate::db::{told, DbState, FatalErr, UserCtx, DB};
use crate::file_io::{FileIO, IOReq, IORes};
use crate::queue::{next_up, PriorityQueue};
use crate::rng::{random_u64, rng_from_seed};
use rand::rngs::SmallRng;
use vstd::multiset::Multiset;
use vstd::prelude::*;

verus! {

/// What the substrate hands out for a file: its position among the files.
pub type FD = usize;

/// Counters of the substrate.
#[derive(Clone, Copy, Debug, Default)]
pub struct Stats {
    pub files_created: u64,
}

/// What the substrate holds: the requests that wait, each with its
/// priority, in the order in which they came, and the contents of the files.
pub struct OsState {
    pub events: Seq<(u64, IOReq<FD>)>,
    pub files: Seq<Seq<u8>>,
}

/// The requests among `events`, without their priorities and their order.
pub open spec fn requests(events: Seq<(u64, IOReq<FD>)>) -> Multiset<IOReq<FD>> {
    events.map_values(|event: (u64, IOReq<FD>)| event.1).to_multiset()
}

impl OsState {
    /// The request that the next tick completes. Meaningful while a request
    /// waits.
    pub open spec fn next_request(self) -> IOReq<FD> {
        self.events[next_up(self.events)].1
    }

    /// The response that the next tick delivers, where the next request is a
    /// create: the token comes back unchanged, and the handle is the
    /// position of the new file.
    pub open spec fn completion(self) -> IORes<FD> {
        match self.next_request() {
            IOReq::Create(token) => IORes::Create(self.files.len() as usize, token),
            _ => arbitrary(),
        }
    }

    /// Why the next tick cannot be made on a database in state `db`, if it
    /// cannot: the next request is of a kind that is not implemented, or the
    /// database refuses its completion.
    pub open spec fn refusal(self, db: DbState<FD>) -> Option<FatalErr> {
        if self.events.len() == 0 {
            None
        } else if self.next_request() is Create {
            db.refusal(self.completion())
        } else {
            Some(FatalErr::UnimplementedOperation)
        }
    }

    /// The substrate after a tick: the next request has left, the others
    /// keep their order, and there is one more file, which is empty. Without
    /// a request nothing changes.
    pub open spec fn after_tick(self) -> Self {
        if self.events.len() == 0 {
            self
        } else {
            OsState {
                events: self.events.remove(next_up(self.events)),
                files: self.files.push(Seq::empty()),
            }
        }
    }
}

/// The database after a tick of a substrate in state `os`: it has taken the
/// completion, if there was one.
pub open spec fn db_after_tick(os: OsState, db: DbState<FD>) -> DbState<FD> {
    if os.events.len() == 0 {
        db
    } else {
        db.after_receive(os.completion())
    }
}

/// The simulated substrate.
pub struct OS {
    /// The requests that wait, by priority.
    events: PriorityQueue<IOReq<FD>>,
    /// The files. A handle is a position in here.
    files: Vec<Vec<u8>>,
    /// The source of the priorities.
    rng: SmallRng,
}

impl View for OS {
    type V = OsState;

    closed spec fn view(&self) -> OsState {
        OsState { events: self.events@, files: self.files@.map_values(|file: Vec<u8>| file@) }
    }
}

impl OS {
    /// A substrate without requests and without files. The seed fixes the
    /// priorities that it will draw.
    pub fn new(seed: u64) -> (os: Self)
        ensures
            os@.events == Seq::<(u64, IOReq<FD>)>::empty(),
            os@.files == Seq::<Seq<u8>>::empty(),
    {
        let os = OS { events: PriorityQueue::new(), files: Vec::new(), rng: rng_from_seed(seed) };
        assert(os@.files =~= Seq::<Seq<u8>>::empty());
        os
    }

    /// Holds `req` with `priority` until a tick completes it.
    pub fn submit(&mut self, priority: u64, req: IOReq<FD>)
        ensures
            final(self)@.events == old(self)@.events.push((priority, req)),
            final(self)@.files == old(self)@.files,
            requests(final(self)@.events) == requests(old(self)@.events).insert(req),
    {
        let ghost before = self@.events;
        self.events.push(priority, req);
        proof {
            let pick = |event: (u64, IOReq<FD>)| event.1;
            assert(before.push((priority, req)).map_values(pick) =~= before.map_values(pick).push(
                req,
            ));
            vstd::seq_lib::to_multiset_build(before.map_values(pick), req);
        }
    }

    /// The number of requests that wait.
    pub fn pending_requests(&self) -> (n: usize)
        ensures
            n == self@.events.len(),
    {
        self.events.len()
    }

    /// The counters: how many files were created.
    pub fn stats(&self) -> (stats: Stats)
        ensures
            stats.files_created == self@.files.len(),
    {
        Stats { files_created: self.files.len() as u64 }
    }

    /// Why the next tick cannot be made on `db`, or `None` where it can.
    pub fn refusal(&self, db: &DB<'_, FD>) -> (why: Option<FatalErr>)
        requires
            db.wf(),
        ensures
            why == self@.refusal(db@),
    {
        match self.events.peek() {
            None => None,
            Some((_, req)) => match req {
                IOReq::Create(token) => db.refusal(&IORes::Create(self.files.len(), *token)),
                _ => Some(FatalErr::UnimplementedOperation),
            },
        }
    }

    /// Takes out the request with the highest priority, creates its file,
    /// and returns the completion. Returns `None` while no request waits.
    /// The request must be a create: no other kind is implemented.
    pub fn poll(&mut self) -> (res: Option<IORes<FD>>)
        requires
            old(self)@.events.len() > 0 ==> old(self)@.next_request() is Create,
        ensures
            final(self)@ == old(self)@.after_tick(),
            res is None == (old(self)@.events.len() == 0),
            res is None ==> *final(self) == *old(self),
            res matches Some(completion) ==> completion == old(self)@.completion(),
    {
        let ghost before = self@;
        match self.events.pop() {
            None => None,
            Some((_, req)) => match req {
                IOReq::Create(user_data) => {
                    self.files.push(Vec::new());
                    let fd: usize = self.files.len() - 1;
                    assert(self@.files =~= before.files.push(Seq::empty()));
                    Some(IORes::Create(fd, user_data))
                },
                _ => {
                    assert(false);
                    None
                },
            },
        }
    }

    /// Advances the substrate by one completion: takes out the request with
    /// the highest priority, creates its file, and delivers the completion
    /// to `db`, which tells `usr_ctx`. Nothing happens while no request
    /// waits. The tick must be one that can be made; `try_tick` finds that
    /// out by itself.
    pub fn tick(&mut self, db: &mut DB<'_, FD>, usr_ctx: &mut impl UserCtx)
        requires
            old(db).wf(),
            old(self)@.refusal(old(db)@) is None,
        ensures
            final(db).wf(),
            final(self)@ == old(self)@.after_tick(),
            final(db)@ == db_after_tick(old(self)@, old(db)@),
            old(self)@.events.len() == 0 ==> *final(self) == *old(self) && *final(db) == *old(db)
                && *final(usr_ctx) == *old(usr_ctx),
            old(self)@.events.len() > 0 ==> told(
                *old(usr_ctx),
                *final(usr_ctx),
                old(db)@.notice(old(self)@.completion()),
            ),
    {
        match self.poll() {
            None => {},
            Some(res) => {
                db.receive_io(res, usr_ctx);
            },
        }
    }

    /// Advances the substrate by one completion, as `tick` does, if that can
    /// be done, and says whether a completion was delivered. Where it cannot
    /// be done the answer is the reason, and nothing has changed.
    pub fn try_tick(&mut self, db: &mut DB<'_, FD>, usr_ctx: &mut impl UserCtx) -> (r: Result<
        bool,
        FatalErr,
    >)
        requires
            old(db).wf(),
        ensures
            final(db).wf(),
            match r {
                Ok(delivered) => {
                    &&& old(self)@.refusal(old(db)@) is None
                    &&& delivered == (old(self)@.events.len() > 0)
                    &&& final(self)@ == old(self)@.after_tick()
                    &&& final(db)@ == db_after_tick(old(self)@, old(db)@)
                    &&& delivered ==> told(
                        *old(usr_ctx),
                        *final(usr_ctx),
                        old(db)@.notice(old(self)@.completion()),
                    )
                    &&& !delivered ==> *final(usr_ctx) == *old(usr_ctx)
                },
                Err(why) => {
                    &&& old(self)@.refusal(old(db)@) == Some(why)
                    &&& *final(self) == *old(self)
                    &&& *final(db) == *old(db)
                    &&& *final(usr_ctx) == *old(usr_ctx)
                },
            },
    {
        match self.refusal(db) {
            Some(why) => Err(why),
            None => {
                let delivered = self.events.len() > 0;
                self.tick(db, usr_ctx);
                Ok(delivered)
            },
        }
    }
}

impl FileIO for OS {
    type FD = FD;

    open spec fn outstanding(&self) -> Option<Multiset<IOReq<FD>>> {
        Some(requests(self@.events))
    }

    /// Holds `req` with a fresh random priority until a tick completes it.
    fn send(&mut self, req: IOReq<FD>)
        ensures
            exists|priority: u64| final(self)@.events == old(self)@.events.push((priority, req)),
            final(self)@.files == old(self)@.files,
    {
        let priority: u64 = random_u64(&mut self.rng);
        self.submit(priority, req);
    }
}

} // verus!
