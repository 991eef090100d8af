//! The user's side of a simulation: a sink that counts what it is told.
use crate::db::{Notice, URes, UserCtx};
use crate::names::CreateStreamErr;
use vstd::prelude::*;

verus! {

/// Counters of what the user has seen. A counter that has reached
/// `u64::MAX` stays there.
#[derive(Clone, Copy, Debug, Default, PartialEq, Eq)]
pub struct UsrStats {
    pub streams_created: u64,
    pub stream_name_duplicates: u64,
    pub stream_name_reservation_limit_exceeded: u64,
}

/// What a counter shows after `n` events.
pub open spec fn counted(n: nat) -> u64 {
    if n > u64::MAX {
        u64::MAX
    } else {
        n as u64
    }
}

/// One more on a counter, unless it is at its end.
fn count_up(counter: u64, n: Ghost<nat>) -> (next: u64)
    requires
        counter == counted(n@),
    ensures
        next == counted(n@ + 1),
{
    if counter < u64::MAX {
        counter + 1
    } else {
        counter
    }
}

/// A sink that counts the streams it is told of and the requests that were
/// refused.
pub struct Ctx {
    stats: UsrStats,
    /// What the sink was told, oldest first.
    told: Ghost<Seq<Notice>>,
    /// How many requests were refused as duplicates.
    duplicates: Ghost<nat>,
    /// How many requests were refused for want of room.
    limit_exceeded: Ghost<nat>,
}

impl Ctx {
    #[verifier::type_invariant]
    spec fn counters_agree(self) -> bool {
        &&& self.stats.streams_created == counted(self.told@.len())
        &&& self.stats.stream_name_duplicates == counted(self.duplicates@)
        &&& self.stats.stream_name_reservation_limit_exceeded == counted(self.limit_exceeded@)
    }

    /// What the sink was told, oldest first.
    pub closed spec fn told(&self) -> Seq<Notice> {
        self.told@
    }

    /// How many requests the sink has seen refused with `DuplicateName`.
    pub closed spec fn duplicates(&self) -> nat {
        self.duplicates@
    }

    /// How many requests the sink has seen refused with
    /// `ReservationLimitExceeded`.
    pub closed spec fn limit_exceeded(&self) -> nat {
        self.limit_exceeded@
    }

    /// A sink that has seen nothing.
    pub fn new() -> (ctx: Self)
        ensures
            ctx.told() == Seq::<Notice>::empty(),
            ctx.duplicates() == 0,
            ctx.limit_exceeded() == 0,
    {
        Ctx {
            stats: UsrStats {
                streams_created: 0,
                stream_name_duplicates: 0,
                stream_name_reservation_limit_exceeded: 0,
            },
            told: Ghost(Seq::empty()),
            duplicates: Ghost(0),
            limit_exceeded: Ghost(0),
        }
    }

    /// The counters.
    pub fn stats(&self) -> (stats: UsrStats)
        ensures
            stats.streams_created == counted(self.told().len()),
            stats.stream_name_duplicates == counted(self.duplicates()),
            stats.stream_name_reservation_limit_exceeded == counted(self.limit_exceeded()),
    {
        proof {
            use_type_invariant(self);
        }
        self.stats
    }

    /// Counts a request that was refused, by the reason.
    pub fn on_stream_create_req_err(&mut self, err: CreateStreamErr)
        ensures
            final(self).told() == old(self).told(),
            final(self).duplicates() == old(self).duplicates() + if err is DuplicateName {
                1nat
            } else {
                0nat
            },
            final(self).limit_exceeded() == old(self).limit_exceeded()
                + if err is ReservationLimitExceeded {
                1nat
            } else {
                0nat
            },
    {
        proof {
            use_type_invariant(&*self);
        }
        let stats = self.stats;
        match err {
            CreateStreamErr::DuplicateName => {
                *self = Ctx {
                    stats: UsrStats {
                        streams_created: stats.streams_created,
                        stream_name_duplicates: count_up(
                            stats.stream_name_duplicates,
                            self.duplicates,
                        ),
                        stream_name_reservation_limit_exceeded:
                            stats.stream_name_reservation_limit_exceeded,
                    },
                    told: self.told,
                    duplicates: Ghost(self.duplicates@ + 1),
                    limit_exceeded: self.limit_exceeded,
                };
            },
            CreateStreamErr::ReservationLimitExceeded => {
                *self = Ctx {
                    stats: UsrStats {
                        streams_created: stats.streams_created,
                        stream_name_duplicates: stats.stream_name_duplicates,
                        stream_name_reservation_limit_exceeded: count_up(
                            stats.stream_name_reservation_limit_exceeded,
                            self.limit_exceeded,
                        ),
                    },
                    told: self.told,
                    duplicates: self.duplicates,
                    limit_exceeded: Ghost(self.limit_exceeded@ + 1),
                };
            },
        }
    }
}

impl UserCtx for Ctx {
    open spec fn received(&self) -> Option<Seq<Notice>> {
        Some(self.told())
    }

    /// Counts the stream.
    fn send(&mut self, res: URes<'_>)
        ensures
            final(self).told() == old(self).told().push(res@),
            final(self).duplicates() == old(self).duplicates(),
            final(self).limit_exceeded() == old(self).limit_exceeded(),
    {
        proof {
            use_type_invariant(&*self);
        }
        let stats = self.stats;
        match res {
            URes::StreamCreated { .. } => {
                *self = Ctx {
                    stats: UsrStats {
                        streams_created: count_up(
                            stats.streams_created,
                            Ghost(self.told@.len()),
                        ),
                        stream_name_duplicates: stats.stream_name_duplicates,
                        stream_name_reservation_limit_exceeded:
                            stats.stream_name_reservation_limit_exceeded,
                    },
                    told: Ghost(self.told@.push(res@)),
                    duplicates: self.duplicates,
                    limit_exceeded: self.limit_exceeded,
                };
            },
        }
    }
}

} // verus!
