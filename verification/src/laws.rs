//! What holds of the database over whole sequences of calls.
//!
//! The calls are modelled on the state alone: `step` does to a [`DbState`]
//! what `create_stream` and `try_receive_io` do to a database.
use crate::db::{DbState, FatalErr, Notice, DB};
use crate::db_ctx::Create;
use crate::file_io::{IOReq, IORes};
use crate::names::{
    holds_name, is_full, is_lowest_free, lemma_lowest_free_unique, pending_wf, reserve_outcome,
    CreateStreamErr, MAX_PENDING,
};
use vstd::prelude::*;

verus! {

/// One call on the database.
pub enum Call<FD> {
    /// `create_stream` with this name.
    CreateStream { name: Seq<u8> },
    /// `try_receive_io` with this response.
    ReceiveIo { res: IORes<FD> },
}

/// What a call answers.
pub enum Answer<FD> {
    /// The create request that was submitted, or why there was none.
    Requested(Result<IOReq<FD>, CreateStreamErr>),
    /// What the user was told, or why the response was refused.
    Received(Result<Notice, FatalErr>),
}

impl<FD> DbState<FD> {
    /// The state after one call. A refused call changes nothing.
    pub open spec fn step(self, call: Call<FD>) -> Self {
        match call {
            Call::CreateStream { name } => self.after_create(name),
            Call::ReceiveIo { res } => if self.accepts(res) {
                self.after_receive(res)
            } else {
                self
            },
        }
    }

    /// What one call answers.
    pub open spec fn answer(self, call: Call<FD>) -> Answer<FD> {
        match call {
            Call::CreateStream { name } => Answer::Requested(self.create_outcome(name)),
            Call::ReceiveIo { res } => Answer::Received(
                match self.refusal(res) {
                    Some(why) => Err(why),
                    None => Ok(self.notice(res)),
                },
            ),
        }
    }

    /// The state after a sequence of calls, made in order.
    pub open spec fn run(self, calls: Seq<Call<FD>>) -> Self
        decreases calls.len(),
    {
        if calls.len() == 0 {
            self
        } else {
            self.run(calls.drop_last()).step(calls.last())
        }
    }

    /// No pending name is listed in the directory.
    pub open spec fn disjoint(self) -> bool {
        forall|i: int|
            self.pending.dom().contains(i) ==> !self.streams.dom().contains(
                #[trigger] self.pending[i],
            )
    }

    /// The name is known: it waits in the table or is listed in the directory.
    pub open spec fn knows(self, name: Seq<u8>) -> bool {
        holds_name(self.pending, name) || self.streams.dom().contains(name)
    }
}

/// The slot that a response's token names, or -1 for a response that carries
/// no token.
pub open spec fn slot_of<FD>(res: IORes<FD>) -> int {
    match res {
        IORes::Create(_, token) => token.name_idx() as int,
        _ => -1,
    }
}

/// A reservation answers in exactly one of three ways, and each way has its
/// own inputs: a pending name is a duplicate; any other name is refused
/// while the table is full; and otherwise the lowest free slot is handed out.
pub proof fn law_reserve_outcome(pending: Map<int, Seq<u8>>, name: Seq<u8>, capacity: nat)
    ensures
        reserve_outcome(pending, name, capacity) == Err::<u8, CreateStreamErr>(
            CreateStreamErr::DuplicateName,
        ) <==> holds_name(pending, name),
        reserve_outcome(pending, name, capacity) == Err::<u8, CreateStreamErr>(
            CreateStreamErr::ReservationLimitExceeded,
        ) <==> !holds_name(pending, name) && is_full(pending, capacity),
        reserve_outcome(pending, name, capacity) is Ok <==> !holds_name(pending, name) && !is_full(
            pending,
            capacity,
        ),
        reserve_outcome(pending, name, capacity) matches Ok(idx) ==> capacity <= MAX_PENDING
            ==> is_lowest_free(pending, idx as int, capacity),
{
    if !holds_name(pending, name) && !is_full(pending, capacity) {
        lemma_some_slot_is_lowest_free(pending, 0, capacity);
    }
}

/// Where the slots below `from` are all taken and the table is not full,
/// some slot is the lowest free one.
proof fn lemma_some_slot_is_lowest_free(pending: Map<int, Seq<u8>>, from: int, capacity: nat)
    requires
        0 <= from <= capacity,
        forall|j: int| 0 <= j < from ==> pending.dom().contains(j),
        !is_full(pending, capacity),
    ensures
        exists|i: int| is_lowest_free(pending, i, capacity),
    decreases capacity - from,
{
    if from == capacity {
        assert(is_full(pending, capacity));
    } else if pending.dom().contains(from) {
        lemma_some_slot_is_lowest_free(pending, from + 1, capacity);
    } else {
        assert(is_lowest_free(pending, from, capacity));
    }
}

/// Every call keeps the table well formed: its slots stay below the limit
/// and no two of them hold the same name.
pub proof fn law_step_keeps_wf<FD>(s: DbState<FD>, call: Call<FD>)
    requires
        s.wf(),
    ensures
        s.step(call).wf(),
{
    match call {
        Call::CreateStream { name } => {
            law_reserve_outcome(s.pending, name, s.capacity);
            match reserve_outcome(s.pending, name, s.capacity) {
                Ok(idx) => {
                    let p = s.pending.insert(idx as int, name);
                    assert forall|i: int, j: int|
                        p.dom().contains(i) && p.dom().contains(j) && p[i] == p[j] implies i
                        == j by {
                        if i != j {
                            if i == idx {
                                assert(s.pending[j] == name);
                            } else if j == idx {
                                assert(s.pending[i] == name);
                            }
                        }
                    }
                },
                Err(_) => {},
            }
        },
        Call::ReceiveIo { res } => {},
    }
}

/// Every sequence of calls keeps the table well formed.
pub proof fn law_run_keeps_wf<FD>(s: DbState<FD>, calls: Seq<Call<FD>>)
    requires
        s.wf(),
    ensures
        s.run(calls).wf(),
    decreases calls.len(),
{
    if calls.len() > 0 {
        law_run_keeps_wf(s, calls.drop_last());
        law_step_keeps_wf(s.run(calls.drop_last()), calls.last());
    }
}

/// A listed stream stays listed, with the handle it was listed with,
/// whatever calls follow.
pub proof fn law_listed_stays_listed<FD>(s: DbState<FD>, calls: Seq<Call<FD>>, name: Seq<u8>)
    requires
        s.streams.dom().contains(name),
    ensures
        s.run(calls).streams.dom().contains(name),
        s.run(calls).streams[name] == s.streams[name],
    decreases calls.len(),
{
    if calls.len() > 0 {
        law_listed_stays_listed(s, calls.drop_last(), name);
    }
}

/// No name is ever lost: a name that waits in the table or is listed in the
/// directory still does one of the two after any sequence of calls.
pub proof fn law_no_name_is_lost<FD>(s: DbState<FD>, calls: Seq<Call<FD>>, name: Seq<u8>)
    requires
        s.wf(),
        s.knows(name),
    ensures
        s.run(calls).knows(name),
    decreases calls.len(),
{
    if calls.len() > 0 {
        law_no_name_is_lost(s, calls.drop_last(), name);
        law_run_keeps_wf(s, calls.drop_last());
        let before = s.run(calls.drop_last());
        let after = before.step(calls.last());
        if holds_name(before.pending, name) {
            let i = choose|i: int| before.pending.dom().contains(i) && before.pending[i] == name;
            match calls.last() {
                Call::CreateStream { name: other } => {
                    law_reserve_outcome(before.pending, other, before.capacity);
                    assert(after.pending.dom().contains(i) && after.pending[i] == name);
                },
                Call::ReceiveIo { res } => {
                    if before.accepts(res) && slot_of(res) != i {
                        assert(after.pending.dom().contains(i) && after.pending[i] == name);
                    }
                },
            }
        }
    }
}

/// When the completion of a pending create is taken, the name that waited in
/// the token's slot is listed with the handle that came back, the slot is
/// free again, the name waits in no other slot, every other entry of the
/// directory is as it was, and the directory has grown by exactly one name.
pub proof fn law_completion_lists_the_name<FD>(s: DbState<FD>, fd: FD, token: Create)
    requires
        s.wf(),
        s.accepts(IORes::Create(fd, token)),
    ensures
        ({
            let slot = token.name_idx() as int;
            let name = s.pending[slot];
            let after = s.after_receive(IORes::Create(fd, token));
            &&& after.streams.dom().contains(name)
            &&& after.streams[name] == fd
            &&& !after.pending.dom().contains(slot)
            &&& !holds_name(after.pending, name)
            &&& forall|other: Seq<u8>|
                other != name ==> after.streams.dom().contains(other) == s.streams.dom().contains(
                    other,
                ) && after.streams[other] == s.streams[other]
            &&& s.streams.dom().finite() ==> after.streams.dom().finite()
                && after.streams.dom().len() == s.streams.dom().len() + 1
        }),
{
}

/// Where no pending name is listed, no completion of a pending create can
/// meet a directory conflict: it is always taken.
pub proof fn law_no_conflict_where_disjoint<FD>(s: DbState<FD>, fd: FD, token: Create)
    requires
        s.disjoint(),
        s.pending.dom().contains(token.name_idx() as int),
    ensures
        s.accepts(IORes::Create(fd, token)),
{
}

/// That no pending name is listed is kept by every call but the request of a
/// name that is already listed.
pub proof fn law_step_keeps_disjoint<FD>(s: DbState<FD>, call: Call<FD>)
    requires
        s.wf(),
        s.disjoint(),
        call matches Call::CreateStream { name } ==> !s.streams.dom().contains(name),
    ensures
        s.step(call).disjoint(),
{
    let after = s.step(call);
    match call {
        Call::CreateStream { name } => {
            law_reserve_outcome(s.pending, name, s.capacity);
            assert forall|i: int|
                after.pending.dom().contains(i) implies !after.streams.dom().contains(
                #[trigger] after.pending[i],
            ) by {
                if s.pending.dom().contains(i) {
                    assert(!s.streams.dom().contains(s.pending[i]));
                }
            }
        },
        Call::ReceiveIo { res } => {
            assert forall|i: int|
                after.pending.dom().contains(i) implies !after.streams.dom().contains(
                #[trigger] after.pending[i],
            ) by {
                assert(!s.streams.dom().contains(s.pending[i]));
            }
        },
    }
}

/// The names that the create calls of `calls` ask for are new: none of them
/// is listed in the directory when its call is made.
pub open spec fn asks_for_new_names<FD>(s: DbState<FD>, calls: Seq<Call<FD>>) -> bool {
    forall|k: int|
        0 <= k < calls.len() ==> (#[trigger] calls[k] matches Call::CreateStream { name }
            ==> !s.run(calls.take(k)).streams.dom().contains(name))
}

/// Over a sequence of calls that ask for new names only, no pending name is
/// ever listed, so no completion ever meets a directory conflict.
pub proof fn law_run_keeps_disjoint<FD>(s: DbState<FD>, calls: Seq<Call<FD>>)
    requires
        s.wf(),
        s.disjoint(),
        asks_for_new_names(s, calls),
    ensures
        s.run(calls).wf(),
        s.run(calls).disjoint(),
    decreases calls.len(),
{
    if calls.len() > 0 {
        let front = calls.drop_last();
        assert forall|k: int| 0 <= k < front.len() implies (#[trigger] front[k] matches
            Call::CreateStream { name } ==> !s.run(front.take(k)).streams.dom().contains(
            name,
        )) by {
            assert(front.take(k) =~= calls.take(k));
            assert(front[k] == calls[k]);
        }
        law_run_keeps_disjoint(s, front);
        let k = calls.len() - 1;
        assert(calls.take(k) =~= front);
        assert(calls[k] == calls.last());
        law_step_keeps_disjoint(s.run(front), calls.last());
        law_step_keeps_wf(s.run(front), calls.last());
    }
}

/// Every name appears exactly once in the directory after its completion
/// is delivered. Over any sequence of calls that ask for new names only, the
/// completion of a create that is pending at the end is taken; the name was
/// not listed before and is listed then, with the handle that came back; it
/// no longer waits in the table; and whatever calls follow, it stays listed
/// with that handle.
pub proof fn law_every_name_appears_once<FD>(
    s: DbState<FD>,
    calls: Seq<Call<FD>>,
    fd: FD,
    token: Create,
    later: Seq<Call<FD>>,
)
    requires
        s.wf(),
        s.disjoint(),
        asks_for_new_names(s, calls),
        s.run(calls).pending.dom().contains(token.name_idx() as int),
    ensures
        ({
            let before = s.run(calls);
            let name = before.pending[token.name_idx() as int];
            let after = before.step(Call::ReceiveIo { res: IORes::Create(fd, token) });
            &&& before.accepts(IORes::Create(fd, token))
            &&& !before.streams.dom().contains(name)
            &&& after.streams.dom().contains(name)
            &&& after.streams[name] == fd
            &&& !holds_name(after.pending, name)
            &&& after.run(later).streams.dom().contains(name)
            &&& after.run(later).streams[name] == fd
        }),
{
    let before = s.run(calls);
    let name = before.pending[token.name_idx() as int];
    law_run_keeps_disjoint(s, calls);
    law_no_conflict_where_disjoint(before, fd, token);
    law_completion_lists_the_name(before, fd, token);
    let after = before.step(Call::ReceiveIo { res: IORes::Create(fd, token) });
    law_listed_stays_listed(after, later, name);
}

/// The token finds its way back: a new name that is requested while a slot
/// is free gets the lowest free slot, the request carries that slot, and
/// once the completion that brings the same token back is taken, the
/// directory lists the name with the handle that came with it. The table is
/// then as it was before the request.
pub proof fn law_created_name_is_listed<FD>(s: DbState<FD>, name: Seq<u8>, fd: FD)
    requires
        s.wf(),
        !s.knows(name),
        !is_full(s.pending, s.capacity),
    ensures
        s.create_outcome(name) matches Ok(IOReq::Create(token)) && ({
            let res = IORes::Create(fd, token);
            let requested = s.after_create(name);
            &&& is_lowest_free(s.pending, token.name_idx() as int, s.capacity)
            &&& requested.accepts(res)
            &&& requested.after_receive(res).pending == s.pending
            &&& requested.after_receive(res).streams == s.streams.insert(name, fd)
        }),
{
    law_reserve_outcome(s.pending, name, s.capacity);
    let idx = reserve_outcome(s.pending, name, s.capacity)->Ok_0;
    let requested = s.after_create(name);
    assert(requested.pending.remove(idx as int) =~= s.pending);
}

/// None of the calls completes the create that waits in `slot`.
pub open spec fn leaves_slot_alone<FD>(calls: Seq<Call<FD>>, slot: int) -> bool {
    forall|k: int|
        0 <= k < calls.len() ==> (#[trigger] calls[k] matches Call::ReceiveIo { res } ==> slot_of(
            res,
        ) != slot)
}

/// A name that is requested again before its completion was taken is a
/// duplicate: as long as no call completes its slot, the name stays in that
/// slot, a further request for it answers `DuplicateName`, and that request
/// changes nothing and submits nothing.
pub proof fn law_duplicate_until_completed<FD>(s: DbState<FD>, calls: Seq<Call<FD>>, slot: int)
    requires
        s.wf(),
        s.pending.dom().contains(slot),
        leaves_slot_alone(calls, slot),
    ensures
        ({
            let name = s.pending[slot];
            let later = s.run(calls);
            &&& later.pending.dom().contains(slot)
            &&& later.pending[slot] == name
            &&& later.create_outcome(name) == Err::<IOReq<FD>, CreateStreamErr>(
                CreateStreamErr::DuplicateName,
            )
            &&& later.after_create(name) == later
        }),
    decreases calls.len(),
{
    let name = s.pending[slot];
    if calls.len() > 0 {
        let front = calls.drop_last();
        assert forall|k: int| 0 <= k < front.len() implies (#[trigger] front[k] matches
            Call::ReceiveIo { res } ==> slot_of(res) != slot) by {
            assert(front[k] == calls[k]);
        }
        law_duplicate_until_completed(s, front, slot);
        law_run_keeps_wf(s, front);
        let before = s.run(front);
        assert(calls[calls.len() - 1] == calls.last());
        match calls.last() {
            Call::CreateStream { name: other } => {
                law_reserve_outcome(before.pending, other, before.capacity);
            },
            Call::ReceiveIo { res } => {},
        }
    }
    let later = s.run(calls);
    assert(later.pending.dom().contains(slot) && later.pending[slot] == name);
    law_reserve_outcome(later.pending, name, later.capacity);
}

/// A well-formed table never holds more names than it has slots, and it is
/// full exactly when it holds that many.
pub proof fn law_table_is_bounded(pending: Map<int, Seq<u8>>, capacity: nat)
    requires
        pending_wf(pending, capacity),
    ensures
        pending.dom().finite(),
        pending.dom().len() <= capacity,
        is_full(pending, capacity) <==> pending.dom().len() == capacity,
{
    let all = vstd::set_lib::set_int_range(0, capacity as int);
    vstd::set_lib::lemma_int_range(0, capacity as int);
    assert(pending.dom().subset_of(all));
    vstd::set_lib::lemma_len_subset(pending.dom(), all);
    if is_full(pending, capacity) {
        assert(pending.dom() =~= all);
    }
    if pending.dom().len() == capacity {
        vstd::set_lib::lemma_subset_equality(pending.dom(), all);
    }
}

/// While as many names are pending as the table has slots, one more request
/// is refused with `ReservationLimitExceeded`, unless it is a duplicate, and
/// changes nothing.
pub proof fn law_full_table_refuses<FD>(s: DbState<FD>, name: Seq<u8>)
    requires
        s.wf(),
        s.pending.dom().len() == s.capacity,
        !holds_name(s.pending, name),
    ensures
        s.create_outcome(name) == Err::<IOReq<FD>, CreateStreamErr>(
            CreateStreamErr::ReservationLimitExceeded,
        ),
        s.after_create(name) == s,
{
    law_table_is_bounded(s.pending, s.capacity);
    law_reserve_outcome(s.pending, name, s.capacity);
}

/// A request is never refused for want of room while fewer names are
/// pending than the table has slots; it then adds one to their number.
pub proof fn law_room_is_granted<FD>(s: DbState<FD>, name: Seq<u8>)
    requires
        s.wf(),
        s.pending.dom().len() < s.capacity,
        !holds_name(s.pending, name),
    ensures
        s.create_outcome(name) is Ok,
        s.after_create(name).pending.dom().len() == s.pending.dom().len() + 1,
{
    law_table_is_bounded(s.pending, s.capacity);
    law_reserve_outcome(s.pending, name, s.capacity);
}

/// Taking the completion of any one pending create restores one unit of
/// capacity: one name fewer is pending, the table is not full, and the next
/// request for a name that is not pending is granted. Where the table was
/// full, that request gets the very slot that was freed.
pub proof fn law_completion_restores_capacity<FD>(
    s: DbState<FD>,
    fd: FD,
    token: Create,
    name: Seq<u8>,
)
    requires
        s.wf(),
        s.accepts(IORes::Create(fd, token)),
        !holds_name(s.after_receive(IORes::Create(fd, token)).pending, name),
    ensures
        ({
            let after = s.after_receive(IORes::Create(fd, token));
            &&& after.wf()
            &&& after.pending.dom().len() == s.pending.dom().len() - 1
            &&& !is_full(after.pending, after.capacity)
            &&& after.create_outcome(name) is Ok
            &&& is_full(s.pending, s.capacity) ==> after.create_outcome(name) == Ok::<
                IOReq<FD>,
                CreateStreamErr,
            >(IOReq::Create(Create::Stream { name_idx: token.name_idx(), _padding: 0 }))
        }),
{
    let after = s.after_receive(IORes::Create(fd, token));
    let slot = token.name_idx() as int;
    law_table_is_bounded(s.pending, s.capacity);
    assert(after.pending.dom() =~= s.pending.dom().remove(slot));
    assert(after.wf());
    assert(!after.pending.dom().contains(slot));
    assert(0 <= slot < s.capacity);
    assert(!is_full(after.pending, after.capacity));
    law_reserve_outcome(after.pending, name, after.capacity);
    if is_full(s.pending, s.capacity) {
        assert forall|j: int| 0 <= j < slot implies after.pending.dom().contains(j) by {
            assert(s.pending.dom().contains(j));
        }
        assert(is_lowest_free(after.pending, slot, after.capacity));
        let got = reserve_outcome(after.pending, name, after.capacity)->Ok_0;
        lemma_lowest_free_unique(after.pending, slot, got as int, after.capacity);
    }
}

/// What each of the calls answers, in order.
pub open spec fn answers<FD>(s: DbState<FD>, calls: Seq<Call<FD>>) -> Seq<Answer<FD>> {
    Seq::new(calls.len(), |k: int| s.run(calls.take(k)).answer(calls[k]))
}

/// The database is deterministic: the state after a sequence of calls, and
/// what each call answers, depend on what the database holds and on the
/// calls, and on nothing else. Two databases that hold the same, whatever
/// seeds they were made with, answer the same calls alike and end alike.
pub proof fn law_same_calls_same_outcome<'a, FD>(
    first: DB<'a, FD>,
    second: DB<'a, FD>,
    calls: Seq<Call<FD>>,
)
    requires
        first@ == second@,
    ensures
        first@.run(calls) == second@.run(calls),
        answers(first@, calls) == answers(second@, calls),
{
}

/// The state after the responses of `rs` were handed to `try_receive_io`,
/// one after the other.
pub open spec fn receive_all<FD>(s: DbState<FD>, rs: Seq<IORes<FD>>) -> DbState<FD>
    decreases rs.len(),
{
    if rs.len() == 0 {
        s
    } else {
        receive_all(s, rs.drop_last()).step(Call::ReceiveIo { res: rs.last() })
    }
}

/// Each response of `rs` completes a pending create of `s`, and no two of
/// them complete the same one.
pub open spec fn completes_pending<FD>(s: DbState<FD>, rs: Seq<IORes<FD>>) -> bool {
    &&& forall|k: int| 0 <= k < rs.len() ==> s.accepts(#[trigger] rs[k])
    &&& forall|j: int, k: int|
        0 <= j < rs.len() && 0 <= k < rs.len() && j != k ==> slot_of(#[trigger] rs[j]) != slot_of(
            #[trigger] rs[k],
        )
}

/// The handle that a create response brings.
pub open spec fn handle_of<FD>(res: IORes<FD>) -> FD {
    match res {
        IORes::Create(fd, _) => fd,
        _ => arbitrary(),
    }
}

/// Some response of `rs` completes the create of `name`.
pub open spec fn completes_name<FD>(s: DbState<FD>, rs: Seq<IORes<FD>>, name: Seq<u8>) -> bool {
    exists|k: int| 0 <= k < rs.len() && #[trigger] s.pending[slot_of(rs[k])] == name
}

/// Some response of `rs` completes the create that waits in `slot`.
pub open spec fn completes_slot<FD>(rs: Seq<IORes<FD>>, slot: int) -> bool {
    exists|k: int| 0 <= k < rs.len() && #[trigger] slot_of(rs[k]) == slot
}

/// The state in which every create that `rs` completes has left the table
/// and is listed with the handle that its response brought.
pub open spec fn with_all_completed<FD>(s: DbState<FD>, rs: Seq<IORes<FD>>) -> DbState<FD> {
    DbState {
        pending: Map::new(
            |i: int| s.pending.dom().contains(i) && !completes_slot(rs, i),
            |i: int| s.pending[i],
        ),
        streams: Map::new(
            |name: Seq<u8>| s.streams.dom().contains(name) || completes_name(s, rs, name),
            |name: Seq<u8>|
                if completes_name(s, rs, name) {
                    handle_of(
                        rs[choose|k: int|
                            0 <= k < rs.len() && #[trigger] s.pending[slot_of(rs[k])] == name],
                    )
                } else {
                    s.streams[name]
                },
        ),
        capacity: s.capacity,
    }
}

/// Two completions of different pending creates can be taken in either
/// order: each is still taken after the other, and both orders end in the
/// same state.
pub proof fn law_completions_commute<FD>(s: DbState<FD>, first: IORes<FD>, second: IORes<FD>)
    requires
        s.wf(),
        s.accepts(first),
        s.accepts(second),
        slot_of(first) != slot_of(second),
    ensures
        s.after_receive(first).accepts(second),
        s.after_receive(second).accepts(first),
        s.after_receive(first).after_receive(second) == s.after_receive(second).after_receive(
            first,
        ),
{
    let a = s.after_receive(first).after_receive(second);
    let b = s.after_receive(second).after_receive(first);
    assert(a.pending =~= b.pending);
    assert(a.streams =~= b.streams);
}

/// Taking the completions of `rs` in their order ends in the state in which
/// each of their creates has left the table and is listed with its handle.
pub proof fn law_all_completions_are_taken<FD>(s: DbState<FD>, rs: Seq<IORes<FD>>)
    requires
        s.wf(),
        completes_pending(s, rs),
    ensures
        receive_all(s, rs) == with_all_completed(s, rs),
    decreases rs.len(),
{
    let closed = with_all_completed(s, rs);
    if rs.len() == 0 {
        assert(closed.pending =~= s.pending);
        assert(closed.streams =~= s.streams);
    } else {
        let front = rs.drop_last();
        let last = rs.last();
        let n = rs.len() - 1;
        assert(rs[n] == last);
        assert forall|k: int| 0 <= k < front.len() implies front[k] == rs[k] by {}
        law_all_completions_are_taken(s, front);
        let mid = with_all_completed(s, front);
        let slot = slot_of(last);
        let name = s.pending[slot];
        assert(s.accepts(last));
        // The last response is still taken after the others.
        assert(!completes_slot(front, slot)) by {
            if completes_slot(front, slot) {
                let k = choose|k: int| 0 <= k < front.len() && #[trigger] slot_of(front[k]) == slot;
                assert(slot_of(rs[k]) == slot_of(rs[n]));
            }
        }
        assert(!completes_name(s, front, name)) by {
            if completes_name(s, front, name) {
                let k = choose|k: int|
                    0 <= k < front.len() && #[trigger] s.pending[slot_of(front[k])] == name;
                assert(s.accepts(rs[k]));
                assert(slot_of(rs[k]) != slot_of(rs[n]));
            }
        }
        assert(mid.accepts(last));
        let after = mid.after_receive(last);
        assert forall|i: int| completes_slot(rs, i) == (completes_slot(front, i) || i
            == slot) by {
            if completes_slot(rs, i) {
                let k = choose|k: int| 0 <= k < rs.len() && #[trigger] slot_of(rs[k]) == i;
                if k < n {
                    assert(slot_of(front[k]) == i);
                }
            }
            if completes_slot(front, i) {
                let k = choose|k: int| 0 <= k < front.len() && #[trigger] slot_of(front[k]) == i;
                assert(slot_of(rs[k]) == i);
            }
            if i == slot {
                assert(slot_of(rs[n]) == i);
            }
        }
        assert forall|other: Seq<u8>| completes_name(s, rs, other) == (completes_name(
            s,
            front,
            other,
        ) || other == name) by {
            if completes_name(s, rs, other) {
                let k = choose|k: int|
                    0 <= k < rs.len() && #[trigger] s.pending[slot_of(rs[k])] == other;
                if k < n {
                    assert(s.pending[slot_of(front[k])] == other);
                }
            }
            if completes_name(s, front, other) {
                let k = choose|k: int|
                    0 <= k < front.len() && #[trigger] s.pending[slot_of(front[k])] == other;
                assert(s.pending[slot_of(rs[k])] == other);
            }
            if other == name {
                assert(s.pending[slot_of(rs[n])] == other);
            }
        }
        assert(after.pending =~= closed.pending);
        assert forall|other: Seq<u8>| closed.streams.dom().contains(other) implies #[trigger]
            closed.streams[other] == after.streams[other] by {
            if completes_name(s, rs, other) {
                let k = choose|k: int|
                    0 <= k < rs.len() && #[trigger] s.pending[slot_of(rs[k])] == other;
                assert(s.accepts(rs[k]));
                if other == name {
                    // Only the last response completes this name.
                    if k < n {
                        assert(slot_of(rs[k]) != slot_of(rs[n]));
                    }
                } else {
                    assert(k < n);
                    let j = choose|j: int|
                        0 <= j < front.len() && #[trigger] s.pending[slot_of(front[j])] == other;
                    assert(s.accepts(rs[j]));
                    if j != k {
                        assert(slot_of(rs[j]) != slot_of(rs[k]));
                    }
                }
            }
        }
        assert(after.streams =~= closed.streams);
    }
}

/// Completion-order independence: where two sequences hold the same
/// completions of pending creates, in whatever order, taking the one ends in
/// the same table and the same directory as taking the other.
pub proof fn law_completion_order_is_irrelevant<FD>(
    s: DbState<FD>,
    one: Seq<IORes<FD>>,
    other: Seq<IORes<FD>>,
)
    requires
        s.wf(),
        completes_pending(s, one),
        completes_pending(s, other),
        one.to_multiset() == other.to_multiset(),
    ensures
        receive_all(s, one) == receive_all(s, other),
{
    law_all_completions_are_taken(s, one);
    law_all_completions_are_taken(s, other);
    let a = with_all_completed(s, one);
    let b = with_all_completed(s, other);
    one.to_multiset_ensures();
    other.to_multiset_ensures();
    assert forall|res: IORes<FD>| one.contains(res) == other.contains(res) by {
        assert(one.contains(res) == (one.to_multiset().count(res) > 0));
        assert(other.contains(res) == (other.to_multiset().count(res) > 0));
    }
    lemma_same_completions(s, one, other);
    lemma_same_completions(s, other, one);
    assert(a.pending =~= b.pending);
    assert forall|name: Seq<u8>| a.streams.dom().contains(name) implies #[trigger] a.streams[name]
        == b.streams[name] by {
        if completes_name(s, one, name) {
            let k = choose|k: int|
                0 <= k < one.len() && #[trigger] s.pending[slot_of(one[k])] == name;
            let j = choose|j: int|
                0 <= j < other.len() && #[trigger] s.pending[slot_of(other[j])] == name;
            assert(one.contains(one[k]));
            assert(other.contains(one[k]));
            let m = choose|m: int| 0 <= m < other.len() && other[m] == one[k];
            assert(s.accepts(other[m]));
            assert(s.accepts(other[j]));
            if m != j {
                assert(slot_of(other[m]) != slot_of(other[j]));
            }
        }
    }
    assert(a.streams =~= b.streams);
}

/// What `one` completes, `other` completes too, where `other` holds every
/// response of `one`.
proof fn lemma_same_completions<FD>(s: DbState<FD>, one: Seq<IORes<FD>>, other: Seq<IORes<FD>>)
    requires
        forall|res: IORes<FD>| one.contains(res) ==> other.contains(res),
    ensures
        forall|i: int| completes_slot(one, i) ==> completes_slot(other, i),
        forall|name: Seq<u8>| completes_name(s, one, name) ==> completes_name(s, other, name),
{
    assert forall|i: int| completes_slot(one, i) implies completes_slot(other, i) by {
        let k = choose|k: int| 0 <= k < one.len() && #[trigger] slot_of(one[k]) == i;
        assert(one.contains(one[k]));
        let m = choose|m: int| 0 <= m < other.len() && other[m] == one[k];
        assert(slot_of(other[m]) == i);
    }
    assert forall|name: Seq<u8>| completes_name(s, one, name) implies completes_name(
        s,
        other,
        name,
    ) by {
        let k = choose|k: int| 0 <= k < one.len() && #[trigger] s.pending[slot_of(one[k])] == name;
        assert(one.contains(one[k]));
        let m = choose|m: int| 0 <= m < other.len() && other[m] == one[k];
        assert(s.pending[slot_of(other[m])] == name);
    }
}

} // verus!
