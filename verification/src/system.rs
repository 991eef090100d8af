//! What holds of the database and the simulated substrate together.
//!
//! The two are in step when the substrate holds, for every pending name, the
//! one create request that carries the name's slot, and nothing else. A run
//! that asks for new names only stays in step, can always be advanced, and
//! lists every name once its request has been completed.
use crate::db::{DbState, FatalErr};
use crate::db_ctx::Create;
use crate::file_io::IOReq;
use crate::laws::{law_reserve_outcome, slot_of};
use crate::names::{holds_name, reserve_outcome};
use crate::os::{db_after_tick, requests, OsState, FD};
use crate::queue::{lemma_next_up_exists, next_up};
use vstd::multiset::Multiset;
use vstd::prelude::*;

verus! {

/// The request is the create request of a name that waits in `db`.
pub open spec fn asks_for_pending(db: DbState<FD>, req: IOReq<FD>) -> bool {
    req matches IOReq::Create(Create::Stream { name_idx, _padding }) && _padding == 0
        && db.pending.dom().contains(name_idx as int)
}

/// The substrate holds the create request of every pending name, once, and
/// no other request.
pub open spec fn in_step(db: DbState<FD>, waiting: Multiset<IOReq<FD>>) -> bool {
    forall|req: IOReq<FD>| #[trigger]
        waiting.count(req) == if asks_for_pending(db, req) {
            1nat
        } else {
            0nat
        }
}

/// A new database and a new substrate are in step.
pub proof fn law_in_step_at_start(capacity: nat)
    ensures
        in_step(DbState::<FD>::empty(capacity), requests(Seq::empty())),
{
    let pick = |event: (u64, IOReq<FD>)| event.1;
    assert(Seq::<(u64, IOReq<FD>)>::empty().map_values(pick) =~= Seq::<IOReq<FD>>::empty());
    Seq::<IOReq<FD>>::empty().to_multiset_ensures();
    assert(Seq::<IOReq<FD>>::empty().to_multiset().len() == 0);
    assert forall|req: IOReq<FD>| requests(Seq::empty()).count(req) == 0 by {
        if requests(Seq::empty()).count(req) > 0 {
            assert(Seq::<IOReq<FD>>::empty().contains(req));
        }
    }
}

/// A request for a stream keeps the two in step: where it is granted, the
/// substrate gets the one request that carries the new slot; where it is
/// refused, the substrate gets nothing.
pub proof fn law_create_keeps_in_step(
    db: DbState<FD>,
    waiting: Multiset<IOReq<FD>>,
    name: Seq<u8>,
)
    requires
        db.wf(),
        in_step(db, waiting),
    ensures
        match db.create_outcome(name) {
            Ok(req) => in_step(db.after_create(name), waiting.insert(req)),
            Err(_) => in_step(db.after_create(name), waiting),
        },
{
    law_reserve_outcome(db.pending, name, db.capacity);
    match db.create_outcome(name) {
        Ok(req) => {
            let after = db.after_create(name);
            let slot = reserve_outcome(db.pending, name, db.capacity)->Ok_0;
            assert(!asks_for_pending(db, req));
            assert forall|other: IOReq<FD>| #[trigger]
                waiting.insert(req).count(other) == if asks_for_pending(after, other) {
                    1nat
                } else {
                    0nat
                } by {
                assert(waiting.count(other) == if asks_for_pending(db, other) {
                    1nat
                } else {
                    0nat
                });
                if other != req {
                    assert(asks_for_pending(after, other) == asks_for_pending(db, other));
                }
            }
        },
        Err(_) => {},
    }
}

/// The request of entry `i` is among the requests, and once the entry has
/// left, the requests are one of it fewer.
proof fn lemma_requests_remove(events: Seq<(u64, IOReq<FD>)>, i: int)
    requires
        0 <= i < events.len(),
    ensures
        requests(events).count(events[i].1) > 0,
        requests(events.remove(i)) == requests(events).remove(events[i].1),
{
    let pick = |event: (u64, IOReq<FD>)| event.1;
    let reqs = events.map_values(pick);
    assert(events.remove(i).map_values(pick) =~= reqs.remove(i));
    reqs.to_multiset_ensures();
    assert(reqs[i] == events[i].1);
    assert(reqs.contains(events[i].1));
}

/// While the two are in step, nothing but a directory conflict can stop a
/// tick: the next request is always the create of a pending name.
pub proof fn law_only_a_conflict_stops_a_tick(db: DbState<FD>, os: OsState)
    requires
        in_step(db, requests(os.events)),
    ensures
        os.refusal(db) is None || os.refusal(db) == Some(FatalErr::DirectoryConflict),
        os.events.len() > 0 ==> asks_for_pending(db, os.next_request()),
{
    if os.events.len() > 0 {
        lemma_next_up_exists(os.events);
        let i = next_up(os.events);
        let req = os.events[i].1;
        lemma_requests_remove(os.events, i);
        assert(requests(os.events).count(req) == if asks_for_pending(db, req) {
            1nat
        } else {
            0nat
        });
    }
}

/// A tick that can be made keeps the two in step and the table well formed.
pub proof fn law_tick_keeps_in_step(db: DbState<FD>, os: OsState)
    requires
        db.wf(),
        in_step(db, requests(os.events)),
        os.refusal(db) is None,
    ensures
        db_after_tick(os, db).wf(),
        in_step(db_after_tick(os, db), requests(os.after_tick().events)),
{
    if os.events.len() > 0 {
        law_only_a_conflict_stops_a_tick(db, os);
        let i = next_up(os.events);
        let req = os.events[i].1;
        lemma_next_up_exists(os.events);
        lemma_requests_remove(os.events, i);
        let waiting = requests(os.events);
        let after = db.after_receive(os.completion());
        let left = requests(os.after_tick().events);
        assert(left == waiting.remove(req));
        assert forall|other: IOReq<FD>| #[trigger]
            left.count(other) == if asks_for_pending(after, other) {
                1nat
            } else {
                0nat
            } by {
            assert(waiting.count(other) == if asks_for_pending(db, other) {
                1nat
            } else {
                0nat
            });
            if other != req {
                assert(asks_for_pending(after, other) == asks_for_pending(db, other));
            }
        }
    }
}

/// While the two are in step and no pending name is listed, a tick can
/// always be made, and it keeps the pending names apart from the listed
/// ones.
pub proof fn law_tick_is_never_stopped(db: DbState<FD>, os: OsState)
    requires
        db.wf(),
        db.disjoint(),
        in_step(db, requests(os.events)),
    ensures
        os.refusal(db) is None,
        db_after_tick(os, db).disjoint(),
{
    if os.events.len() > 0 {
        law_only_a_conflict_stops_a_tick(db, os);
        let res = os.completion();
        let slot = slot_of(res);
        assert(!db.streams.dom().contains(db.pending[slot]));
        let after = db.after_receive(res);
        assert forall|k: int| after.pending.dom().contains(k) implies !after.streams.dom().contains(
            #[trigger] after.pending[k],
        ) by {
            assert(!db.streams.dom().contains(db.pending[k]));
        }
    }
}

/// The database and the substrate after `n` ticks.
pub open spec fn after_ticks(db: DbState<FD>, os: OsState, n: nat) -> (DbState<FD>, OsState)
    decreases n,
{
    if n == 0 {
        (db, os)
    } else {
        let (db1, os1) = after_ticks(db, os, (n - 1) as nat);
        (db_after_tick(os1, db1), os1.after_tick())
    }
}

/// Every request completes, given enough ticks: while the two are in step
/// and no pending name is listed, as many ticks as requests wait leave the
/// substrate without requests and the table without names. The directory
/// then lists exactly the names that were pending or listed before, and each
/// tick has made one file.
pub proof fn law_every_request_completes(db: DbState<FD>, os: OsState)
    requires
        db.wf(),
        db.disjoint(),
        in_step(db, requests(os.events)),
    ensures
        ({
            let (db_end, os_end) = after_ticks(db, os, os.events.len());
            &&& os_end.events.len() == 0
            &&& db_end.pending == Map::<int, Seq<u8>>::empty()
            &&& forall|name: Seq<u8>| db_end.streams.dom().contains(name) == db.knows(name)
            &&& os_end.files.len() == os.files.len() + os.events.len()
        }),
{
    lemma_ticks(db, os, os.events.len());
    let (db_end, os_end) = after_ticks(db, os, os.events.len());
    assert forall|slot: int| !db_end.pending.dom().contains(slot) by {
        if db_end.pending.dom().contains(slot) {
            let req = IOReq::<FD>::Create(Create::Stream { name_idx: slot as u8, _padding: 0 });
            assert(asks_for_pending(db_end, req));
            lemma_no_requests(os_end.events, req);
        }
    }
    assert(db_end.pending =~= Map::<int, Seq<u8>>::empty());
    assert forall|name: Seq<u8>| db_end.streams.dom().contains(name) == db.knows(name) by {
        assert(db_end.knows(name) == db.knows(name));
        if holds_name(db_end.pending, name) {
            let i = choose|i: int| db_end.pending.dom().contains(i) && db_end.pending[i] == name;
            assert(false);
        }
    }
}

/// The names in the directory do not depend on the order of completion: two
/// substrates that hold the same requests under different priorities, each
/// ticked until it is empty, leave directories with the same names. The
/// handles may differ, as each counts the files in the order of completion.
pub proof fn law_names_do_not_depend_on_priorities(db: DbState<FD>, one: OsState, other: OsState)
    requires
        db.wf(),
        db.disjoint(),
        in_step(db, requests(one.events)),
        in_step(db, requests(other.events)),
    ensures
        one.events.len() == other.events.len(),
        after_ticks(db, one, one.events.len()).0.streams.dom() == after_ticks(
            db,
            other,
            other.events.len(),
        ).0.streams.dom(),
        after_ticks(db, one, one.events.len()).0.pending == after_ticks(
            db,
            other,
            other.events.len(),
        ).0.pending,
{
    law_every_request_completes(db, one);
    law_every_request_completes(db, other);
    let pick = |event: (u64, IOReq<FD>)| event.1;
    one.events.map_values(pick).to_multiset_ensures();
    other.events.map_values(pick).to_multiset_ensures();
    assert(requests(one.events) =~= requests(other.events));
    assert(one.events.map_values(pick).len() == one.events.len());
    assert(other.events.map_values(pick).len() == other.events.len());
    let (one_end, _) = after_ticks(db, one, one.events.len());
    let (other_end, _) = after_ticks(db, other, other.events.len());
    assert forall|name: Seq<u8>|
        one_end.streams.dom().contains(name) == other_end.streams.dom().contains(name) by {
        assert(one_end.streams.dom().contains(name) == db.knows(name));
        assert(other_end.streams.dom().contains(name) == db.knows(name));
    }
    assert(one_end.streams.dom() =~= other_end.streams.dom());
}

/// A substrate without events holds no request.
proof fn lemma_no_requests(events: Seq<(u64, IOReq<FD>)>, req: IOReq<FD>)
    requires
        events.len() == 0,
    ensures
        requests(events).count(req) == 0,
{
    let pick = |event: (u64, IOReq<FD>)| event.1;
    let reqs = events.map_values(pick);
    reqs.to_multiset_ensures();
    if reqs.to_multiset().count(req) > 0 {
        assert(reqs.contains(req));
    }
}

/// What `n` ticks keep and do, while so many requests wait.
proof fn lemma_ticks(db: DbState<FD>, os: OsState, n: nat)
    requires
        db.wf(),
        db.disjoint(),
        in_step(db, requests(os.events)),
        n <= os.events.len(),
    ensures
        ({
            let (db_n, os_n) = after_ticks(db, os, n);
            &&& db_n.wf()
            &&& db_n.disjoint()
            &&& in_step(db_n, requests(os_n.events))
            &&& forall|name: Seq<u8>| db_n.knows(name) == db.knows(name)
            &&& os_n.events.len() == os.events.len() - n
            &&& os_n.files.len() == os.files.len() + n
        }),
    decreases n,
{
    if n > 0 {
        lemma_ticks(db, os, (n - 1) as nat);
        let (db1, os1) = after_ticks(db, os, (n - 1) as nat);
        law_tick_is_never_stopped(db1, os1);
        law_tick_keeps_in_step(db1, os1);
        lemma_next_up_exists(os1.events);
        let res = os1.completion();
        let after = db1.after_receive(res);
        let slot = slot_of(res);
        assert(db1.accepts(res));
        assert forall|name: Seq<u8>| after.knows(name) == db1.knows(name) by {
            if holds_name(db1.pending, name) {
                let i = choose|i: int| db1.pending.dom().contains(i) && db1.pending[i] == name;
                if i != slot {
                    assert(after.pending.dom().contains(i) && after.pending[i] == name);
                }
            }
            if holds_name(after.pending, name) {
                let i = choose|i: int| after.pending.dom().contains(i) && after.pending[i] == name;
                assert(db1.pending.dom().contains(i) && db1.pending[i] == name);
            }
            if name == db1.pending[slot] {
                assert(db1.pending.dom().contains(slot) && db1.pending[slot] == name);
            }
        }
    }
}

} // verus!
