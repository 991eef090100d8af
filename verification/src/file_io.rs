//! The interface between the database and an asynchronous I/O substrate.
use crate::db_ctx::Create;
use vstd::multiset::Multiset;
use vstd::prelude::*;

verus! {

/// An asynchronous I/O substrate. It takes requests and answers each of them
/// later, in an order of its own choosing, with an [`IORes`] that carries the
/// request's token back unchanged.
pub trait FileIO {
    /// What the substrate hands out for a file that it has created.
    type FD;

    /// The requests that the substrate has taken and not answered yet,
    /// where it says so. A substrate that gives no account says `None`, and
    /// nothing is then claimed of it.
    open spec fn outstanding(&self) -> Option<Multiset<IOReq<Self::FD>>> {
        None
    }

    /// Takes a request. Must not block. A substrate that gives an account of
    /// its outstanding requests has exactly this one more afterwards.
    fn send(&mut self, req: IOReq<Self::FD>)
        ensures
            old(self).outstanding() matches Some(waiting) ==> final(self).outstanding() == Some(
                waiting.insert(req),
            ),
    ;
}

/// The substrate has taken exactly `req` between `before` and `after`, as
/// far as it gives an account of its outstanding requests.
pub open spec fn took<IO: FileIO>(before: IO, after: IO, req: IOReq<IO::FD>) -> bool {
    before.outstanding() matches Some(waiting) ==> after.outstanding() == Some(
        waiting.insert(req),
    )
}

/// Requests: database -> substrate.
pub enum IOReq<FD> {
    Create(Create),
    Read { buf: Vec<u8>, offset: usize },
    Append { fd: FD, data: Box<[u8]> },
    Delete(FD),
}

/// Responses: substrate -> database.
pub enum IORes<FD> {
    Create(FD, Create),
    Read(usize),
    Append(usize),
    Delete(bool),
}

} // verus!
