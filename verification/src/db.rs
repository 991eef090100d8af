//! The database: reserves a slot for each requested name, emits the create
//! request, and files the name in the directory when the completion arrives.
use crate::db_ctx::Create;
use crate::directory::StreamDirectory;
use crate::file_io::{took, FileIO, IOReq, IORes};
use crate::names::{
    after_reserve, holds_name, pending_wf, reserve_outcome, CreateStreamErr, RequestedStreamNames,
    MAX_PENDING,
};
use vstd::prelude::*;

verus! {

/// What the database tells its user.
#[derive(Debug)]
pub enum URes<'a> {
    /// The stream `name` now exists.
    StreamCreated { name: &'a [u8] },
}

/// What a [`URes`] says, with each name as its bytes.
pub enum Notice {
    StreamCreated { name: Seq<u8> },
}

impl<'a> View for URes<'a> {
    type V = Notice;

    open spec fn view(&self) -> Notice {
        match self {
            URes::StreamCreated { name } => Notice::StreamCreated { name: name@ },
        }
    }
}

/// Where the database sends what it has to tell its user.
pub trait UserCtx {
    /// What the user was told so far, oldest first, where the sink keeps
    /// such a record. A sink that keeps none says `None`.
    open spec fn received(&self) -> Option<Seq<Notice>> {
        None
    }

    /// Takes one notice.
    fn send(&mut self, res: URes<'_>)
        ensures
            old(self).received() matches Some(log) ==> final(self).received() == Some(
                log.push(res@),
            ),
    ;
}

/// The sink has taken exactly `notice` between `before` and `after`, as far
/// as it keeps a record.
pub open spec fn told<U: UserCtx>(before: U, after: U, notice: Notice) -> bool {
    before.received() matches Some(log) ==> after.received() == Some(log.push(notice))
}

/// Why a request or a response cannot be worked on. Each of these means that
/// the run is broken: none is an answer to a user's mistake.
#[derive(Clone, Copy, Debug, PartialEq, Eq)]
pub enum FatalErr {
    /// The request or response belongs to an operation other than create.
    UnimplementedOperation,
    /// The token names a slot that holds no pending name.
    NotPending,
    /// The directory already lists the name that the token stands for.
    DirectoryConflict,
}

/// What a database holds: the names that wait for their completion, each at
/// its slot, the streams that exist, each with its handle, and the number of
/// slots that the database was made with.
pub struct DbState<FD> {
    pub pending: Map<int, Seq<u8>>,
    pub streams: Map<Seq<u8>, FD>,
    pub capacity: nat,
}

impl<FD> DbState<FD> {
    /// The pending names lie in slots below the capacity, and no two slots
    /// hold the same name.
    pub open spec fn wf(self) -> bool {
        pending_wf(self.pending, self.capacity)
    }

    /// The state of a new database with `capacity` slots: nothing pending,
    /// nothing listed.
    pub open spec fn empty(capacity: nat) -> Self {
        DbState { pending: Map::empty(), streams: Map::empty(), capacity }
    }

    /// What a request for the stream `name` leads to: the create request to
    /// submit, whose token names the reserved slot, or the reason for which
    /// the name is refused.
    pub open spec fn create_outcome(self, name: Seq<u8>) -> Result<IOReq<FD>, CreateStreamErr> {
        match reserve_outcome(self.pending, name, self.capacity) {
            Ok(name_idx) => Ok(IOReq::Create(Create::Stream { name_idx, _padding: 0 })),
            Err(e) => Err(e),
        }
    }

    /// What a request for the stream `name` answers.
    pub open spec fn create_answer(self, name: Seq<u8>) -> Result<(), CreateStreamErr> {
        match reserve_outcome(self.pending, name, self.capacity) {
            Ok(_) => Ok(()),
            Err(e) => Err(e),
        }
    }

    /// The state after a request for the stream `name`. A refused request
    /// changes nothing.
    pub open spec fn after_create(self, name: Seq<u8>) -> Self {
        DbState {
            pending: after_reserve(self.pending, name, self.capacity),
            streams: self.streams,
            capacity: self.capacity,
        }
    }

    /// Why the response `res` cannot be taken, if it cannot. The checks come
    /// in this order: the kind, the slot, the directory.
    pub open spec fn refusal(self, res: IORes<FD>) -> Option<FatalErr> {
        match res {
            IORes::Create(_, token) => {
                let slot = token.name_idx() as int;
                if !self.pending.dom().contains(slot) {
                    Some(FatalErr::NotPending)
                } else if self.streams.dom().contains(self.pending[slot]) {
                    Some(FatalErr::DirectoryConflict)
                } else {
                    None
                }
            },
            _ => Some(FatalErr::UnimplementedOperation),
        }
    }

    /// The response `res` completes a pending create whose name the
    /// directory does not list yet.
    pub open spec fn accepts(self, res: IORes<FD>) -> bool {
        self.refusal(res) is None
    }

    /// What the user is told when the response `res` is taken: that the
    /// stream whose name waited in the token's slot now exists.
    pub open spec fn notice(self, res: IORes<FD>) -> Notice {
        match res {
            IORes::Create(_, token) => Notice::StreamCreated {
                name: self.pending[token.name_idx() as int],
            },
            _ => arbitrary(),
        }
    }

    /// The state after the response `res` was taken: the slot is free again
    /// and the directory lists the name with the handle that came back.
    pub open spec fn after_receive(self, res: IORes<FD>) -> Self {
        match res {
            IORes::Create(fd, token) => DbState {
                pending: self.pending.remove(token.name_idx() as int),
                streams: self.streams.insert(self.pending[token.name_idx() as int], fd),
                capacity: self.capacity,
            },
            _ => self,
        }
    }
}

/// The database. `FD` is what the substrate hands out for a file.
pub struct DB<'a, FD> {
    /// Names that wait for their completion.
    rsn: RequestedStreamNames<'a>,
    /// Streams that exist. Hashed deterministically.
    streams: StreamDirectory<'a, FD>,
}

impl<'a, FD> View for DB<'a, FD> {
    type V = DbState<FD>;

    closed spec fn view(&self) -> DbState<FD> {
        DbState {
            pending: self.rsn.pending(),
            streams: self.streams.entries(),
            capacity: self.rsn.capacity(),
        }
    }
}

impl<'a, FD> DB<'a, FD> {
    /// The table and the directory are well formed.
    pub closed spec fn wf(&self) -> bool {
        &&& self.rsn.wf()
        &&& self.streams.wf()
    }

    /// The state of a well-formed database is well formed.
    pub proof fn lemma_wf(&self)
        requires
            self.wf(),
        ensures
            self@.wf(),
    {
        self.rsn.lemma_wf();
    }

    /// A database without streams, in which as many names can be pending at
    /// a time as a table can hold. The seed fixes the directory's hash
    /// function and nothing else.
    pub fn new(seed: u64) -> (db: Self)
        ensures
            db.wf(),
            db@ == DbState::<FD>::empty(MAX_PENDING as nat),
    {
        DB { rsn: RequestedStreamNames::new(), streams: StreamDirectory::new(seed) }
    }

    /// A database without streams, in which `capacity` names can be pending
    /// at a time.
    pub fn with_capacity(seed: u64, capacity: usize) -> (db: Self)
        requires
            capacity <= MAX_PENDING,
        ensures
            db.wf(),
            db@ == DbState::<FD>::empty(capacity as nat),
    {
        DB {
            rsn: RequestedStreamNames::with_capacity(capacity),
            streams: StreamDirectory::new(seed),
        }
    }

    /// Reserves a slot for `name` and returns the create request that
    /// carries the slot's index. A refusal changes nothing.
    pub fn request_create(&mut self, name: &'a [u8]) -> (r: Result<IOReq<FD>, CreateStreamErr>)
        requires
            old(self).wf(),
        ensures
            final(self).wf(),
            final(self)@ == old(self)@.after_create(name@),
            r == old(self)@.create_outcome(name@),
            r is Err ==> *final(self) == *old(self),
    {
        match self.rsn.add(name) {
            Ok(name_idx) => Ok(IOReq::Create(Create::Stream { name_idx, _padding: 0 })),
            Err(e) => Err(e),
        }
    }

    /// Requests the stream `name`: reserves a slot and submits a create
    /// request to `file_io`. A name that is already pending, or any name
    /// while the table is full, is refused without a word to `file_io`.
    ///
    /// The stream name is raw bytes, not text in a particular encoding.
    pub fn create_stream(&mut self, name: &'a [u8], file_io: &mut impl FileIO<FD = FD>) -> (r:
        Result<(), CreateStreamErr>)
        requires
            old(self).wf(),
        ensures
            final(self).wf(),
            final(self)@ == old(self)@.after_create(name@),
            r == old(self)@.create_answer(name@),
            r is Err ==> *final(self) == *old(self) && *final(file_io) == *old(file_io),
            old(self)@.create_outcome(name@) matches Ok(req) ==> took(
                *old(file_io),
                *final(file_io),
                req,
            ),
    {
        match self.request_create(name) {
            Ok(req) => {
                file_io.send(req);
                Ok(())
            },
            Err(e) => Err(e),
        }
    }

    /// Why the response `res` cannot be taken, or `None` where it can.
    pub fn refusal(&self, res: &IORes<FD>) -> (why: Option<FatalErr>)
        requires
            self.wf(),
        ensures
            why == self@.refusal(*res),
    {
        match res {
            IORes::Create(_, token) => {
                match self.rsn.get(token.name_idx()) {
                    None => Some(FatalErr::NotPending),
                    Some(name) => {
                        if self.streams.contains(name) {
                            Some(FatalErr::DirectoryConflict)
                        } else {
                            None
                        }
                    },
                }
            },
            _ => Some(FatalErr::UnimplementedOperation),
        }
    }

    /// Takes the completion of a create: frees the slot that the token
    /// names, lists the slot's name in the directory with the handle `fd`,
    /// and returns what the user is to be told. The slot is freed before the
    /// directory is touched.
    pub fn complete_create(&mut self, fd: FD, token: Create) -> (usr_res: URes<'a>)
        requires
            old(self).wf(),
            old(self)@.accepts(IORes::Create(fd, token)),
        ensures
            final(self).wf(),
            final(self)@ == old(self)@.after_receive(IORes::Create(fd, token)),
            usr_res@ == old(self)@.notice(IORes::Create(fd, token)),
    {
        let name = self.rsn.remove(token.name_idx());
        let listed = self.streams.insert(name, fd);
        assert(listed is Ok);
        URes::StreamCreated { name }
    }

    /// Takes a response from the substrate and tells `usr_ctx` what came of
    /// it: one change to the directory and one notice per completion. The
    /// response must be one that the database accepts; `try_receive_io`
    /// finds that out by itself.
    pub fn receive_io(&mut self, res: IORes<FD>, usr_ctx: &mut impl UserCtx)
        requires
            old(self).wf(),
            old(self)@.accepts(res),
        ensures
            final(self).wf(),
            final(self)@ == old(self)@.after_receive(res),
            told(*old(usr_ctx), *final(usr_ctx), old(self)@.notice(res)),
    {
        match res {
            IORes::Create(fd, token) => {
                let usr_res = self.complete_create(fd, token);
                usr_ctx.send(usr_res);
            },
            _ => {
                assert(false);
            },
        }
    }

    /// Takes a response from the substrate if it can be taken, as
    /// `receive_io` does. A response that cannot be taken is refused with
    /// the reason; the database and `usr_ctx` then stay as they were.
    pub fn try_receive_io(&mut self, res: IORes<FD>, usr_ctx: &mut impl UserCtx) -> (r: Result<
        (),
        FatalErr,
    >)
        requires
            old(self).wf(),
        ensures
            final(self).wf(),
            match r {
                Ok(_) => old(self)@.accepts(res) && final(self)@ == old(self)@.after_receive(res)
                    && told(*old(usr_ctx), *final(usr_ctx), old(self)@.notice(res)),
                Err(why) => old(self)@.refusal(res) == Some(why) && *final(self) == *old(self)
                    && *final(usr_ctx) == *old(usr_ctx),
            },
    {
        match self.refusal(&res) {
            Some(why) => Err(why),
            None => {
                self.receive_io(res, usr_ctx);
                Ok(())
            },
        }
    }

    /// The name that waits in slot `index`, if any does.
    pub fn pending_name(&self, index: u8) -> (name: Option<&'a [u8]>)
        ensures
            name is Some == self@.pending.dom().contains(index as int),
            name matches Some(n) ==> n@ == self@.pending[index as int],
    {
        self.rsn.get(index)
    }

    /// Whether `name` waits for its completion.
    pub fn is_pending(&self, name: &[u8]) -> (pending: bool)
        ensures
            pending == holds_name(self@.pending, name@),
    {
        self.rsn.contains(name)
    }

    /// The handle of the stream `name`, if it exists.
    pub fn stream(&self, name: &[u8]) -> (handle: Option<&FD>)
        requires
            self.wf(),
        ensures
            handle is Some == self@.streams.dom().contains(name@),
            handle matches Some(fd) ==> *fd == self@.streams[name@],
    {
        self.streams.get(name)
    }

    /// The number of streams that exist.
    pub fn stream_count(&self) -> (n: usize)
        requires
            self.wf(),
        ensures
            self@.streams.dom().finite(),
            n == self@.streams.dom().len(),
    {
        self.streams.len()
    }
}

} // verus!
