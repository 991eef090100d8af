//! The stream directory: the name and handle of every stream that exists.
//!
//! Names are looked up through a hash map with a fixed, explicitly seeded
//! hasher, so that two runs with the same seed lay the map out alike.
use vstd::prelude::*;

verus! {

/// `foldhash::fast::FixedState`, the state of a hasher with a fixed seed.
/// Verus does not look inside.
#[verifier::external_type_specification]
#[verifier::external_body]
pub struct ExFixedState(foldhash::fast::FixedState);

/// `foldhash::fast::FixedState::with_seed` builds the hasher state for a
/// seed. Nothing is claimed of the state: it is only handed on to the map.
pub assume_specification[ foldhash::fast::FixedState::with_seed ](
    per_hasher_seed: u64,
) -> foldhash::fast::FixedState
;

/// A `hashbrown::HashMap` from stream names to positions, hashed with a
/// `FixedState`. Verus does not look inside; what the map holds is
/// `index_entries`.
#[verifier::external_body]
pub struct NameIndex<'a> {
    map: hashbrown::HashMap<&'a [u8], usize, foldhash::fast::FixedState>,
}

/// The entries of a name index: each name in it, as its bytes, with the
/// position stored under it.
pub uninterp spec fn index_entries(index: NameIndex<'_>) -> Map<Seq<u8>, usize>;

/// `hashbrown::HashMap::with_hasher` returns a map without entries.
#[verifier::external_body]
fn index_with_hasher<'a>(state: foldhash::fast::FixedState) -> (index: NameIndex<'a>)
    ensures
        index_entries(index) =~= Map::empty(),
{
    NameIndex { map: hashbrown::HashMap::with_hasher(state) }
}

/// `hashbrown::HashMap::get` returns the value stored under a key that has
/// the same bytes as `name`, and `None` where the map has no such key.
#[verifier::external_body]
fn index_get(index: &NameIndex<'_>, name: &[u8]) -> (at: Option<usize>)
    ensures
        at is Some == index_entries(*index).dom().contains(name@),
        at matches Some(i) ==> i == index_entries(*index)[name@],
{
    index.map.get(name).copied()
}

/// `hashbrown::HashMap::insert` stores `at` under `name`, leaves every other
/// entry as it was, and returns the value that `name` had before, if any.
#[verifier::external_body]
fn index_insert<'a>(index: &mut NameIndex<'a>, name: &'a [u8], at: usize) -> (prev: Option<usize>)
    ensures
        index_entries(*final(index)) == index_entries(*old(index)).insert(name@, at),
        prev is Some == index_entries(*old(index)).dom().contains(name@),
        prev matches Some(i) ==> i == index_entries(*old(index))[name@],
{
    index.map.insert(name, at)
}

/// The answer of a directory that already lists the name.
#[derive(Clone, Copy, Debug, PartialEq, Eq)]
pub struct AlreadyExists;

/// The name and handle of every stream that exists. A name is listed at
/// most once, and a listed name stays listed.
pub struct StreamDirectory<'a, FD> {
    /// Where in `handles` the handle of each name lies.
    index: NameIndex<'a>,
    /// The handles, in the order in which their streams were listed.
    handles: Vec<FD>,
    /// The names, in the order in which they were listed.
    order: Ghost<Seq<Seq<u8>>>,
}

impl<'a, FD> StreamDirectory<'a, FD> {
    /// The directory as a map from each listed name to its handle.
    pub closed spec fn entries(&self) -> Map<Seq<u8>, FD> {
        Map::new(
            |name: Seq<u8>| index_entries(self.index).dom().contains(name),
            |name: Seq<u8>| self.handles@[index_entries(self.index)[name] as int],
        )
    }

    /// Every name points at a handle of its own.
    pub closed spec fn wf(&self) -> bool {
        &&& self.order@.len() == self.handles@.len()
        &&& self.order@.no_duplicates()
        &&& forall|name: Seq<u8>|
            index_entries(self.index).dom().contains(name) <==> self.order@.contains(name)
        &&& forall|i: int|
            0 <= i < self.order@.len() ==> #[trigger] index_entries(self.index)[self.order@[i]]
                == i
    }

    /// A directory without entries. The seed fixes the hash function.
    pub fn new(seed: u64) -> (dir: Self)
        ensures
            dir.wf(),
            dir.entries() == Map::<Seq<u8>, FD>::empty(),
    {
        let state = foldhash::fast::FixedState::with_seed(seed);
        let dir = StreamDirectory {
            index: index_with_hasher(state),
            handles: Vec::new(),
            order: Ghost(Seq::empty()),
        };
        assert(dir.entries() =~= Map::<Seq<u8>, FD>::empty());
        dir
    }

    /// The handle of the stream `name`, if the directory lists it.
    pub fn get(&self, name: &[u8]) -> (handle: Option<&FD>)
        requires
            self.wf(),
        ensures
            handle is Some == self.entries().dom().contains(name@),
            handle matches Some(fd) ==> *fd == self.entries()[name@],
    {
        match index_get(&self.index, name) {
            Some(at) => {
                proof {
                    assert(self.order@.contains(name@));
                    let i = choose|i: int| 0 <= i < self.order@.len() && self.order@[i] == name@;
                    assert(index_entries(self.index)[self.order@[i]] == i);
                }
                Some(&self.handles[at])
            },
            None => None,
        }
    }

    /// Whether the directory lists `name`.
    pub fn contains(&self, name: &[u8]) -> (listed: bool)
        ensures
            listed == self.entries().dom().contains(name@),
    {
        index_get(&self.index, name).is_some()
    }

    /// The number of streams that the directory lists.
    pub fn len(&self) -> (n: usize)
        requires
            self.wf(),
        ensures
            self.entries().dom().finite(),
            n == self.entries().dom().len(),
    {
        proof {
            self.order@.unique_seq_to_set();
            assert(self.entries().dom() =~= self.order@.to_set());
        }
        self.handles.len()
    }

    /// Lists `name` with `handle`. A name that is already listed is refused
    /// and the directory stays as it was.
    pub fn insert(&mut self, name: &'a [u8], handle: FD) -> (r: Result<(), AlreadyExists>)
        requires
            old(self).wf(),
        ensures
            final(self).wf(),
            r is Err == old(self).entries().dom().contains(name@),
            r is Err ==> final(self).entries() == old(self).entries(),
            r is Ok ==> final(self).entries() == old(self).entries().insert(name@, handle),
    {
        if index_get(&self.index, name).is_some() {
            return Err(AlreadyExists);
        }
        let ghost before = *self;
        let at: usize = self.handles.len();
        let prev = index_insert(&mut self.index, name, at);
        assert(prev is None);
        self.handles.push(handle);
        proof {
            self.order@ = before.order@.push(name@);
            assert forall|n: Seq<u8>|
                index_entries(self.index).dom().contains(n) <==> self.order@.contains(n) by {
                if before.order@.contains(n) {
                    let i = choose|i: int| 0 <= i < before.order@.len() && before.order@[i] == n;
                    assert(self.order@[i] == n);
                }
                if n == name@ {
                    assert(self.order@[at as int] == n);
                }
            }
            assert(!before.order@.contains(name@));
            assert(self.order@.no_duplicates()) by {
                assert forall|i: int, j: int|
                    0 <= i < self.order@.len() && 0 <= j < self.order@.len() && i
                        != j implies self.order@[i] != self.order@[j] by {
                    if i < at && j < at {
                        assert(before.order@[i] != before.order@[j]);
                    } else if i < at {
                        assert(before.order@.contains(before.order@[i]));
                    } else if j < at {
                        assert(before.order@.contains(before.order@[j]));
                    }
                }
            }
            assert forall|i: int| 0 <= i < self.order@.len() implies #[trigger] index_entries(
                self.index,
            )[self.order@[i]] == i by {
                if i < at {
                    assert(before.order@.contains(before.order@[i]));
                    assert(index_entries(before.index)[before.order@[i]] == i);
                }
            }
            assert forall|n: Seq<u8>| before.entries().dom().contains(n) implies #[trigger]
                self.entries()[n] == before.entries()[n] by {
                assert(before.order@.contains(n));
                let i = choose|i: int| 0 <= i < before.order@.len() && before.order@[i] == n;
                assert(index_entries(before.index)[before.order@[i]] == i);
            }
            assert(self.entries() =~= before.entries().insert(name@, handle));
        }
        Ok(())
    }
}

} // verus!
