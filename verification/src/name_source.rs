//! The source of stream names for a simulation.
//!
//! Names are cut, one after the other, from a string of bytes that was made
//! beforehand. Each name is as long as a random draw says, up to a limit.
use crate::rng::random_up_to;
use rand::rngs::SmallRng;
use vstd::prelude::*;

verus! {

/// A string of bytes and how much of it has been handed out as names.
pub struct NameSource<'a> {
    /// The bytes that the names are cut from.
    bytes: &'a [u8],
    /// Where the next name starts.
    idx: usize,
    /// The longest name that is handed out.
    max_len: usize,
}

impl<'a> NameSource<'a> {
    /// The bytes that the names are cut from.
    pub closed spec fn bytes(&self) -> Seq<u8> {
        self.bytes@
    }

    /// Where the next name starts. The source is exhausted once this is the
    /// length of the bytes.
    pub closed spec fn position(&self) -> nat {
        self.idx as nat
    }

    /// The longest name that is handed out.
    pub closed spec fn max_len(&self) -> nat {
        self.max_len as nat
    }

    /// The position lies within the bytes.
    pub closed spec fn wf(&self) -> bool {
        self.idx <= self.bytes@.len()
    }

    /// The most bytes that the next name can have: what is left, up to the
    /// limit.
    pub open spec fn room(&self) -> nat {
        let left = (self.bytes().len() - self.position()) as nat;
        if left < self.max_len() {
            left
        } else {
            self.max_len()
        }
    }

    /// A source that cuts names of at most `max_len` bytes from `bytes`,
    /// starting at the front.
    pub fn new(bytes: &'a [u8], max_len: usize) -> (source: Self)
        ensures
            source.wf(),
            source.bytes() == bytes@,
            source.position() == 0,
            source.max_len() == max_len,
    {
        NameSource { bytes, idx: 0, max_len }
    }

    /// Whether every byte has been handed out.
    pub fn is_exhausted(&self) -> (exhausted: bool)
        requires
            self.wf(),
        ensures
            exhausted == (self.position() == self.bytes().len()),
    {
        self.idx >= self.bytes.len()
    }

    /// Cuts the next `len` bytes off as a name.
    pub fn take(&mut self, len: usize) -> (name: &'a [u8])
        requires
            old(self).wf(),
            len <= old(self).room(),
        ensures
            final(self).wf(),
            name@ == old(self).bytes().subrange(
                old(self).position() as int,
                old(self).position() + len,
            ),
            final(self).position() == old(self).position() + len,
            final(self).bytes() == old(self).bytes(),
            final(self).max_len() == old(self).max_len(),
    {
        let total: usize = self.bytes.len();
        assert(self.idx + len <= total);
        let end: usize = self.idx + len;
        let name = vstd::slice::slice_subrange(self.bytes, self.idx, end);
        self.idx = end;
        name
    }

    /// Cuts the next name off, of a random length within the room that is
    /// left, or says `None` once the source is exhausted. A name may be
    /// empty.
    pub fn get(&mut self, rng: &mut SmallRng) -> (name: Option<&'a [u8]>)
        requires
            old(self).wf(),
        ensures
            final(self).wf(),
            final(self).bytes() == old(self).bytes(),
            final(self).max_len() == old(self).max_len(),
            name is None == (old(self).position() == old(self).bytes().len()),
            name is None ==> final(self).position() == old(self).position(),
            name matches Some(cut) ==> cut@.len() <= old(self).room() && final(self).position()
                == old(self).position() + cut@.len() && cut@ == old(self).bytes().subrange(
                old(self).position() as int,
                final(self).position() as int,
            ),
    {
        if self.idx >= self.bytes.len() {
            return None;
        }
        let remaining: usize = self.bytes.len() - self.idx;
        let most: usize = if remaining < self.max_len {
            remaining
        } else {
            self.max_len
        };
        let len: usize = random_up_to(rng, most);
        Some(self.take(len))
    }
}

} // verus!
