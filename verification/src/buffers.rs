//! Index-based handle table for buffers whose ownership crosses the
//! boundary.
//!
//! Every buffer handed to the host is registered here and stays valid
//! until it is released with its handle and exact length. A release
//! succeeds exactly once per allocation: handles are never reused, a
//! second release of the same handle fails, and a release with the wrong
//! length fails and changes nothing. The thin pointer/length marshaling
//! at the literal boundary sits outside this crate and maps pointers to
//! these handles.

use vstd::prelude::*;

verus! {

/// Registry of live boundary buffers, indexed by handle.
pub struct BufferTable {
    slots: Vec<Option<Vec<u8>>>,
}

impl View for BufferTable {
    type V = Seq<Option<Seq<u8>>>;

    closed spec fn view(&self) -> Seq<Option<Seq<u8>>> {
        self.slots@.map_values(
            |s: Option<Vec<u8>>|
                match s {
                    None => None,
                    Some(v) => Some(v@),
                },
        )
    }
}

impl BufferTable {
    /// Whether handle `h` refers to a buffer that is still owed a
    /// release.
    pub open spec fn is_live(&self, h: int) -> bool {
        0 <= h < self@.len() && self@[h] is Some
    }

    /// Creates an empty table.
    pub fn new() -> (t: BufferTable)
        ensures
            t@ == Seq::<Option<Seq<u8>>>::empty(),
    {
        let t = BufferTable { slots: Vec::new() };
        proof {
            assert(t@ =~= Seq::<Option<Seq<u8>>>::empty());
        }
        t
    }

    /// Registers a buffer and returns its fresh handle; handles are
    /// never reused.
    pub fn register(&mut self, buf: Vec<u8>) -> (h: usize)
        ensures
            h == old(self)@.len(),
            final(self)@ == old(self)@.push(Some(buf@)),
            final(self).is_live(h as int),
    {
        let ghost bv = buf@;
        let h = self.slots.len();
        self.slots.push(Some(buf));
        proof {
            assert(self@ =~~= old(self)@.push(Some(bv)));
        }
        h
    }

    /// The buffer behind a live handle, or `None` for a handle that was
    /// never issued or was already released.
    pub fn get(&self, h: usize) -> (r: Option<&Vec<u8>>)
        ensures
            self.is_live(h as int) ==> (r matches Some(b) && self@[h as int] == Some(b@)),
            !self.is_live(h as int) ==> r is None,
    {
        if h < self.slots.len() {
            match &self.slots[h] {
                Some(b) => Some(b),
                None => None,
            }
        } else {
            None
        }
    }

    /// Releases the buffer behind `h`, which must be live and of exactly
    /// the given length. Succeeds exactly once per allocation: afterwards
    /// the handle is dead and a second release fails. On failure nothing
    /// changes.
    pub fn free(&mut self, h: usize, len: usize) -> (r: Result<(), &'static str>)
        ensures
            (r is Ok) == (old(self).is_live(h as int) && (old(self)@[h as int] matches Some(b)
                && b.len() == len)),
            r is Ok ==> final(self)@ == old(self)@.update(h as int, None),
            r is Err ==> final(self)@ == old(self)@,
    {
        if h >= self.slots.len() {
            return Err("no such buffer handle");
        }
        let matching = match &self.slots[h] {
            Some(b) => b.len() == len,
            None => false,
        };
        if !matching {
            return Err("buffer already released or length mismatch");
        }
        self.slots[h] = None;
        proof {
            assert(self@ =~~= old(self)@.update(h as int, None));
        }
        Ok(())
    }
}

} // verus!
