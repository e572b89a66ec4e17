//! Exact, loss-free accumulation of variably-sized sample chunks into
//! fixed-length inference windows.
//!
//! The accumulator appends every incoming chunk to a single growable
//! buffer and emits a window whenever `window_size` samples are available,
//! carrying the remainder forward in order. The concatenation of all
//! emitted windows followed by the retained remainder always equals the
//! concatenation of all pushed chunks: no sample is dropped or repeated.

use vstd::prelude::*;

use crate::normalize::Sample;

verus! {

/// Accumulates normalized samples and emits exactly-sized windows.
pub struct Accumulator {
    buf: Vec<Sample>,
    window_size: usize,
    /// Every sample ever pushed, in order.
    pushed: Ghost<Seq<Sample>>,
    /// The concatenation of every window ever emitted, in order.
    emitted: Ghost<Seq<Sample>>,
}

impl Accumulator {
    /// The number of samples in each emitted window.
    pub closed spec fn spec_window_size(&self) -> int {
        self.window_size as int
    }

    /// The samples currently buffered, waiting for a full window.
    pub closed spec fn remainder(&self) -> Seq<Sample> {
        self.buf@
    }

    /// Every sample ever pushed, in order.
    pub closed spec fn pushed(&self) -> Seq<Sample> {
        self.pushed@
    }

    /// The concatenation of every emitted window, in order.
    pub closed spec fn emitted(&self) -> Seq<Sample> {
        self.emitted@
    }

    /// Accumulation exactness: what went in is exactly what came out plus
    /// what is still buffered, and the buffer is always strictly smaller
    /// than one window.
    pub open spec fn wf(&self) -> bool {
        &&& self.spec_window_size() >= 1
        &&& self.remainder().len() < self.spec_window_size()
        &&& self.pushed() == self.emitted() + self.remainder()
    }

    /// Creates an empty accumulator emitting windows of `window_size`
    /// samples.
    pub fn new(window_size: usize) -> (acc: Accumulator)
        requires
            window_size >= 1,
        ensures
            acc.wf(),
            acc.spec_window_size() == window_size,
            acc.pushed() == Seq::<Sample>::empty(),
            acc.emitted() == Seq::<Sample>::empty(),
            acc.remainder() == Seq::<Sample>::empty(),
    {
        let acc = Accumulator {
            buf: Vec::new(),
            window_size,
            pushed: Ghost(Seq::empty()),
            emitted: Ghost(Seq::empty()),
        };
        proof {
            assert(acc.pushed@ =~= acc.emitted@ + acc.buf@);
        }
        acc
    }

    /// The number of samples currently buffered.
    pub fn buffered(&self) -> (n: usize)
        ensures
            n == self.remainder().len(),
    {
        self.buf.len()
    }

    /// Appends `chunk` and returns every full window that became
    /// available, in order. Each returned window holds exactly
    /// `window_size` samples, and the old buffer followed by the chunk
    /// equals the returned windows (concatenated) followed by the new
    /// buffer.
    pub fn push(&mut self, chunk: &Vec<Sample>) -> (windows: Vec<Vec<Sample>>)
        requires
            old(self).wf(),
            old(self).remainder().len() + chunk@.len() <= usize::MAX,
        ensures
            final(self).wf(),
            final(self).spec_window_size() == old(self).spec_window_size(),
            final(self).pushed() == old(self).pushed() + chunk@,
            final(self).emitted() == old(self).emitted() + windows.deep_view().flatten(),
            forall|i: int|
                0 <= i < windows@.len()
                    ==> (#[trigger] windows@[i])@.len() == old(self).spec_window_size(),
            old(self).remainder() + chunk@ == windows.deep_view().flatten()
                + final(self).remainder(),
    {
        let ghost incoming: Seq<Sample> = old(self).buf@ + chunk@;
        self.buf.extend_from_slice(chunk.as_slice());
        proof {
            self.pushed@ = self.pushed@ + chunk@;
        }
        let mut windows: Vec<Vec<Sample>> = Vec::new();
        proof {
            assert(windows.deep_view().flatten() =~= Seq::<Sample>::empty());
            assert(incoming =~= windows.deep_view().flatten() + self.buf@);
        }
        while self.buf.len() >= self.window_size
            invariant
                self.window_size >= 1,
                self.window_size == old(self).window_size,
                old(self).wf(),
                incoming == old(self).buf@ + chunk@,
                self.pushed@ == old(self).pushed@ + chunk@,
                self.emitted@ == old(self).emitted@ + windows.deep_view().flatten(),
                incoming == windows.deep_view().flatten() + self.buf@,
                forall|i: int|
                    0 <= i < windows@.len()
                        ==> (#[trigger] windows@[i])@.len() == self.window_size,
            decreases self.buf@.len(),
        {
            let ghost pre_windows = windows.deep_view();
            let mut window = self.buf.split_off(self.window_size);
            core::mem::swap(&mut self.buf, &mut window);
            let ghost w: Seq<Sample> = window@;
            windows.push(window);
            proof {
                self.emitted@ = self.emitted@ + w;
                assert(windows.deep_view() =~~= pre_windows.push(w));
                pre_windows.lemma_flatten_push(w);
                assert(incoming =~= windows.deep_view().flatten() + self.buf@);
                assert(self.emitted@ =~= old(self).emitted@ + windows.deep_view().flatten());
            }
        }
        proof {
            let flat = windows.deep_view().flatten();
            assert(self.pushed@ =~= (old(self).emitted@ + old(self).buf@) + chunk@);
            assert((old(self).emitted@ + old(self).buf@) + chunk@ =~= old(self).emitted@ + (
            old(self).buf@ + chunk@));
            assert(old(self).emitted@ + (flat + self.buf@) =~= (old(self).emitted@ + flat)
                + self.buf@);
            assert(self.pushed@ =~= self.emitted@ + self.buf@);
            assert(old(self).buf@ + chunk@ == windows.deep_view().flatten() + self.buf@);
        }
        windows
    }
}

} // verus!
