//! Shared spectrum store: the single-slot hand-off between the
//! capture side and the render side.
//!
//! The slot carries one whole spectrum frame at a time with
//! "replace, don't queue" semantics: publishing overwrites whatever
//! frame was pending, taking empties the slot.  Because a frame is
//! moved in and out as one value, a reader can never observe a
//! mixture of two frames — the contracts below pin the slot content
//! to exactly the last published frame.  Mutual exclusion around the
//! slot is the embedding program's concern (a lock held only for the
//! constant-time swap); the reader's try-once/skip policy keeps the
//! capture side from ever queueing behind the renderer.

use vstd::prelude::*;

verus! {

/// One complex spectrum bin in Q16.16: real and imaginary parts.
pub type SpectrumBin = (i64, i64);

/// Single-slot channel holding the most recent spectrum frame.
pub struct SpectrumStore {
    slot: Option<Vec<SpectrumBin>>,
}

impl SpectrumStore {
    /// The pending frame, if any.
    pub closed spec fn slot_spec(self) -> Option<Seq<SpectrumBin>> {
        match self.slot {
            Some(v) => Some(v@),
            None => None,
        }
    }

    /// An empty store with no pending frame.
    pub fn new() -> (r: SpectrumStore)
        ensures
            r.slot_spec() is None,
    {
        SpectrumStore { slot: None }
    }

    /// Writer side: replace the pending frame with `frame`, whole.
    /// A frame the reader never took is dropped, never queued.
    pub fn publish(&mut self, frame: Vec<SpectrumBin>)
        ensures
            final(self).slot_spec() == Some(frame@),
    {
        self.slot = Some(frame);
    }

    /// Reader side: take the pending frame, if one is there, leaving
    /// the slot empty.  The frame comes out exactly as published.
    pub fn take(&mut self) -> (r: Option<Vec<SpectrumBin>>)
        ensures
            final(self).slot_spec() is None,
            match r {
                Some(v) => old(self).slot_spec() == Some(v@),
                None => old(self).slot_spec() is None,
            },
    {
        self.slot.take()
    }

    /// Whether a frame is pending.
    pub fn has_frame(&self) -> (r: bool)
        ensures
            r <==> self.slot_spec() is Some,
    {
        self.slot.is_some()
    }
}

} // verus!
