//! Progress Stream Multiplexer: the batching core that decouples a running
//! session's output rate from a consumer's display cadence. The caller owns
//! the timing; this holds the rolling window's accumulated text and decides
//! what a window emits.

use vstd::prelude::*;

verus! {

/// The chunks accumulated in the current batching window.
pub struct ChunkBatcher {
    buffer: String,
}

impl View for ChunkBatcher {
    type V = Seq<char>;

    closed spec fn view(&self) -> Seq<char> {
        self.buffer@
    }
}

impl ChunkBatcher {
    /// An empty window.
    pub fn new() -> (r: ChunkBatcher)
        ensures
            r@ == Seq::<char>::empty(),
    {
        ChunkBatcher { buffer: String::new() }
    }

    /// A chunk arrives within the window: it joins the accumulated text,
    /// in order, losing nothing.
    pub fn push_chunk(&mut self, chunk: &str)
        ensures
            final(self)@ == old(self)@ + chunk@,
    {
        self.buffer.append(chunk);
    }

    /// The window expires: a non-empty accumulation is emitted whole and
    /// the window starts over; an empty window emits nothing observable.
    pub fn take_batch(&mut self) -> (r: Option<String>)
        ensures
            final(self)@ == Seq::<char>::empty(),
            match r {
                Some(b) => b@ == old(self)@ && old(self)@.len() > 0,
                None => old(self)@.len() == 0,
            },
    {
        if self.buffer.as_str().is_empty() {
            return None;
        }
        let out = self.buffer.clone();
        self.buffer = String::new();
        Some(out)
    }
}

} // verus!
