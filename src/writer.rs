//! The batch writer's buffer: raw samples accumulate here and leave in
//! batches, when the buffer reaches its threshold, on each flush tick, and
//! when the result channel closes.

use vstd::prelude::*;
use crate::sample::RawSample;

verus! {

/// Buffer size at which a batch is written at once.
pub const FLUSH_THRESHOLD: usize = 500;

/// What the writer's loop hands to the buffer.
#[derive(Clone, Copy, Debug)]
pub enum WriterEvent {
    /// A sample came in over the result channel.
    Received(RawSample),
    /// The periodic flush timer fired.
    Tick,
    /// The result channel closed: write what is left.
    Closed,
}

/// The samples an event adds to the buffer.
pub open spec fn received(ev: WriterEvent) -> Seq<RawSample> {
    match ev {
        WriterEvent::Received(s) => seq![s],
        _ => Seq::empty(),
    }
}

/// The samples a batch holds (none when nothing is written).
pub open spec fn batch_of(b: Option<Vec<RawSample>>) -> Seq<RawSample> {
    match b {
        Some(v) => v@,
        None => Seq::empty(),
    }
}

/// Samples waiting to be written, in arrival order.
pub struct BatchBuffer {
    buffer: Vec<RawSample>,
}

impl BatchBuffer {
    pub closed spec fn pending(&self) -> Seq<RawSample> {
        self.buffer@
    }

    /// The buffer never rests at or above the threshold.
    pub open spec fn wf(&self) -> bool {
        self.pending().len() < FLUSH_THRESHOLD
    }

    pub fn new() -> (r: BatchBuffer)
        ensures
            r.wf(),
            r.pending() == Seq::<RawSample>::empty(),
    {
        BatchBuffer { buffer: Vec::new() }
    }

    pub fn pending_len(&self) -> (r: usize)
        ensures
            r == self.pending().len(),
    {
        self.buffer.len()
    }

    fn take_all(&mut self) -> (r: Vec<RawSample>)
        ensures
            r@ == old(self).pending(),
            final(self).pending() == Seq::<RawSample>::empty(),
    {
        let mut batch: Vec<RawSample> = Vec::new();
        std::mem::swap(&mut batch, &mut self.buffer);
        batch
    }

    /// Takes one event and returns the batch to write, if any. A received
    /// sample joins the buffer, and the whole buffer is written once it
    /// holds the threshold; a tick or the channel's close writes whatever is
    /// buffered. Nothing is lost, duplicated or reordered: the batch followed
    /// by what stays buffered is the old buffer followed by what came in.
    pub fn handle(&mut self, ev: WriterEvent) -> (r: Option<Vec<RawSample>>)
        requires
            old(self).wf(),
        ensures
            final(self).wf(),
            batch_of(r) + final(self).pending() == old(self).pending() + received(ev),
            r matches Some(b) ==> b@.len() > 0 && final(self).pending().len() == 0,
            match ev {
                WriterEvent::Received(_) => (r is Some) == (old(self).pending().len() + 1 >= FLUSH_THRESHOLD),
                _ => (r is Some) == (old(self).pending().len() > 0),
            },
    {
        match ev {
            WriterEvent::Received(s) => {
                self.buffer.push(s);
                if self.buffer.len() >= FLUSH_THRESHOLD {
                    let b = self.take_all();
                    assert(b@ + Seq::<RawSample>::empty() =~= old(self).pending() + received(ev));
                    Some(b)
                } else {
                    assert(Seq::<RawSample>::empty() + self.pending() =~= old(self).pending() + received(ev));
                    None
                }
            },
            _ => {
                if self.buffer.len() == 0 {
                    assert(Seq::<RawSample>::empty() + self.pending() =~= old(self).pending() + received(ev));
                    None
                } else {
                    let b = self.take_all();
                    assert(b@ + Seq::<RawSample>::empty() =~= old(self).pending() + received(ev));
                    Some(b)
                }
            },
        }
    }
}

} // verus!
