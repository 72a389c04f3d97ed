//! The batching buffer: collect items until a batch is full.
//!
//! A batching stream accepts items one by one and hands out a vector of
//! `batch_size` items whenever one is complete; whatever is left when the
//! source ends comes out as one final shorter batch.

use vstd::prelude::*;

verus! {

/// The buffer of a batching stream.
pub struct BatchBuffer<T> {
    batch_size: usize,
    buffer: Vec<T>,
}

impl<T> BatchBuffer<T> {
    /// The configured batch size.
    pub closed spec fn spec_batch_size(&self) -> usize {
        self.batch_size
    }

    /// The items collected so far, in arrival order.
    pub closed spec fn spec_buffer(&self) -> Seq<T> {
        self.buffer@
    }

    /// The buffer never reaches a full batch between calls.
    pub open spec fn well_formed(&self) -> bool {
        &&& self.spec_batch_size() >= 1
        &&& self.spec_buffer().len() < self.spec_batch_size()
    }

    /// An empty buffer for batches of the given size.
    pub fn new(batch_size: usize) -> (r: Self)
        requires
            batch_size >= 1,
        ensures
            r.spec_batch_size() == batch_size,
            r.spec_buffer().len() == 0,
            r.well_formed(),
    {
        BatchBuffer { batch_size, buffer: Vec::new() }
    }

    /// Take in one item.  When it completes a batch, the whole batch comes
    /// out, in arrival order; otherwise the item is kept back.
    pub fn push(&mut self, item: T) -> (r: Option<Vec<T>>)
        requires
            old(self).well_formed(),
        ensures
            final(self).spec_batch_size() == old(self).spec_batch_size(),
            final(self).well_formed(),
            match r {
                Some(batch) => {
                    &&& batch@ == old(self).spec_buffer().push(item)
                    &&& batch@.len() == old(self).spec_batch_size()
                    &&& final(self).spec_buffer().len() == 0
                },
                None => final(self).spec_buffer() == old(self).spec_buffer().push(item),
            },
    {
        self.buffer.push(item);
        if self.buffer.len() >= self.batch_size {
            let mut full: Vec<T> = Vec::new();
            core::mem::swap(&mut full, &mut self.buffer);
            Some(full)
        } else {
            None
        }
    }

    /// The source has ended: whatever is collected comes out as one final
    /// shorter batch, or nothing when the buffer is empty.
    pub fn flush(&mut self) -> (r: Option<Vec<T>>)
        requires
            old(self).well_formed(),
        ensures
            final(self).spec_batch_size() == old(self).spec_batch_size(),
            final(self).well_formed(),
            final(self).spec_buffer().len() == 0,
            match r {
                Some(batch) => batch@ == old(self).spec_buffer() && batch@.len() > 0,
                None => old(self).spec_buffer().len() == 0,
            },
    {
        if self.buffer.len() == 0 {
            None
        } else {
            let mut rest: Vec<T> = Vec::new();
            core::mem::swap(&mut rest, &mut self.buffer);
            Some(rest)
        }
    }
}

} // verus!
