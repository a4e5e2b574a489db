//! The metaversion of a batch: two counters by which every component that
//! shares a batch sees whether it has to reload the memory behind the batch
//! or only the batch itself.

use vstd::prelude::*;

verus! {

/// What a write did to the buffers of a batch.
#[derive(Debug, Clone, Copy)]
pub struct BufferChange {
    shifted: bool,
    resized: bool,
}

impl BufferChange {
    /// Whether a buffer moved within the memory.
    pub closed spec fn shifted_spec(self) -> bool {
        self.shifted
    }

    /// Whether the memory changed its size.
    pub closed spec fn resized_spec(self) -> bool {
        self.resized
    }

    /// A change with the given effects.
    pub fn new(shifted: bool, resized: bool) -> (r: BufferChange)
        ensures
            r.shifted_spec() == shifted,
            r.resized_spec() == resized,
    {
        BufferChange { shifted, resized }
    }

    /// Whether a buffer moved within the memory.
    pub fn shifted(&self) -> (r: bool)
        ensures
            r == self.shifted_spec(),
    {
        self.shifted
    }

    /// Whether the memory changed its size.
    pub fn resized(&self) -> (r: bool)
        ensures
            r == self.resized_spec(),
    {
        self.resized
    }
}

/// The version of the memory behind a batch and of the batch itself.
#[must_use]
#[derive(Debug, Clone, Copy)]
pub struct Metaversion {
    memory: u32,
    batch: u32,
}

impl Metaversion {
    /// The version of the memory.
    pub closed spec fn memory_spec(self) -> u32 {
        self.memory
    }

    /// The version of the batch.
    pub closed spec fn batch_spec(self) -> u32 {
        self.batch
    }

    /// The metaversion that a change leaves behind: a resize renews memory
    /// and batch, a shift without a resize the batch alone.
    pub open spec fn after(self, change: BufferChange) -> (int, int) {
        if change.resized_spec() {
            (self.memory_spec() + 1, self.batch_spec() + 1)
        } else if change.shifted_spec() {
            (self.memory_spec() as int, self.batch_spec() + 1)
        } else {
            (self.memory_spec() as int, self.batch_spec() as int)
        }
    }

    /// The metaversion with the given versions.
    pub fn new(memory: u32, batch: u32) -> (r: Metaversion)
        ensures
            r.memory_spec() == memory,
            r.batch_spec() == batch,
    {
        Metaversion { memory, batch }
    }

    /// Takes over another metaversion.
    pub fn update(&mut self, new_state: &Metaversion)
        ensures
            final(self).memory_spec() == new_state.memory_spec(),
            final(self).batch_spec() == new_state.batch_spec(),
    {
        self.memory = new_state.memory;
        self.batch = new_state.batch;
    }

    /// The version of the memory.
    #[must_use]
    pub fn memory(&self) -> (r: u32)
        ensures
            r == self.memory_spec(),
    {
        self.memory
    }

    /// The version of the batch.
    #[must_use]
    pub fn batch(&self) -> (r: u32)
        ensures
            r == self.batch_spec(),
    {
        self.batch
    }

    /// Renews memory and batch.
    pub fn increment(&mut self)
        requires
            old(self).memory_spec() < u32::MAX,
            old(self).batch_spec() < u32::MAX,
        ensures
            final(self).memory_spec() == old(self).memory_spec() + 1,
            final(self).batch_spec() == old(self).batch_spec() + 1,
    {
        self.memory += 1;
        self.batch += 1;
    }

    /// Renews the batch.
    pub fn increment_batch(&mut self)
        requires
            old(self).batch_spec() < u32::MAX,
        ensures
            final(self).memory_spec() == old(self).memory_spec(),
            final(self).batch_spec() == old(self).batch_spec() + 1,
    {
        self.batch += 1;
    }

    /// Renews what a change made stale.
    pub fn increment_with(&mut self, change: &BufferChange)
        requires
            old(self).after(*change).0 <= u32::MAX,
            old(self).after(*change).1 <= u32::MAX,
        ensures
            final(self).memory_spec() == old(self).after(*change).0,
            final(self).batch_spec() == old(self).after(*change).1,
    {
        if change.resized() {
            self.increment();
        } else if change.shifted() {
            self.increment_batch();
        }
    }
}

impl Default for Metaversion {
    fn default() -> (r: Metaversion)
        ensures
            r.memory_spec() == 0,
            r.batch_spec() == 0,
    {
        Metaversion { memory: 0, batch: 0 }
    }
}

} // verus!
