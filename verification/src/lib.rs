//! A fixed-capacity circular buffer, split into small capability interfaces —
//! a base capability, bounded writing, bounded reading, and an extended
//! capability with random access and overwrite pushes — over one shared,
//! verified masked-indexing discipline, with a heap-allocated backend.
mod alloc_buffer;
mod iter;
mod mask;
mod model;
mod ringbuffer_trait;

pub use alloc_buffer::{AllocRingBuffer, ALLOC_RINGBUFFER_DEFAULT_CAPACITY};
pub use iter::{RingBufferIterator, RingBufferMutIterator};
pub use mask::{
    lemma_slot_decompose, lemma_slot_in_range, lemma_slot_injective, lemma_slot_shift,
    lemma_slot_small, masked_slot, slot,
};
pub use model::{
    force_all, force_model, lemma_fifo, lemma_force_all_keeps_latest, lemma_overwrite,
    lemma_push_all_fits, lemma_round_trip, push_all, push_model,
};
pub use ringbuffer_trait::{
    PushValue, ReadWriteRingbuffer, ReadableRingbuffer, RingBuffer, RingBufferExt,
    WritableRingbuffer,
};
