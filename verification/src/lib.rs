//! A single-producer / single-consumer ring buffer for plain copyable
//! items, with an edge-triggered wake-up protocol over a pair of file
//! descriptors layered on top. The ring core lives in [`ringbuf`], the
//! descriptor wiring in [`fdbuf`].

use vstd::prelude::*;

pub mod fdbuf;
pub mod ringbuf;

verus! {

/// Number of bytes a caller must allocate for a channel of `capacity`
/// elements of type `T`: the slots plus the leading counter word.
pub fn channel_bufsize<T>(capacity: usize) -> (r: usize)
    requires
        capacity * vstd::layout::size_of::<T>() + vstd::layout::size_of::<usize>() <= usize::MAX,
    ensures
        r == capacity * vstd::layout::size_of::<T>() + vstd::layout::size_of::<usize>(),
{
    ringbuf::channel_bufsize::<T>(capacity)
}

} // verus!
