//! Uniform random sampling and shuffling over sequences.
//!
//! Three algorithm families share one bounded-index primitive: a single-pass
//! reservoir sampler of size one, a reservoir sampler of size `n`, and an
//! in-place Fisher-Yates shuffle together with uniform element picks from an
//! indexable sequence. Randomness comes from a caller-supplied generator.

mod indexed;
mod rng;
mod sequence;
mod stream;

pub use indexed::choose_from_slice;
pub use indexed::choose_from_slice_mut;
pub use indexed::shuffle;
pub use rng::rand_index;
pub use stream::choose_n;
pub use stream::choose_n_fill;
pub use stream::choose_one;
pub use stream::chosen_from;
pub use stream::lemma_chosen_from_distinct;
pub use stream::selection_indices;
pub use sequence::Hint;
pub use sequence::Sequence;
pub use sequence::VecSequence;
