//! A shuffle bag: a container that hands its elements back in a
//! pseudo-random order.
//!
//! Each pushed value is paired with a freshly drawn random priority and kept
//! in a max-heap ordered by that priority; `pop` takes the pair of greatest
//! priority. Elements pushed together and then popped come out shuffled.
pub mod heap;
pub mod laws;
pub mod bag;
pub mod rng;

pub use bag::ShuffleBag;
