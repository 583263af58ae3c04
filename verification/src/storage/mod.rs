//! Fixed-capacity storage.

use vstd::prelude::*;

pub mod bounded_deque;
pub mod bounded_vec;
pub mod slab;

pub use self::bounded_deque::BoundedDeque;
pub use self::bounded_vec::BoundedVec;
pub use self::slab::Slab;

verus! {

/// There is no room for another item.
#[derive(Clone, Copy, PartialEq, Eq, Structural, Debug)]
pub struct Full;

} // verus!
