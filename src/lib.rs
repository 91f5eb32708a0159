//! Dense containers that hand out stable handles.
//!
//! `FastContainer` keeps its elements contiguous and addresses them through
//! reusable slot numbers; `StableIndexVec` builds on it and tags every handle
//! with a per-slot generation so that a handle outlived by its element is
//! rejected instead of aliasing whatever later reuses the slot.
pub mod fast;
pub mod stable;

pub use fast::FastContainer;
pub use stable::{Iter, Keys, SIVKey, StableIndexVec, Values};
