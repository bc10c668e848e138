//! Shared, reference-counted strings that can be sliced and split without
//! copying the underlying bytes.
//!
//! A [`SharedGenString`] is a handle to an immutable, reference-counted byte
//! buffer of valid UTF-8 together with an active range into it. Slicing and
//! splitting hand out further views of the same buffer in O(1); converting a
//! view back to owned storage copies only when the buffer is still shared.
//! The sharing policy is chosen at the type level: [`SharedString`] counts
//! references without atomics and stays on one thread, [`SharedSyncString`]
//! counts atomically and may cross threads.

pub mod as_range;
pub mod as_range_inclusive;
pub mod buffer;
pub mod encoding;
pub mod iter;
pub mod laws;
pub mod shared;

pub use as_range::AsRange;
pub use as_range_inclusive::AsRangeInclusive;
pub use buffer::ArcBytes;
pub use buffer::RcBytes;
pub use buffer::SharedBytes;
pub use iter::Lines;
pub use iter::Split;
pub use shared::FromUtf8Error;
pub use shared::SharedGenString;
pub use shared::SharedString;
pub use shared::SharedSyncString;
