//! A bootstrap allocator for the window between memory discovery and the
//! moment the permanent allocators are ready.
//!
//! One contiguous region is served from both ends: byte allocations grow a
//! cursor upward from the base, page allocations grow a second cursor
//! downward from the top. The two cursors never cross.
//!
//! ```text
//! [ bytes in use | free space | pages in use ]
//! start      byte_cursor  page_cursor       end
//! ```

pub mod align;
pub mod early;
pub mod error;
pub mod history;
pub mod model;

pub use crate::early::EarlyAllocator;
pub use crate::error::AllocError;
