//! Page-granular memory mappings: the sizes, checks and protocol steps that
//! decide how a mapping is reserved and made accessible.

pub mod mmap;
pub mod page;

pub use mmap::{AccessStep, CommitRequest, Fault, MapRequest, Mmap, Protection, ReserveStep};
pub use page::round_up_to_page_size;
