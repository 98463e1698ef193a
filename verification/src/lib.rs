//! Kernel memory-management core: a multi-level page-table walker/mutator and
//! the supporting hardware-abstraction model.
//!
//! The crate is organised leaves-first:
//! - [`common`] holds the error taxonomy shared with the syscall layer and the
//!   alignment helper.
//! - [`hal`] models the MMU's native directory layout for a three-level,
//!   512-entry radix tree with 4 KiB base pages: entry format, per-level index
//!   extraction, per-level sizes and the kernel linear-mapping offset.
//! - [`model`] is the mathematical model: the view of a directory tree as a
//!   sequence of entry views, the walk over it, and the lemmas the public
//!   contracts rest on.
//! - [`page_table`] is the mutator itself: map/unmap of frames and
//!   intermediate directories, and the kernel-window builder.

pub mod common;
pub mod hal;
pub mod model;
pub mod page_table;
