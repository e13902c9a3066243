//! Flag bits of a page-table entry that maps a 4 KiB page.

use vstd::prelude::*;

verus! {

/// The entry refers to a frame or a child table.
pub const PRESENT: u64 = 0x1;

/// Writes through this entry are allowed.
pub const WRITABLE: u64 = 0x2;

/// Ring 3 may use this entry.
pub const USER: u64 = 0x4;

/// The entry maps a large page instead of pointing to a child table.
pub const HUGE_PAGE: u64 = 0x80;

/// Instruction fetches through this entry fault.
pub const NO_EXECUTE: u64 = 0x8000_0000_0000_0000;

} // verus!
