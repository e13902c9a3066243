//! Protection and fault-handling core of a small x86_64 kernel: descriptor
//! tables, interrupt gates, the legacy interrupt controller, exception
//! policy and the page-table mapper, together with the console-side
//! collaborators that sit on top of them.

pub mod exceptions;
pub mod gdt;
pub mod history;
pub mod interrupts;
pub mod keyboard;
pub mod paging;
pub mod parser;
pub mod serial;
pub mod shell;
pub mod simple_string;
pub mod time;
pub mod vga_buffer;
