//! A breakpoint-aware debugger core for x86-64 Linux processes: word-level
//! memory patching, a breakpoint table, the controller's transitions and
//! frame-pointer unwinding, together with a small singly linked list.

pub mod breakpoints;
pub mod command;
pub mod debugger;
pub mod inferior;
pub mod linked_list;
pub mod location;
pub mod memory;
