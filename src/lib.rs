//! A call-level profiler core. Each logical context owns a table of entries,
//! one per function activation, filled from the runtime's call and return
//! events; a paused coroutine's return keeps its entry open, and a later
//! resumption is recognised rather than recorded twice.


pub mod event;
pub mod frame;
pub mod table;
pub mod registrar;
pub mod laws;
