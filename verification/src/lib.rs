//! Resource-management core of a capability-based embedded OS: a bitmap
//! slot allocator with an RAII-style scoped handle, and a timer service
//! that multiplexes one hardware countdown timer among many per-client
//! software timers.

pub mod bits;
pub mod timer_service;
pub mod cspace_slot;
pub mod sdk_interface;
pub mod security_interface;
pub mod slot_allocator;
pub mod storage_interface;
pub mod vec_core;
