//! Verified core of a single-wire bus master and its polling loop: the
//! debouncer of the sampled line, the search that enumerates the devices on
//! the bus, and the bookkeeping of the periodic task that drives both.

pub mod address;
pub mod bus;
pub mod crc;
pub mod debounce;
pub mod error;
pub mod poll;
pub mod scheduler;
pub mod search;
