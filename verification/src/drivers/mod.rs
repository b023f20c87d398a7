//! Device drivers: the decoding and bookkeeping they do between the
//! hardware and the rest of the system.

pub mod keyboard;
pub mod mouse;
pub mod rtc;
pub mod pci;
pub mod speaker;
