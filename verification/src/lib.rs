//! HALCYON kernel logic: the parts of the operating system that compute,
//! separated from the parts that touch hardware, and verified.

pub mod gfx;
pub mod mm;
pub mod text;
pub mod num;
pub mod boot;
pub mod fs;
pub mod input;
pub mod drivers;
pub mod arch;
pub mod oracle;
pub mod apps;
pub mod task;
