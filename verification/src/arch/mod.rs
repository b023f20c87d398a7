//! What the kernel learns from the processor and the firmware tables.

pub mod cpu;
pub mod acpi;
pub mod pit;
