//! ORACLE -- HALCYON's Lisp, and the persona the shell talks through.

pub mod value;
pub mod reader;
pub mod builtins;
pub mod eval;
pub mod persona;
