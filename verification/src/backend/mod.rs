//! The architecture-neutral instruction list and its lowering to x86-64.

pub mod ir;
pub mod regalloc;
pub mod x86_64;
