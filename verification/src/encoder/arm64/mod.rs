//! ARM64 operands.

pub mod opnd;
