//! Backend of a just-in-time compiler: an architecture-neutral instruction
//! list, its legalization for x86-64, linear-scan register allocation and the
//! emission of machine code into a paged code buffer.

pub mod value;
pub mod encoder;
pub mod backend;
