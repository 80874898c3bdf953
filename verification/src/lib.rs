//! Building blocks for a disassembler's symbol viewer: a bounded in-place
//! sequence with a tracked logical length, a byte cursor for hand-written
//! scanners, and a simplifier that rewrites fully-qualified type paths into
//! shorter, human-readable names.

pub mod decode;
pub mod replace;
pub mod tokens;
