//! Single-instruction translators that work on bare arguments rather than
//! on a `HandelerInputValue`.
pub mod add;
pub mod lea;
pub mod syscall;
