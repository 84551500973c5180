//! What the library promises, stated without its working definitions.
//!
//! - [`formats`] and [`artifacts`] say byte by byte what numbers, digests and
//!   artifacts are.
//! - [`reading`] says what a written plan reads as, [`lowering`] that lowering
//!   keeps every operation, and what evaluating one means.
//! - [`running`] says what steps, segments and records do, with every call
//!   written out; [`kernels`] what the kernels compute.
//! - [`admission`] says which kernels are admitted and what reaches them, and
//!   [`sessions`] what goes in, what comes out, and what is kept and shown.
pub mod admission;
pub mod artifacts;
pub mod formats;
pub mod kernels;
pub mod lowering;
pub mod reading;
pub mod running;
pub mod sessions;
