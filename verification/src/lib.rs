//! Native Machine: a bounded, CPU-native operation runtime.
//!
//! A compiler turns a plan source into fixed-width operation records and an
//! immutable artifact; the runtime validates the artifact, compiles its records
//! once into a plan of fixed capacity, and executes the plan over caller-owned
//! buffers.
//!
//! - [`artifact`] parses and validates artifacts, [`publish`] builds them.
//! - [`source`] and [`ir`] read plan sources, [`layout`] shows that their layout
//!   does not matter, [`lowering`] emits and certifies operation records.
//! - [`ops`], [`plan`], [`executor`] and [`fusion`] are the operations, the
//!   compiled plan, its execution, and why fusing changes no result.
//! - [`identity`], [`digest`] and [`cache`] address plans by their content.
//! - [`plugin`] and [`dispatch`] decide which kernels are admitted and what
//!   reaches them; [`kernels`] holds the kernels themselves.
//! - [`session`] goes from a source to an artifact and from an artifact and an
//!   input to an output.
//! - [`allocation`] and [`benchmark`] count allocations and end measurements.
//! - [`laws`] states what all of this promises without the definitions that it
//!   works with.
//!
//! Values are IEEE-754 singles as bit patterns. Their arithmetic is handed in
//! by the caller, and the contracts relate results to what it returned.
pub mod allocation;
pub mod arena;
pub mod artifact;
pub mod benchmark;
pub mod bytes;
pub mod cache;
pub mod config;
pub mod cpu;
pub mod digest;
pub mod dispatch;
pub mod executor;
pub mod fusion;
pub mod identity;
pub mod ir;
pub mod kernels;
pub mod laws;
pub mod layout;
pub mod lowering;
pub mod ops;
pub mod plan;
pub mod plugin;
pub mod publish;
pub mod session;
pub mod source;
pub mod text;
