//! Lifecycle tracking for kernel-attached program resources, built on an
//! order-preserving codec for fixed-width unsigned integers.
//!
//! - [`codec`] and [`uintblob`]: unsigned integers of 8 to 128 bits as
//!   big-endian byte strings of exactly their width, whose byte order is
//!   their numeric order.
//! - [`models`] and [`lifecycle`]: programs, links, maps and their
//!   associations, with the kinds and states a row may carry.
//! - [`store_model`], [`store`] and [`workflow`]: the entity store, what
//!   each of its operations does to it, and the attach operations, which
//!   take place whole or not at all. The store keeps its rows in memory;
//!   writing them to a database is the business of the program around it.
//! - [`inspect`] and [`import`]: what the tools around the store compute:
//!   how raw values of a key-value store are read and shown, and which rows
//!   an importer writes for the records of a kernel report.

mod clock;
pub mod codec;
pub mod import;
pub mod inspect;
pub mod lifecycle;
pub mod models;
pub mod relation;
pub mod store;
pub mod store_model;
pub mod text;
pub mod uintblob;
pub mod workflow;
