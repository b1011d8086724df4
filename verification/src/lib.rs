//! Cells that bind an owner to a dependent value derived from it, so that the
//! pair moves, drops and is shared as one ordinary value.
//!
//! `unsafe_self_cell` holds the eager cell, whose dependent is built when the
//! cell is; `unsafe_once_self_cell` and `once_self_cell` hold the lazy cells,
//! whose dependent is built on first access. `layout` states how a joined
//! block is laid out. `cells`, `decimal` and `benchmarks` hold two cells over
//! fixed types and workloads over many of them.

pub mod benchmarks;
pub mod cells;
pub mod decimal;
pub mod layout;
pub mod once_self_cell;
pub mod unsafe_once_self_cell;
pub mod unsafe_self_cell;
