//! Bookkeeping for popups: the hierarchy of popups below each toplevel
//! surface, the chain of explicit grabs of each seat, and the reclaiming of
//! both when surfaces die.
//!
//! The library works on plain values. [`surfaces::Surfaces`] is the table
//! of what is known of every surface; [`manager::PopupManager`] is the
//! registry that the rest of a compositor talks to. What the registry
//! decides to send to clients it records as [`protocol::ClientEvent`]s,
//! which the caller takes and delivers.
//!
//! Every executable function is verified against a mathematical model:
//! [`model`] for the hierarchy, [`grab::ChainModel`] for a chain of grabs
//! and [`manager::ManagerModel`] for the registry. [`tree_laws`] and
//! [`manager_laws`] hold what follows for every hierarchy and registry.

pub mod grab;
pub mod manager;
pub mod manager_laws;
pub mod model;
pub mod popup;
pub mod protocol;
pub mod surfaces;
pub mod tree;
pub mod tree_laws;
pub mod utils;
