//! Verified core of the SortFlow warehouse backend.
//!
//! Goods are registered on arrival at the warehouse, allocated to a free bin,
//! reported as arrived in the bin, picked, and finally reported as departed,
//! which frees the bin again. This crate holds the rules of that lifecycle,
//! an executable model of the two tables (received goods and bins) with the
//! laws that every operation keeps, the handling of good identifiers, and the
//! rendering of a good's identifier as a QR code.

pub mod error;
pub mod bins;
pub mod warehouse;
pub mod laws;
pub mod lifecycle;
pub mod ids;
pub mod qr;
pub mod panel;
