//! Core of a multi-agent justification framework.
//!
//! Agents publish *messages*, agree on a common *basis*, and take *actions*
//! that must be justified by what has been agreed and stated.  The crate
//! provides the order-independent [`messages::MessageSet`], a per-agent
//! composite viewpoint over the agreed, stated and enacted stores, and the
//! audit procedure that certifies an action against such a viewpoint.

pub mod actions;
pub mod actors;
pub mod agreements;
pub mod auxillary;
pub mod collections;
pub mod iter;
pub mod messages;
pub mod policies;
pub mod runtime;
pub mod times;
