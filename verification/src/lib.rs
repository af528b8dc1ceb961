//! Coordination core of a peer-to-peer download client: the content catalog,
//! per-peer availability, the table of claimed pieces, piece selection and
//! piece verification, with every function proved against its contract.

pub mod bitfield;
pub mod claims;
pub mod integrity;
pub mod metadata;
pub mod pieces;
pub mod stackvec;
pub mod supervisor;
