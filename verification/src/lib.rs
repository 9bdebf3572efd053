//! Compiled semantic model of the Pure language: element identities,
//! multiplicities and type expressions, the class hierarchy queries the
//! resolver relies on, milestoning (temporal stereotype) helpers, and the
//! `.purem` snapshot header.

pub mod ids;
pub mod types;
pub mod multiplicity;
pub mod expr;
pub mod generics;
pub mod nodes;
pub mod model;
pub mod resolve;
pub mod hierarchy;
pub mod lowering;
pub mod milestoning;
pub mod purem;
pub mod pipeline;
pub mod refs;
