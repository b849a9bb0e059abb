//! An ordered collection of stateful elements kept in step with a data
//! sequence: elements that still have a counterpart are updated in place,
//! missing ones are created and surplus ones are destroyed.
//!
//! The callbacks that create, update and destroy elements are asynchronous
//! and owned by the caller. The library decides, one callback at a time,
//! which callback runs next and with which values, and owns the elements in
//! between; the caller awaits each callback and reports its outcome.

pub mod pairing;
pub mod plan;
pub mod adjusting;

pub use adjusting::{AdjustingVec, Adjustment, Step};
pub use plan::Kind;
