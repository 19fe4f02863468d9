//! The reactive state layer of a to-do list view.
//!
//! * [`runtime`]: the dependency graph between signals and the computations
//!   that read them, with tracked runs and exact dependencies.
//! * [`signal`]: mutable cells whose reads are tracked and whose writes name
//!   every dependent.
//! * [`resource`]: values loaded asynchronously for a tracked input, guarded
//!   against completions that arrive out of order.
//! * [`record`]: the records of the list and the tally of those left to do.
//! * [`item`]: the state of one item and the protocol of its toggle.
//! * [`page`]: the list resource, the items made from it and the tally they
//!   share.
//! * [`clicks`]: the click counter and the value derived from it.
//! * [`display`], [`decimal`], [`remote`]: what the view shows of the state,
//!   and the addresses of the remote source.
//!
//! The library performs no input or output.  Where a fetch or a remote call
//! is due, it hands out a request; the caller carries it out and reports how
//! it ended.  Where observers are to run again, it returns their numbers, in
//! the order in which they subscribed; the caller runs them.

pub mod clicks;
pub mod decimal;
pub mod display;
pub mod item;
pub mod page;
pub mod record;
pub mod remote;
pub mod resource;
pub mod runtime;
pub mod signal;
