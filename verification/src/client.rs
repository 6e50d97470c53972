//! The client side: reconciliation of out-of-order snapshots and
//! interpolation between the two most recent ones.

pub mod reconciler;
