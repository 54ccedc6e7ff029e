//! Settlement and lifecycle core of a small application marketplace.
//!
//! Two components share a numeric application identifier:
//!
//! - an app lifecycle registry (submission, admin review, developer
//!   mutation, deactivation, discovery queries), and
//! - a payment settlement ledger (pricing, revenue-split purchases,
//!   recurring billing with idempotent payment tracking).
//!
//! Both are written against an environment that supplies the
//! authenticated caller identity with every call and that executes the
//! token transfers an operation requests. Every operation validates and
//! commits its local state strictly before any transfer is handed out,
//! so a failed transfer can be rolled back by discarding the whole
//! operation's effects.

pub mod validate;
pub mod roster;
pub mod assoc;
pub mod registry;
pub mod ledger;
