//! Validation-and-notification pipeline: a tabular-record codec with
//! multi-error accumulation, a business-rule validator, a deterministic
//! multi-part message composer, and the workflow state machine that ties
//! them together.  Object-store and mail-transport I/O are left to the
//! embedding program; everything here is pure and verified.

pub mod codec;
pub mod datetime;
pub mod dispatch;
pub mod email;
pub mod encoding;
pub mod text;
pub mod validate;
