//! On-chain logic for a student-introduction register: users post a
//! self-introduction, may edit its message later, anyone may reply to an
//! introduction, and each successful introduction mints a fixed token reward
//! to its author.
//!
//! The crate models the host ledger as an explicit account store and verifies
//! the full state-transition engine against it: address derivation checks,
//! record encoding and decoding, account provisioning, and the lifecycle
//! rules for introductions, replies, and the reward mint.

pub mod addr;
pub mod records;
pub mod codec;
pub mod ledger;
pub mod token;
pub mod processor;
