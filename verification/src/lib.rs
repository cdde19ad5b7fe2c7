//! Batched value transfers across many signing identities.
//!
//! The crate holds the rules of two operations. A *disperse* sends value
//! from one sender to many recipients through a single call to a
//! multi-recipient contract; the crate builds the payload of that call byte
//! by byte. A *collect* gathers value from many senders at one destination;
//! the crate validates the request, turns relative shares into absolute
//! amounts, decides the shape of every transfer, and folds the outcomes of the
//! independent submissions into one batch result.
//!
//! Nothing here talks to a network. Callers perform the submissions and hand
//! the results back as plain values.

pub mod address;
pub mod amount;
pub mod collect;
pub mod decimal;
pub mod dispatch;
pub mod disperse;
pub mod encoder;
pub mod hexadecimal;
pub mod percent;
