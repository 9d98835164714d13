//! Threshold BBS+ signing over BLS12-381. A group of signers, each holding
//! an additive share of the signing key, produce BBS+ signatures together:
//! a commit-then-reveal coin toss gives every signature its jointly random
//! `e` and `s`, zero-sharing masks each signer's key share and `r`, and the
//! signers' shares aggregate to `A = (sum R) / (sum u)`. Alongside are the
//! chunked Pedersen commitment and the Schnorr proof of knowledge that the
//! protocol builds on.

pub mod cointoss;
pub mod commitment;
pub mod error;
pub mod field;
pub mod group;
pub mod phase1;
pub mod schnorr;
pub mod setup;
pub mod signature;
pub mod sums;
pub mod zero_sharing;
