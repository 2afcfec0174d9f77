//! Two-party semi-honest ECDSA signing over secp256k1: verified scalar
//! arithmetic modulo the group order, a 1-of-256 oblivious transfer, an
//! OT-based multiplicative-to-additive share conversion and the signing
//! protocol that composes them.
pub mod scalars;
pub mod curve;
pub mod ot;
pub mod mult;
pub mod twopc;
pub mod session;
