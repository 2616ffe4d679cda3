//! Protocol core of a (t, n)-threshold distributed key generation over the
//! Ed25519 prime-order group: key pairs, Pedersen blinding of public points,
//! Feldman-verifiable polynomial shares and Shamir reconstruction at zero.
pub mod group;
pub mod polynomial;
pub mod feldman;
pub mod pedersen;
pub mod keygen;
pub mod shamir;
pub mod dkg;
