//! The choices that make up a scheme.

use vstd::prelude::*;

verus! {

/// Authenticated encryption with ChaCha20 and Poly1305.
#[derive(Default, Debug, Clone, Copy)]
pub struct ChaCha20Poly1305;

/// The hash function SHA3-256.
#[derive(Default, Debug, Clone, Copy)]
pub struct Sha3_256;

/// Key derivation by HKDF.
#[derive(Default, Debug, Clone, Copy)]
pub struct Hkdf;

/// Transport over TCP.
#[derive(Default, Debug, Clone, Copy)]
pub struct Tcp;

/// What a scheme does without.
#[derive(Default, Debug, Clone, Copy)]
pub struct No;

/// Arithmetic over Curve25519.
#[derive(Default, Debug, Clone, Copy)]
pub struct Curve25519;

/// Serialization in BCS.
#[derive(Default, Debug, Clone, Copy)]
pub struct Bcs;

/// Framing by a length in 4 big-endian bytes.
#[derive(Default, Debug, Clone, Copy)]
pub struct U32BigEndian;

} // verus!
