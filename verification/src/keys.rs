//! Keypairs and public-key derivation.
//!
//! A secret key is held as the plain scalar it stands for; the matching public
//! key is the byte encoding of the curve point that jubjub derives from it.

use vstd::prelude::*;
use group::Group;
use crate::bytes::copy_bytes;

verus! {

/// A secret spending key: exclusive to the wallet that generated it.
#[derive(Clone, Copy, PartialEq, Eq, Structural, Debug)]
pub struct SecretKey {
    pub value: u64,
}

/// A public key: the canonical 32-byte encoding of the point derived from a
/// secret key.  Freely shared for note addressing.
#[derive(Debug)]
pub struct PublicKey {
    pub repr: Vec<u8>,
}

/// A wallet keypair.
#[derive(Debug)]
pub struct Keypair {
    pub public: PublicKey,
    pub secret: SecretKey,
}

/// The byte encoding of the public point that the curve derives from a secret
/// scalar.  Left abstract: the derivation is the curve library's business.
pub uninterp spec fn public_of(secret: u64) -> Seq<u8>;

/// Relies on jubjub: `SubgroupPoint::generator() * Fr` (fixed-base scalar
/// multiplication) followed by `AffinePoint::to_bytes`, the canonical 32-byte
/// point encoding.  Both are deterministic functions of the scalar alone.
#[verifier::external_body]
fn scalar_mult_base(secret: u64) -> (r: Vec<u8>)
    ensures
        r@ == public_of(secret),
        r@.len() == 32,
{
    let point = jubjub::SubgroupPoint::generator() * jubjub::Fr::from(secret);
    let affine = jubjub::AffinePoint::from(jubjub::ExtendedPoint::from(point));
    affine.to_bytes().to_vec()
}

impl PublicKey {
    /// An independent copy of this key.
    pub fn duplicate(&self) -> (r: PublicKey)
        ensures
            r.repr@ == self.repr@,
    {
        PublicKey { repr: copy_bytes(&self.repr) }
    }

    /// Whether two keys encode the same point.
    pub fn matches(&self, other: &PublicKey) -> (r: bool)
        ensures
            r == (self.repr@ == other.repr@),
    {
        crate::bytes::eq_bytes(&self.repr, &other.repr)
    }
}

/// Derives the public key belonging to a secret key.
pub fn derive_public(secret: &SecretKey) -> (r: PublicKey)
    ensures
        r.repr@ == public_of(secret.value),
        r.repr@.len() == 32,
{
    PublicKey { repr: scalar_mult_base(secret.value) }
}

/// Builds the full keypair for a secret key.
pub fn keypair_from_secret(secret: SecretKey) -> (kp: Keypair)
    ensures
        kp.secret == secret,
        kp.public.repr@ == public_of(secret.value),
{
    Keypair { public: derive_public(&secret), secret }
}

} // verus!
