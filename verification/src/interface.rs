//! Packaging interfaces around proof production.
//!
//! `Andromeda` bundles everything one proving run needs: the common
//! reference material, the witness bundle, the expected public outputs and
//! the signing key-pair document.  The traits describe what a finished
//! proof package offers: `MarkZero` the final acceptance test, `ZeroRef` textual
//! copies of its parts.  Driving the proving engine itself is the
//! packaging layer's own step.

use vstd::prelude::*;

verus! {

/// What a finished proof package can do: check its signature and its
/// proof against the packaged reference material.
pub trait MarkZero: Sized {
    /// True when both the signature and the proof hold up.
    fn verify(self) -> bool;
}

/// Textual access to a proof package's parts.
pub trait ZeroRef {
    /// The bundled textual copy of every part.
    type C;

    /// All parts as text.
    fn copy_str(&self) -> Self::C;

    /// The proof as text.
    fn get_prf_str(&self) -> String;

    /// The public outputs as text.
    fn get_ver_str(&self) -> String;

    /// The signature as text.
    fn get_sig_str(&self) -> String;

    /// The public key as text.
    fn get_puk_str(&self) -> String;

    /// The common reference material as text.
    fn get_crs_str(&self) -> String;
}

/// One proving run's bundle: reference material, witness bundle, expected
/// public outputs and the signing key-pair document.
pub struct Andromeda<A, B> {
    pub crs: A,
    pub weights: B,
    pub compute_out: Option<Vec<usize>>,
    pub key_pair: Vec<u8>,
}

impl<A, B> Andromeda<A, B> {
    /// Bundles the four parts of a proving run.
    pub fn into(crs: A, weights: B, compute_out: Option<Vec<usize>>, key_pair: Vec<u8>) -> (r:
        Andromeda<A, B>)
        ensures
            r.crs == crs,
            r.weights == weights,
            r.compute_out == compute_out,
            r.key_pair == key_pair,
    {
        Andromeda { crs, weights, compute_out, key_pair }
    }
}

} // verus!
