//! The last step of a build: signing the finished archive.

use vstd::prelude::*;
use xcommon::Signer;
use crate::error::ApkError;

verus! {

/// `xcommon::Signer`: a private key and the certificate that goes with it.
#[verifier::external_type_specification]
#[verifier::external_body]
pub struct ExSigner(Signer);

/// What a build hands out once its archive is finished, or was not: a
/// failure to finish stays what it is; without a signer the archive goes out
/// unsigned; with a signer the build fails, as no signature scheme is
/// implemented and the signer must not be passed over in silence.
pub open spec fn signed_spec(finished: Result<Vec<u8>, ApkError>, signer: Option<Signer>) -> Result<
    Vec<u8>,
    ApkError,
> {
    match finished {
        Err(error) => Err(error),
        Ok(archive) => match signer {
            Some(_) => Err(ApkError::Sign),
            None => Ok(archive),
        },
    }
}

/// Decides what a build hands out, given how finishing its archive went.
#[verifier::when_used_as_spec(signed_spec)]
pub fn signed(finished: Result<Vec<u8>, ApkError>, signer: Option<Signer>) -> (r: Result<
    Vec<u8>,
    ApkError,
>)
    ensures
        r == signed_spec(finished, signer),
{
    match finished {
        Err(error) => Err(error),
        Ok(archive) => match signer {
            Some(_) => Err(ApkError::Sign),
            None => Ok(archive),
        },
    }
}

} // verus!
