//! Signed requests.

use crate::participant::Identifier;
use vstd::prelude::*;

verus! {

/// The scheme that participants sign their requests with, over a nonce and
/// the bytes of the request's payload.
///
/// The spec function is provided so that an implementation outside verified
/// code compiles; a verified implementation defines it.
pub trait SignatureScheme {
    /// Whether `signature` signs `nonce` and `message` under `verifying_key`.
    open spec fn accepts(
        &self,
        verifying_key: Seq<u8>,
        nonce: u64,
        message: Seq<u8>,
        signature: Seq<u8>,
    ) -> bool {
        false
    }

    fn verify(
        &self,
        verifying_key: &[u8],
        nonce: u64,
        message: &[u8],
        signature: &[u8],
    ) -> (r: bool)
        ensures
            r == self.accepts(verifying_key@, nonce, message@, signature@),
    ;
}

/// The envelope of a request: who sends it, the nonce it was signed with,
/// and the signature over that nonce and the payload.
pub struct SignedMessage {
    pub identifier: Identifier,
    pub nonce: u64,
    pub signature: Vec<u8>,
}

impl SignedMessage {
    /// Builds a signed message.
    pub fn new(identifier: Identifier, nonce: u64, signature: Vec<u8>) -> (r: Self)
        ensures
            r.identifier == identifier,
            r.nonce == nonce,
            r.signature == signature,
    {
        SignedMessage { identifier, nonce, signature }
    }

    /// The sender.
    pub fn identifier(&self) -> (r: &Identifier)
        ensures
            *r == self.identifier,
    {
        &self.identifier
    }
}

} // verus!
