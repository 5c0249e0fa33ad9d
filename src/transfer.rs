//! Interfaces of the transfer protocol whose circuits the ceremony
//! processes. The ceremony treats those circuits opaquely: these are the
//! named capabilities that the protocol's configurations provide.

use vstd::prelude::*;

verus! {

/// Has a spending key type.
pub trait SpendingKeyType {
    type SpendingKey;
}

/// Has an authority type.
pub trait AuthorityType {
    type Authority;
}

/// Has an authorization type.
pub trait AuthorizationType {
    type Authorization;
}

/// Has an asset type.
pub trait AssetType {
    type Asset;
}

/// Has an unspent-output type.
pub trait UtxoType {
    type Utxo;
}

/// Has a note type.
pub trait NoteType {
    type Note;
}

/// Has a note identifier type.
pub trait IdentifierType {
    type Identifier;
}

/// Has an address type.
pub trait AddressType {
    type Address;
}

/// An authority together with the authorization it produced.
pub struct AuthorizationProof<T: AuthorityType + AuthorizationType> {
    pub authority: T::Authority,
    pub authorization: T::Authorization,
}

/// Produces authorization proofs from spending keys.
pub trait SpendAuthorize: AuthorityType + AuthorizationType + SpendingKeyType + Sized {
    /// Generates an authorization proof for `spending_key`.
    fn generate<R>(
        &self,
        spending_key: &Self::SpendingKey,
        rng: &mut R,
    ) -> AuthorizationProof<Self>;
}

/// Asserts that an authority produces an authorization, in a compiler `COM`.
pub trait Authorize<COM>: AuthorityType + AuthorizationType {
    /// Asserts that `authority` produces `authorization`.
    fn assert_authorized(&self, authority: &Self::Authority, authorization: &Self::Authorization, compiler: &mut COM);
}

/// Checks authorizations against a verifying key.
pub trait VerifyAuthorization: AuthorizationType {
    type VerifyingKey;

    /// Whether `authorization` is well formed under `verifying_key`.
    fn verify_authorization(
        &self,
        verifying_key: &Self::VerifyingKey,
        authorization: &Self::Authorization,
    ) -> bool;
}

/// Opens notes.
pub trait NoteOpen: AssetType + NoteType + IdentifierType {
    type DecryptionKey;

    /// Opens `note` with `decryption_key` into its identifier and asset.
    fn open(
        &self,
        decryption_key: &Self::DecryptionKey,
        note: Self::Note,
    ) -> Option<(Self::Identifier, Self::Asset)>;
}

/// Mints unspent outputs and their notes, in a compiler `COM`.
pub trait Mint<COM>: AssetType + NoteType + UtxoType {
    type Secret;

    /// Derives the output and the note of `secret`.
    fn derive(&self, secret: &Self::Secret, compiler: &mut COM) -> (Self::Utxo, Self::Note);

    /// The asset in `utxo`, asserting that `secret`, `utxo` and `note` agree.
    fn well_formed_asset(
        &self,
        secret: &Self::Secret,
        utxo: &Self::Utxo,
        note: &Self::Note,
        compiler: &mut COM,
    ) -> Self::Asset;
}

impl<T: AuthorityType + AuthorizationType> AuthorizationProof<T> {
    /// Builds a proof from `authority` and `authorization`.
    pub fn new(authority: T::Authority, authorization: T::Authorization) -> (r: Self)
        ensures
            r.authority == authority,
            r.authorization == authorization,
    {
        AuthorizationProof { authority, authorization }
    }

    /// Asserts, with `authorization_scheme`, that the proof's authority
    /// produces its authorization.
    pub fn assert_valid<COM>(&self, authorization_scheme: &T, compiler: &mut COM) where T: Authorize<COM> {
        authorization_scheme.assert_authorized(&self.authority, &self.authorization, compiler)
    }
}

} // verus!
