//! What can go wrong: in talking to the store, and in validating a token.

use vstd::prelude::*;
use vstd::string::*;

verus! {

/// What went wrong between the registry and its store.
#[derive(Clone, Debug, PartialEq, Eq)]
pub enum RegistryError {
    /// The store could not be reached or failed; the text says how.
    StoreUnavailable(String),
    /// The store holds no such object.
    NotFound,
}

/// The kinds of failure that the key store client tells apart.
#[derive(Clone, Copy, Debug, PartialEq, Eq)]
pub enum JwksErrorType {
    /// The token is not of the form header, payload, signature, or will not decode.
    Invalid,
    /// The token has expired.
    Expired,
    /// The token is not yet to be used.
    Early,
    /// The certificate is at fault.
    Certificate,
    /// The key is at fault, or there is none of that id.
    Key,
    /// The key set could not be fetched.
    Connection,
    /// The header of the token is at fault.
    Header,
    /// The payload of the token is at fault.
    Payload,
    /// The signature of the token is at fault.
    Signature,
    /// Something inside the client failed.
    Internal,
}

/// A failure of the key store client: in fetching keys, in checking a signature, or in
/// decoding a token.
#[derive(Clone, Debug, PartialEq, Eq)]
pub struct JwksError {
    /// What the client said of the failure.
    pub msg: String,
    /// The kind of the failure.
    pub typ: JwksErrorType,
}

/// Why a token was not accepted.
#[derive(Clone, Debug, PartialEq, Eq)]
pub enum TokenError {
    /// The claims of the token say that its time is over, or the key store client found
    /// it so.
    TokenExpired,
    /// The token is used before its time. Validation as it stands checks the expiry
    /// only and never gives this reason.
    TokenEarly,
    /// The keys could not be had, the signature does not hold, or the claims are not
    /// what they must be.
    JwksError(JwksError),
}

impl TokenError {
    /// The text that `to_string` gives for this error.
    pub open spec fn message(&self) -> Seq<char> {
        match self {
            TokenError::TokenExpired => "token expired"@,
            TokenError::TokenEarly => "token used early"@,
            TokenError::JwksError(e) => "failed to verify token: "@ + e.msg@,
        }
    }

    /// The error in words.
    pub fn to_string(&self) -> (text: String)
        ensures
            text@ == self.message(),
    {
        match self {
            TokenError::TokenExpired => String::from_str("token expired"),
            TokenError::TokenEarly => String::from_str("token used early"),
            TokenError::JwksError(e) => {
                let mut text = String::from_str("failed to verify token: ");
                text.append(e.msg.as_str());
                text
            },
        }
    }
}

} // verus!
