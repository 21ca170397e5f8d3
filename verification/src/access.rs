//! Access to one artifact: which object to ask the store for, and what its answer
//! means.

use vstd::prelude::*;
use vstd::string::*;

use crate::catalog::{distribution_name, lemma_artifacts_under_prefix, listed_name, under_prefix};
use crate::error::RegistryError;
use crate::key::{head_ends_at, head_of, lemma_head_len_is, SEPARATOR};

verus! {

/// The key under which the store holds `artifact` of `distribution`.
pub open spec fn object_key(distribution: Seq<char>, artifact: Seq<char>) -> Seq<char> {
    distribution.push(SEPARATOR) + artifact
}

/// What the store answered to the request for one object. `S` is the handle of the
/// object's content, which is passed on untouched.
pub enum StoreReply<S> {
    /// The store has the object.
    Object { body: Option<S> },
    /// The store has no object of that key.
    NoSuchKey,
    /// The store answered with a status that its client could not read; the text says
    /// what came.
    Unknown { status: u16, cause: String },
    /// The store could not be reached or failed; the text says how.
    Failure(String),
}

/// The status with which a store answers for an object that it does not have.
pub const NOT_FOUND: u16 = 404;

/// What `resolve` says of an object that came without content.
pub open spec fn no_content() -> Seq<char> {
    "the store sent an object without content"@
}

/// The key to ask the store for. A pair with an empty part names no object: it is not
/// found, and the store is not asked.
pub fn artifact_key(distribution: &str, artifact: &str) -> (key: Result<String, RegistryError>)
    ensures
        match key {
            Ok(k) => distribution@.len() > 0 && artifact@.len() > 0 && k@ == object_key(
                distribution@,
                artifact@,
            ),
            Err(e) => (distribution@.len() == 0 || artifact@.len() == 0) && e
                == RegistryError::NotFound,
        },
{
    if distribution.is_empty() || artifact.is_empty() {
        return Err(RegistryError::NotFound);
    }
    let mut key = String::from_str(distribution);
    key.append("/");
    key.append(artifact);
    proof {
        reveal_strlit("/");
        assert("/"@ =~= seq![SEPARATOR]);
        assert(distribution@ + seq![SEPARATOR] =~= distribution@.push(SEPARATOR));
    }
    Ok(key)
}

/// Turns the store's answer into the handle of the content, or into the reason why
/// there is none. An object that the store does not have is not found, also where the
/// store said so by the status alone; every other failure is the store's.
pub fn resolve<S>(reply: StoreReply<S>) -> (handle: Result<S, RegistryError>)
    ensures
        match reply {
            StoreReply::Object { body: Some(content) } => handle == Ok::<S, RegistryError>(content),
            StoreReply::Object { body: None } => handle matches Err(
                RegistryError::StoreUnavailable(cause),
            ) && cause@ == no_content(),
            StoreReply::NoSuchKey => handle == Err::<S, RegistryError>(RegistryError::NotFound),
            StoreReply::Unknown { status, cause } => handle == Err::<S, RegistryError>(
                if status == NOT_FOUND {
                    RegistryError::NotFound
                } else {
                    RegistryError::StoreUnavailable(cause)
                },
            ),
            StoreReply::Failure(cause) => handle == Err::<S, RegistryError>(
                RegistryError::StoreUnavailable(cause),
            ),
        },
{
    match reply {
        StoreReply::Object { body } => match body {
            Some(content) => Ok(content),
            None => Err(
                RegistryError::StoreUnavailable(
                    String::from_str("the store sent an object without content"),
                ),
            ),
        },
        StoreReply::NoSuchKey => Err(RegistryError::NotFound),
        StoreReply::Unknown { status, cause } => {
            if status == NOT_FOUND {
                Err(RegistryError::NotFound)
            } else {
                Err(RegistryError::StoreUnavailable(cause))
            }
        },
        StoreReply::Failure(cause) => Err(RegistryError::StoreUnavailable(cause)),
    }
}

/// The key that is asked for is the key that the catalogs show: an artifact that the
/// catalog of a distribution lists is fetched under the key that listed it.
pub proof fn lemma_key_round_trip(distribution: Seq<char>, artifact: Seq<char>)
    requires
        distribution_name(distribution),
        artifact.len() > 0,
    ensures
        listed_name(None, object_key(distribution, artifact)) == Some(distribution),
        listed_name(Some(distribution), object_key(distribution, artifact)) == Some(artifact),
{
    let key = object_key(distribution, artifact);
    let n = distribution.len() as int;
    assert(key.subrange(0, n + 1) =~= distribution.push(SEPARATOR));
    assert(key.skip(n + 1) =~= artifact);
    assert(under_prefix(distribution, key));
    lemma_artifacts_under_prefix(distribution, key);
    assert forall|j: int| 0 <= j < n implies key[j] != SEPARATOR by {
        assert(key[j] == distribution[j]);
        assert(distribution.contains(distribution[j]));
    }
    assert(head_ends_at(key, n));
    lemma_head_len_is(key, n);
    assert(head_of(key) =~= distribution);
}

} // verus!
