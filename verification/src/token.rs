//! Validation of a bearer token: from the key set of a trust domain and the token to
//! the claims that can be trusted, or to the reason why none can.

use vstd::prelude::*;
use vstd::string::*;

use crate::claims::Claims;
use crate::error::{JwksError, JwksErrorType, TokenError};
use crate::text::{text_of, texts_of};
use crate::time::{utc_now, UtcInstant};

verus! {

/// The key set of a trust domain, as `jwks_client` holds it.
#[verifier::external_type_specification]
#[verifier::external_body]
pub struct ExKeyStore(jwks_client::keyset::KeyStore);

/// A decoded token of `jwks_client`.
#[verifier::external_type_specification]
#[verifier::external_body]
pub struct ExJwt(jwks_client::jwt::Jwt);

/// A failure of `jwks_client`.
#[verifier::external_type_specification]
#[verifier::external_body]
pub struct ExClientError(jwks_client::error::Error);

/// The well-known location of the signing key set that a trust domain publishes.
pub open spec fn keys_url_of(domain: Seq<char>) -> Seq<char> {
    "https://"@ + domain + "/.well-known/jwks.json"@
}

/// Builds the address from which the key set of `domain` is fetched.
pub fn auth0_keys_url(domain: &str) -> (url: String)
    ensures
        url@ == keys_url_of(domain@),
{
    let mut url = String::from_str("https://");
    url.append(domain);
    url.append("/.well-known/jwks.json");
    url
}

/// The latest time that a token may name for its expiry or its start, in seconds since
/// 1970-01-01 00:00:00 UTC: the last second of the year 9999. Every system holds times
/// up to it.
pub const MAX_TIME: u64 = 253_402_300_799;

/// The claims in the payload of a decoded token that are strings, by their names.
pub uninterp spec fn claim_strings(jwt: jwks_client::jwt::Jwt) -> Map<Seq<char>, Seq<char>>;

/// The claims in the payload of a decoded token that are numbers, by their names: of
/// each its value where it is whole and not negative, `None` where it is negative or
/// has a fraction.
pub uninterp spec fn claim_numbers(jwt: jwks_client::jwt::Jwt) -> Map<Seq<char>, Option<u64>>;

/// The claims in the payload of a decoded token that are arrays, by their names: of
/// each array its items in order, an item that is no string as `None`.
pub uninterp spec fn claim_lists(jwt: jwks_client::jwt::Jwt) -> Map<
    Seq<char>,
    Seq<Option<Seq<char>>>,
>;

/// The numbers that decoding `token` finds in its payload, as `claim_numbers` gives
/// them for the decoded token; none where the token does not decode.
pub uninterp spec fn token_numbers(token: Seq<char>) -> Map<Seq<char>, Option<u64>>;

/// The strings that decoding `token` finds in its payload, as `claim_strings` gives
/// them for the decoded token.
pub uninterp spec fn token_strings(token: Seq<char>) -> Map<Seq<char>, Seq<char>>;

/// The arrays that decoding `token` finds in its payload, as `claim_lists` gives them
/// for the decoded token.
pub uninterp spec fn token_lists(token: Seq<char>) -> Map<Seq<char>, Seq<Option<Seq<char>>>>;

/// The keys that a key store holds, in their order: of each its id, its modulus and its
/// exponent, as texts.
pub uninterp spec fn store_keys(key_store: jwks_client::keyset::KeyStore) -> Seq<
    (Seq<char>, Seq<char>, Seq<char>),
>;

/// `token` decodes, is signed by the method RS256, names a key among `keys` by its id,
/// and its signature is that of its header and payload under that key.
pub uninterp spec fn signature_holds(
    keys: Seq<(Seq<char>, Seq<char>, Seq<char>)>,
    token: Seq<char>,
) -> bool;

/// The characters of each item that is there, in the same order.
pub open spec fn item_texts(items: Seq<Option<String>>) -> Seq<Option<Seq<char>>> {
    Seq::new(items.len(), |i: int| text_of(items[i]))
}

/// The claim `name` as a whole number that is not negative, where the payload holds it
/// as one.
pub open spec fn whole_number(numbers: Map<Seq<char>, Option<u64>>, name: Seq<char>) -> Option<
    u64,
> {
    if numbers.dom().contains(name) {
        numbers[name]
    } else {
        None
    }
}

/// No claim is a number.
pub open spec fn holds_no_number(numbers: Map<Seq<char>, Option<u64>>) -> bool {
    forall|name: Seq<char>| !numbers.dom().contains(name)
}

/// The claim `name` is no number at all, or a whole number from zero to `MAX_TIME`.
pub open spec fn time_in_range(numbers: Map<Seq<char>, Option<u64>>, name: Seq<char>) -> bool {
    numbers.dom().contains(name) ==> (numbers[name] matches Some(t) && t <= MAX_TIME)
}

/// `KeyStore::decode`: takes `token` apart and decodes its header and payload, without
/// a look at the keys, the signature or the clock. What it gives depends on the text of
/// the token alone.
#[verifier::external_body]
fn decode_token(key_store: &jwks_client::keyset::KeyStore, token: &str) -> (decoded: Result<
    jwks_client::jwt::Jwt,
    jwks_client::error::Error,
>)
    ensures
        decoded matches Ok(jwt) ==> claim_strings(jwt) == token_strings(token@) && claim_numbers(
            jwt,
        ) == token_numbers(token@) && claim_lists(jwt) == token_lists(token@),
        decoded is Err ==> holds_no_number(token_numbers(token@)),
        decoded is Err ==> !signature_holds(store_keys(*key_store), token@),
{
    key_store.decode(token)
}

/// `KeyStore::verify_time` at the instant `at` seconds after the epoch: decodes
/// `token`, checks its signature against the key of the store that it names, and then
/// holds the claims `exp` and `nbf` against the instant. The client reads both claims as
/// numbers and adds them to the epoch as system times, which panics where the system
/// cannot hold the sum: so both must be no numbers or in range.
///
/// At an instant at which the token is neither expired nor early by its own claims the
/// client accepts it exactly where the signature holds, and what it hands back is the
/// token decoded. Which failure it gives else is not claimed.
#[verifier::external_body]
fn get_jwt(key_store: &jwks_client::keyset::KeyStore, token: &str, at: u64) -> (verified: Result<
    jwks_client::jwt::Jwt,
    jwks_client::error::Error,
>)
    requires
        at <= MAX_TIME,
        time_in_range(token_numbers(token@), "exp"@),
        time_in_range(token_numbers(token@), "nbf"@),
    ensures
        instant_for(
            whole_number(token_numbers(token@), "exp"@),
            whole_number(token_numbers(token@), "nbf"@),
        ) == Some(at) ==> (verified is Ok <==> signature_holds(store_keys(*key_store), token@)),
        verified matches Ok(jwt) ==> claim_strings(jwt) == token_strings(token@) && claim_numbers(
            jwt,
        ) == token_numbers(token@) && claim_lists(jwt) == token_lists(token@),
{
    let instant = std::time::SystemTime::UNIX_EPOCH + std::time::Duration::from_secs(at);
    key_store.verify_time(token, instant)
}

/// A failure of `jwks_client` as the library holds it: its field `msg`, and its field
/// `typ` variant for variant.
#[verifier::external_body]
fn client_failure(error: jwks_client::error::Error) -> JwksError {
    let typ = match error.typ {
        jwks_client::error::Type::Invalid => JwksErrorType::Invalid,
        jwks_client::error::Type::Expired => JwksErrorType::Expired,
        jwks_client::error::Type::Early => JwksErrorType::Early,
        jwks_client::error::Type::Certificate => JwksErrorType::Certificate,
        jwks_client::error::Type::Key => JwksErrorType::Key,
        jwks_client::error::Type::Connection => JwksErrorType::Connection,
        jwks_client::error::Type::Header => JwksErrorType::Header,
        jwks_client::error::Type::Payload => JwksErrorType::Payload,
        jwks_client::error::Type::Signature => JwksErrorType::Signature,
        jwks_client::error::Type::Internal => JwksErrorType::Internal,
    };
    JwksError { msg: error.msg.to_string(), typ }
}

/// `Payload::get_str` on the payload of `jwt`: looks the member `name` up in the
/// payload and gives its text where there is such a member and it is a string.
#[verifier::external_body]
fn claim_text(jwt: &jwks_client::jwt::Jwt, name: &str) -> (found: Option<String>)
    ensures
        match found {
            Some(text) => claim_strings(*jwt).dom().contains(name@) && claim_strings(*jwt)[name@]
                == text@,
            None => !claim_strings(*jwt).dom().contains(name@),
        },
{
    match jwt.payload().get_str(name) {
        Some(text) => Some(text.to_string()),
        None => None,
    }
}

/// `Payload::get_u64` on the payload of `jwt`: looks the member `name` up in the
/// payload and gives its value where there is such a member and it is a whole number
/// that is not negative.
#[verifier::external_body]
fn claim_number(jwt: &jwks_client::jwt::Jwt, name: &str) -> (found: Option<u64>)
    ensures
        found == whole_number(claim_numbers(*jwt), name@),
{
    jwt.payload().get_u64(name)
}

/// `Payload::get_f64` on the payload of `jwt`, of which only whether it gave a value is
/// handed on: it gives one where there is a member `name` and it is a number, whole or
/// not.
#[verifier::external_body]
fn is_number(jwt: &jwks_client::jwt::Jwt, name: &str) -> (numeric: bool)
    ensures
        numeric == claim_numbers(*jwt).dom().contains(name@),
{
    jwt.payload().get_f64(name).is_some()
}

/// `Payload::get_array` on the payload of `jwt`: looks the member `name` up in the
/// payload and gives its items where there is such a member and it is an array, each
/// item by `Value::as_str` as its text where it is a string.
#[verifier::external_body]
fn claim_texts(jwt: &jwks_client::jwt::Jwt, name: &str) -> (found: Option<Vec<Option<String>>>)
    ensures
        match found {
            Some(items) => claim_lists(*jwt).dom().contains(name@) && claim_lists(*jwt)[name@]
                == item_texts(items@),
            None => !claim_lists(*jwt).dom().contains(name@),
        },
{
    match jwt.payload().get_array(name) {
        Some(items) => Some(
            items.iter().map(|item| item.as_str().map(|text| text.to_string())).collect(),
        ),
        None => None,
    }
}

/// The claims of a token as they were read from its payload, each where it was there
/// and of the right type.
#[derive(Clone, Debug, PartialEq, Eq)]
pub struct ClaimFields {
    pub sub: Option<String>,
    pub iss: Option<String>,
    pub scope: Option<String>,
    pub permissions: Option<Vec<Option<String>>>,
    pub aud: Option<Vec<Option<String>>>,
    pub exp: Option<u64>,
    pub iat: Option<u64>,
}

/// Every item is there.
pub open spec fn all_present(items: Seq<Option<String>>) -> bool {
    forall|i: int| 0 <= i < items.len() ==> (#[trigger] items[i]) is Some
}

/// The characters of each item, in the same order.
pub open spec fn present_texts(items: Seq<Option<String>>) -> Seq<Seq<char>> {
    Seq::new(items.len(), |i: int| items[i]->0@)
}

/// What is said of claims that are not all there.
pub open spec fn incomplete_claims() -> Seq<char> {
    "Failed to deserialize segment"@
}

impl ClaimFields {
    /// Every claim is there, the lists hold strings only, and the times fit: the
    /// expiry can be read as an instant of UTC.
    pub open spec fn complete(&self) -> bool {
        &&& self.sub is Some
        &&& self.iss is Some
        &&& self.scope is Some
        &&& self.permissions matches Some(p) && all_present(p@)
        &&& self.aud matches Some(a) && all_present(a@)
        &&& self.exp matches Some(e) && e <= i64::MAX && e <= usize::MAX
        &&& self.iat matches Some(i) && i <= usize::MAX
    }

    /// `claims` holds what the fields hold.
    pub open spec fn agree_with(&self, claims: Claims) -> bool {
        &&& self.sub matches Some(s) && claims.sub@ == s@
        &&& self.iss matches Some(s) && claims.iss@ == s@
        &&& self.scope matches Some(s) && claims.scope@ == s@
        &&& self.permissions matches Some(p) && texts_of(claims.permissions@) == present_texts(p@)
        &&& self.aud matches Some(a) && texts_of(claims.aud@) == present_texts(a@)
        &&& self.exp matches Some(e) && claims.exp == e
        &&& self.iat matches Some(i) && claims.iat == i
    }
}

/// The items of a list, where every one is there.
pub fn present_items(items: &Vec<Option<String>>) -> (texts: Option<Vec<String>>)
    ensures
        texts is Some <==> all_present(items@),
        texts matches Some(t) ==> texts_of(t@) == present_texts(items@),
{
    let mut texts: Vec<String> = Vec::new();
    let mut i: usize = 0;
    while i < items.len()
        invariant
            i <= items.len(),
            texts@.len() == i,
            forall|j: int| 0 <= j < i ==> (#[trigger] items@[j]) is Some,
            forall|j: int| 0 <= j < i ==> (#[trigger] texts@[j])@ == items@[j]->0@,
        decreases items.len() - i,
    {
        match &items[i] {
            Some(text) => {
                texts.push(text.clone());
            },
            None => {
                return None;
            },
        }
        i += 1;
    }
    assert(texts_of(texts@) =~= present_texts(items@));
    Some(texts)
}

/// Why claims that are not all there are refused.
fn refuse_incomplete() -> (error: TokenError)
    ensures
        error matches TokenError::JwksError(e) && e.typ == JwksErrorType::Invalid && e.msg@
            == incomplete_claims(),
{
    TokenError::JwksError(
        JwksError {
            msg: String::from_str("Failed to deserialize segment"),
            typ: JwksErrorType::Invalid,
        },
    )
}

/// Makes the claims of the fields read from a payload. Fields that are not complete
/// make no claims: the token is refused as one that does not decode.
pub fn claims_from(fields: ClaimFields) -> (claims: Result<Claims, TokenError>)
    ensures
        claims is Ok <==> fields.complete(),
        claims matches Ok(c) ==> fields.agree_with(c) && c.well_formed(),
        claims matches Err(error) ==> error matches TokenError::JwksError(e) && e.typ
            == JwksErrorType::Invalid && e.msg@ == incomplete_claims(),
{
    let ClaimFields { sub, iss, scope, permissions, aud, exp, iat } = fields;
    let (sub, iss, scope) = match (sub, iss, scope) {
        (Some(sub), Some(iss), Some(scope)) => (sub, iss, scope),
        _ => {
            return Err(refuse_incomplete());
        },
    };
    let (permissions, aud) = match (permissions, aud) {
        (Some(permissions), Some(aud)) => (permissions, aud),
        _ => {
            return Err(refuse_incomplete());
        },
    };
    let (permissions, aud) = match (present_items(&permissions), present_items(&aud)) {
        (Some(permissions), Some(aud)) => (permissions, aud),
        _ => {
            return Err(refuse_incomplete());
        },
    };
    let (exp, iat) = match (exp, iat) {
        (Some(exp), Some(iat)) => (exp, iat),
        _ => {
            return Err(refuse_incomplete());
        },
    };
    if exp > i64::MAX as u64 || exp > usize::MAX as u64 || iat > usize::MAX as u64 {
        return Err(refuse_incomplete());
    }
    Ok(Claims { sub, iss, scope, permissions, aud, exp: exp as usize, iat: iat as usize })
}

/// What a failure of the key store client means for the token: a token that the
/// client found expired is expired, every other failure is a failure of keys, signature
/// or decoding and is handed on with its text and kind.
pub open spec fn refusal_of(failure: JwksError) -> TokenError {
    if failure.typ == JwksErrorType::Expired {
        TokenError::TokenExpired
    } else {
        TokenError::JwksError(failure)
    }
}

/// The failure of the key store client as a reason to refuse the token.
pub fn failure_of(failure: JwksError) -> (reason: TokenError)
    ensures
        reason == refusal_of(failure),
{
    match failure.typ {
        JwksErrorType::Expired => TokenError::TokenExpired,
        _ => TokenError::JwksError(failure),
    }
}

/// What is said of a time that is no whole number from zero to `MAX_TIME`.
pub open spec fn time_out_of_range() -> Seq<char> {
    "Time claim out of range"@
}

/// What is said of a token that names a start after its expiry.
pub open spec fn starts_after_expiry() -> Seq<char> {
    "Token starts after it expires"@
}

/// The failure with which a token is refused for its times.
pub open spec fn is_time_failure(failure: JwksError, text: Seq<char>) -> bool {
    failure.typ == JwksErrorType::Invalid && failure.msg@ == text
}

/// Reads the claim `name` as a time. A claim that is no number is no time at all and is
/// passed over. A number is a time where it is whole and from zero to `MAX_TIME`; any
/// other number is refused.
pub fn time_claim(jwt: &jwks_client::jwt::Jwt, name: &str) -> (time: Result<
    Option<u64>,
    JwksError,
>)
    ensures
        time is Ok <==> time_in_range(claim_numbers(*jwt), name@),
        time matches Ok(t) ==> t == whole_number(claim_numbers(*jwt), name@),
        time matches Ok(Some(t)) ==> t <= MAX_TIME,
        time matches Err(failure) ==> is_time_failure(failure, time_out_of_range()),
{
    if !is_number(jwt, name) {
        return Ok(None);
    }
    match claim_number(jwt, name) {
        Some(t) => {
            if t <= MAX_TIME {
                return Ok(Some(t));
            }
        },
        None => {},
    }
    Err(JwksError { msg: String::from_str("Time claim out of range"), typ: JwksErrorType::Invalid })
}

/// An instant at which a token with these times is neither expired nor early: its
/// expiry where it names one, else its start, else the epoch. There is none where the
/// start lies after the expiry.
pub open spec fn instant_for(exp: Option<u64>, nbf: Option<u64>) -> Option<u64> {
    match (exp, nbf) {
        (Some(e), Some(n)) => if n > e {
            None
        } else {
            Some(e)
        },
        (Some(e), None) => Some(e),
        (None, Some(n)) => Some(n),
        (None, None) => Some(0),
    }
}

/// Picks the instant at which the signature of a token is checked, so that the times
/// of the token decide nothing there. A token that starts after it expires is refused.
pub fn verification_instant(exp: Option<u64>, nbf: Option<u64>) -> (at: Result<u64, JwksError>)
    ensures
        match instant_for(exp, nbf) {
            Some(t) => at == Ok::<u64, JwksError>(t),
            None => at matches Err(failure) && is_time_failure(failure, starts_after_expiry()),
        },
{
    match (exp, nbf) {
        (Some(e), Some(n)) => {
            if n > e {
                Err(
                    JwksError {
                        msg: String::from_str("Token starts after it expires"),
                        typ: JwksErrorType::Invalid,
                    },
                )
            } else {
                Ok(e)
            }
        },
        (Some(e), None) => Ok(e),
        (None, Some(n)) => Ok(n),
        (None, None) => Ok(0),
    }
}

/// The times that `token` names are such that its signature can be checked: `exp` and
/// `nbf` are each no number or a time in range, and the start is not after the expiry.
pub open spec fn times_admitted(numbers: Map<Seq<char>, Option<u64>>) -> bool {
    &&& time_in_range(numbers, "exp"@)
    &&& time_in_range(numbers, "nbf"@)
    &&& instant_for(whole_number(numbers, "exp"@), whole_number(numbers, "nbf"@)) is Some
}

/// The failure with which a token is refused whose times are not admitted: for a time
/// out of range, else for a start after the expiry.
pub open spec fn is_refusal_for_times(numbers: Map<Seq<char>, Option<u64>>, failure: JwksError) -> bool {
    if time_in_range(numbers, "exp"@) && time_in_range(numbers, "nbf"@) {
        is_time_failure(failure, starts_after_expiry())
    } else {
        is_time_failure(failure, time_out_of_range())
    }
}

/// Decodes `token` and checks its signature against the keys of the store.
///
/// The token is decoded first and its times are looked at: a token whose `exp` or `nbf`
/// is a number out of range, or that starts after it expires, is refused and the
/// client is not asked. Else the client checks the signature, at an instant at which
/// the times of the token decide nothing, so that no token is refused here for the
/// time of day: the token is accepted exactly where its signature holds, and what comes
/// back is the token decoded.
pub fn verify_token(key_store: &jwks_client::keyset::KeyStore, token: &str) -> (verified: Result<
    jwks_client::jwt::Jwt,
    JwksError,
>)
    ensures
        verified is Ok <==> times_admitted(token_numbers(token@)) && signature_holds(
            store_keys(*key_store),
            token@,
        ),
        verified matches Ok(jwt) ==> claim_strings(jwt) == token_strings(token@) && claim_numbers(
            jwt,
        ) == token_numbers(token@) && claim_lists(jwt) == token_lists(token@),
        !times_admitted(token_numbers(token@)) ==> (verified matches Err(failure)
            && is_refusal_for_times(token_numbers(token@), failure)),
{
    let decoded = match decode_token(key_store, token) {
        Ok(jwt) => jwt,
        Err(error) => {
            return Err(client_failure(error));
        },
    };
    let exp = match time_claim(&decoded, "exp") {
        Ok(time) => time,
        Err(failure) => {
            return Err(failure);
        },
    };
    let nbf = match time_claim(&decoded, "nbf") {
        Ok(time) => time,
        Err(failure) => {
            return Err(failure);
        },
    };
    let at = match verification_instant(exp, nbf) {
        Ok(at) => at,
        Err(failure) => {
            return Err(failure);
        },
    };
    match get_jwt(key_store, token, at) {
        Ok(jwt) => Ok(jwt),
        Err(error) => Err(client_failure(error)),
    }
}

/// Every item is a string.
pub open spec fn all_texts(items: Seq<Option<Seq<char>>>) -> bool {
    forall|i: int| 0 <= i < items.len() ==> (#[trigger] items[i]) is Some
}

/// The items, each of which is a string, in the same order.
pub open spec fn texts_in(items: Seq<Option<Seq<char>>>) -> Seq<Seq<char>> {
    Seq::new(items.len(), |i: int| items[i]->0)
}

/// The claims hold every one that the registry reads, each of its type: `sub`, `iss`
/// and `scope` as strings, `permissions` and `aud` as arrays of strings, `exp` and `iat`
/// as whole numbers that are not negative and fit, the expiry so that it can be read as
/// an instant of UTC.
pub open spec fn claims_complete(
    strings: Map<Seq<char>, Seq<char>>,
    numbers: Map<Seq<char>, Option<u64>>,
    lists: Map<Seq<char>, Seq<Option<Seq<char>>>>,
) -> bool {
    &&& strings.dom().contains("sub"@)
    &&& strings.dom().contains("iss"@)
    &&& strings.dom().contains("scope"@)
    &&& lists.dom().contains("permissions"@)
    &&& all_texts(lists["permissions"@])
    &&& lists.dom().contains("aud"@)
    &&& all_texts(lists["aud"@])
    &&& whole_number(numbers, "exp"@) matches Some(exp) && exp <= i64::MAX && exp <= usize::MAX
    &&& whole_number(numbers, "iat"@) matches Some(iat) && iat <= usize::MAX
}

/// `claims` holds, claim by claim, what stands under its name.
pub open spec fn claims_agree(
    strings: Map<Seq<char>, Seq<char>>,
    numbers: Map<Seq<char>, Option<u64>>,
    lists: Map<Seq<char>, Seq<Option<Seq<char>>>>,
    claims: Claims,
) -> bool {
    &&& claims.sub@ == strings["sub"@]
    &&& claims.iss@ == strings["iss"@]
    &&& claims.scope@ == strings["scope"@]
    &&& texts_of(claims.permissions@) == texts_in(lists["permissions"@])
    &&& texts_of(claims.aud@) == texts_in(lists["aud"@])
    &&& whole_number(numbers, "exp"@) == Some(claims.exp as u64)
    &&& whole_number(numbers, "iat"@) == Some(claims.iat as u64)
}

/// The payload of `jwt` holds every claim that the registry reads, each of its type.
pub open spec fn payload_complete(jwt: jwks_client::jwt::Jwt) -> bool {
    claims_complete(claim_strings(jwt), claim_numbers(jwt), claim_lists(jwt))
}

/// `claims` holds, claim by claim, what the payload of `jwt` holds under its name.
pub open spec fn payload_agrees(jwt: jwks_client::jwt::Jwt, claims: Claims) -> bool {
    claims_agree(claim_strings(jwt), claim_numbers(jwt), claim_lists(jwt), claims)
}

/// The payload of `token` holds every claim that the registry reads, each of its type.
pub open spec fn token_complete(token: Seq<char>) -> bool {
    claims_complete(token_strings(token), token_numbers(token), token_lists(token))
}

/// `claims` holds, claim by claim, what the payload of `token` holds under its name.
pub open spec fn token_agrees(token: Seq<char>, claims: Claims) -> bool {
    claims_agree(token_strings(token), token_numbers(token), token_lists(token), claims)
}

/// The first two stages of validation accept `token` against `keys`: its times are
/// admitted, its signature holds, and its payload is complete. The time of day has no
/// part in it, nor has the start that the token names.
pub open spec fn token_accepted(keys: Seq<(Seq<char>, Seq<char>, Seq<char>)>, token: Seq<char>) -> bool {
    &&& times_admitted(token_numbers(token))
    &&& signature_holds(keys, token)
    &&& token_complete(token)
}

/// A list is all there where each of its items is a string, and its texts are then
/// the texts of its items.
proof fn lemma_items_as_read(items: Seq<Option<String>>)
    ensures
        all_present(items) <==> all_texts(item_texts(items)),
        all_present(items) ==> present_texts(items) == texts_in(item_texts(items)),
{
    if all_present(items) {
        assert forall|i: int| 0 <= i < item_texts(items).len() implies (#[trigger] item_texts(
            items,
        )[i]) is Some by {
            assert(items[i] is Some);
        }
        assert(present_texts(items) =~= texts_in(item_texts(items))) by {
            assert forall|i: int| 0 <= i < items.len() implies present_texts(items)[i] == texts_in(
                item_texts(items),
            )[i] by {
                assert(items[i] is Some);
            }
        }
    }
    if all_texts(item_texts(items)) {
        assert forall|i: int| 0 <= i < items.len() implies (#[trigger] items[i]) is Some by {
            assert(item_texts(items)[i] is Some);
        }
    }
}

/// Makes the claims of what the payload of a decoded token holds: each claim is read
/// under its name, and the claims are made where the payload is complete. A payload
/// that lacks a claim, or holds one of another type, makes none: the token is refused
/// as one that does not decode.
pub fn claims_of(jwt: &jwks_client::jwt::Jwt) -> (claims: Result<Claims, TokenError>)
    ensures
        claims is Ok <==> payload_complete(*jwt),
        claims matches Ok(c) ==> payload_agrees(*jwt, c) && c.well_formed(),
        claims matches Err(error) ==> error matches TokenError::JwksError(e) && e.typ
            == JwksErrorType::Invalid && e.msg@ == incomplete_claims(),
{
    let fields = ClaimFields {
        sub: claim_text(jwt, "sub"),
        iss: claim_text(jwt, "iss"),
        scope: claim_text(jwt, "scope"),
        permissions: claim_texts(jwt, "permissions"),
        aud: claim_texts(jwt, "aud"),
        exp: claim_number(jwt, "exp"),
        iat: claim_number(jwt, "iat"),
    };
    proof {
        if fields.permissions is Some {
            lemma_items_as_read(fields.permissions->0@);
        }
        if fields.aud is Some {
            lemma_items_as_read(fields.aud->0@);
        }
    }
    claims_from(fields)
}

/// The second stage of validation, from what checking the signature gave: a failure
/// refuses the token as `refusal_of` says, a token whose signature holds gives the
/// claims of its payload or is refused as incomplete.
pub fn claims_after(verified: Result<jwks_client::jwt::Jwt, JwksError>) -> (claims: Result<
    Claims,
    TokenError,
>)
    ensures
        match verified {
            Err(failure) => claims == Err::<Claims, TokenError>(refusal_of(failure)),
            Ok(jwt) => {
                &&& claims is Ok <==> payload_complete(jwt)
                &&& claims matches Ok(c) ==> payload_agrees(jwt, c) && c.well_formed()
                &&& claims matches Err(error) ==> error matches TokenError::JwksError(e) && e.typ
                    == JwksErrorType::Invalid && e.msg@ == incomplete_claims()
            },
        },
{
    match verified {
        Err(failure) => Err(failure_of(failure)),
        Ok(jwt) => claims_of(&jwt),
    }
}

/// Resolves the keys and decodes the token: the first two stages of validation.
///
/// `key_store` is what fetching the key set of the trust domain gave. Where that
/// failed, the token is refused for that failure and is not looked at. Else the token
/// is decoded, its signature is checked, and the claims are made of what its payload
/// holds: the token is accepted exactly where its times are admitted, its signature
/// holds and its payload is complete, and the claims are then those of its payload.
/// No token is refused here as used early, and none with a failure of the kind
/// `Expired`: what the client finds expired is refused as expired.
pub fn extract_jwt(key_store: Result<jwks_client::keyset::KeyStore, JwksError>, token: &str) -> (claims:
    Result<Claims, TokenError>)
    ensures
        key_store matches Err(failure) ==> claims == Err::<Claims, TokenError>(
            refusal_of(failure),
        ),
        key_store matches Ok(keys) ==> (claims is Ok <==> token_accepted(store_keys(keys), token@)),
        claims matches Ok(c) ==> token_agrees(token@, c) && c.well_formed(),
        claims matches Err(TokenError::JwksError(e)) ==> e.typ != JwksErrorType::Expired,
        !(claims matches Err(TokenError::TokenEarly)),
        key_store is Ok && !times_admitted(token_numbers(token@)) ==> (claims matches Err(
            TokenError::JwksError(e),
        ) && is_refusal_for_times(token_numbers(token@), e)),
        key_store matches Ok(keys) && times_admitted(token_numbers(token@)) && signature_holds(
            store_keys(keys),
            token@,
        ) && !token_complete(token@) ==> (claims matches Err(TokenError::JwksError(e)) && e.typ
            == JwksErrorType::Invalid && e.msg@ == incomplete_claims()),
{
    match key_store {
        Err(failure) => Err(failure_of(failure)),
        Ok(keys) => claims_after(verify_token(&keys, token)),
    }
}

/// What validation gives at `now` for what the first two stages gave: their refusal
/// as it is, `TokenExpired` for claims whose time is over, else the claims.
pub open spec fn outcome_at(extracted: Result<Claims, TokenError>, now: UtcInstant) -> Result<
    Claims,
    TokenError,
> {
    match extracted {
        Ok(claims) => if claims.expired_at(now) {
            Err(TokenError::TokenExpired)
        } else {
            Ok(claims)
        },
        Err(error) => Err(error),
    }
}

/// The last stage of validation: holds the expiry of the claims against `now`.
pub fn check_expiry(extracted: Result<Claims, TokenError>, now: UtcInstant) -> (outcome: Result<
    Claims,
    TokenError,
>)
    ensures
        outcome == outcome_at(extracted, now),
{
    match extracted {
        Ok(claims) => {
            if claims.is_expired_at(now) {
                Err(TokenError::TokenExpired)
            } else {
                Ok(claims)
            }
        },
        Err(error) => Err(error),
    }
}

/// Validates `token` against the key set of a trust domain, by the system clock.
///
/// `key_store` is what fetching the key set from `auth0_keys_url` of the domain gave.
/// The token is refused with `TokenError::JwksError` where the keys could not be had,
/// the signature does not hold, the claims are not complete or its times are out of
/// range, and with `TokenError::TokenExpired` where the claims say that its time is
/// over by the system clock. Claims that are given are those of the token's payload.
///
/// The start that a token names is not held against the clock: a token whose signature
/// holds and whose payload is complete is refused for its expiry or not at all, and no
/// token is refused as used early. No refusal is a `JwksError` of the kind `Expired`.
pub fn validate_jwt(key_store: Result<jwks_client::keyset::KeyStore, JwksError>, token: &str) -> (outcome:
    Result<Claims, TokenError>)
    ensures
        key_store matches Err(failure) ==> outcome == Err::<Claims, TokenError>(
            refusal_of(failure),
        ),
        outcome matches Ok(c) ==> token_agrees(token@, c) && c.well_formed(),
        key_store matches Ok(keys) ==> (outcome is Ok ==> token_accepted(store_keys(keys), token@)),
        key_store matches Ok(keys) && token_accepted(store_keys(keys), token@) ==> (outcome is Ok
            || outcome == Err::<Claims, TokenError>(TokenError::TokenExpired)),
        outcome matches Err(TokenError::JwksError(e)) ==> e.typ != JwksErrorType::Expired,
        !(outcome matches Err(TokenError::TokenEarly)),
        key_store is Ok && !times_admitted(token_numbers(token@)) ==> (outcome matches Err(
            TokenError::JwksError(e),
        ) && is_refusal_for_times(token_numbers(token@), e)),
        key_store matches Ok(keys) && times_admitted(token_numbers(token@)) && signature_holds(
            store_keys(keys),
            token@,
        ) && !token_complete(token@) ==> (outcome matches Err(TokenError::JwksError(e)) && e.typ
            == JwksErrorType::Invalid && e.msg@ == incomplete_claims()),
{
    let extracted = extract_jwt(key_store, token);
    let now = utc_now();
    check_expiry(extracted, now)
}

/// Validation turns on the expiry alone: claims one second past it are refused as
/// expired, claims one second short of it are accepted as they are, and a refusal of
/// the earlier stages stays what it was, whatever the time.
pub proof fn lemma_validation_boundary(claims: Claims, error: TokenError, now: UtcInstant)
    requires
        claims.well_formed(),
    ensures
        now.secs == claims.exp + 1 ==> outcome_at(Ok(claims), now) == Err::<Claims, TokenError>(
            TokenError::TokenExpired,
        ),
        now.secs == claims.exp - 1 ==> outcome_at(Ok(claims), now) == Ok::<Claims, TokenError>(
            claims,
        ),
        outcome_at(Err(error), now) == Err::<Claims, TokenError>(error),
{
}

} // verus!
