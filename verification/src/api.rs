//! The request-facing values of the service: the sync bearer token and its
//! validation, and the parsed request shapes the transport hands over.

use vstd::prelude::*;

use crate::store::ArtworkQueryOption;
use crate::text::{eq_bytes, str_bytes, string_bytes};

verus! {

/// The bearer token that guards the sync endpoint.
pub struct DbSyncToken {
    token: String,
}

impl View for DbSyncToken {
    type V = Seq<u8>;

    closed spec fn view(&self) -> Seq<u8> {
        str_bytes(self.token@)
    }
}

impl DbSyncToken {
    /// Wrap the configured token value.
    pub fn new(token: String) -> (r: Self)
        ensures
            r@ == str_bytes(token@),
    {
        DbSyncToken { token }
    }

    /// The configured token value.
    pub fn token(&self) -> (r: String)
        ensures
            str_bytes(r@) == self@,
    {
        self.token.clone()
    }
}

/// A query for artwork identifiers: an optional content-rating label and an
/// optional character name.
pub struct ArtworkIdRequest {
    pub art_type: Option<String>,
    pub character: Option<String>,
}

/// The query options a single optional character name and an optional
/// label resolve to: the one name as the whole filter input, and the label
/// defaulted to `SFW` when absent.
pub fn character_query_options(character: Option<String>, art_type: Option<String>) -> (r:
    ArtworkQueryOption)
    ensures
        match character {
            Some(c) => r.characters matches Some(v) && v@ =~= seq![c],
            None => r.characters matches Some(v) && v@.len() == 0,
        },
        match art_type {
            Some(t) => r.image_type == Some(t),
            None => r.image_type matches Some(t) && str_bytes(t@) == str_bytes("SFW"@),
        },
{
    let characters: Vec<String> = match character {
        Some(c) => {
            let mut v: Vec<String> = Vec::new();
            v.push(c);
            v
        },
        None => Vec::new(),
    };
    let label = match art_type {
        Some(t) => t,
        None => "SFW".to_owned(),
    };
    ArtworkQueryOption::new(Some(characters), Some(label))
}

impl ArtworkIdRequest {
    /// The query options this request resolves to.
    pub fn to_query_options(self) -> (r: ArtworkQueryOption)
        ensures
            match self.character {
                Some(c) => r.characters matches Some(v) && v@ =~= seq![c],
                None => r.characters matches Some(v) && v@.len() == 0,
            },
            match self.art_type {
                Some(t) => r.image_type == Some(t),
                None => r.image_type matches Some(t) && str_bytes(t@) == str_bytes("SFW"@),
            },
    {
        character_query_options(self.character, self.art_type)
    }
}

/// A query for full artwork metadata: the identifiers to look up.
pub struct ArtworkInfoRequest {
    pub ids: Vec<i64>,
}

/// The Authorization header of a request, as the transport presents it:
/// absent, present but not UTF-8, or its text.
pub enum AuthHeader {
    Missing,
    NotUtf8,
    Value(String),
}

/// Why sync authorization was refused.
#[derive(Clone, Copy, PartialEq, Eq, Structural, Debug)]
pub enum SyncAuthError {
    MissingHeader,
    InvalidFormat,
    InvalidToken,
}

impl SyncAuthError {
    /// The message the response body carries for this refusal.
    pub fn message(&self) -> (r: &str)
        ensures
            *self == SyncAuthError::MissingHeader ==> r@ == "Authorization header not found"@,
            *self == SyncAuthError::InvalidFormat ==> r@ == "Invalid authorization header format"@,
            *self == SyncAuthError::InvalidToken ==> r@ == "Invalid token"@,
    {
        match self {
            SyncAuthError::MissingHeader => "Authorization header not found",
            SyncAuthError::InvalidFormat => "Invalid authorization header format",
            SyncAuthError::InvalidToken => "Invalid token",
        }
    }
}

/// The exact header text that authorizes a sync under `tok`:
/// `Bearer <tok>`.
pub open spec fn bearer_of(tok: Seq<u8>) -> Seq<u8> {
    seq![
        'B' as u8,
        'e' as u8,
        'a' as u8,
        'r' as u8,
        'e' as u8,
        'r' as u8,
        ' ' as u8,
    ] + tok
}

/// Validate the Authorization header of a sync request against the
/// configured token: only the exact text `Bearer <token>` authorizes.
/// A missing header, a header that is not UTF-8 and a mismatching value
/// are each refused with their own error, before any store access.
pub fn validate_db_sync_token(db_sync_token: &DbSyncToken, header: &AuthHeader) -> (r: Result<
    (),
    SyncAuthError,
>)
    ensures
        r is Ok <==> (match *header {
            AuthHeader::Value(s) => str_bytes(s@) == bearer_of(db_sync_token@),
            _ => false,
        }),
        *header is Missing ==> r == Result::<(), SyncAuthError>::Err(SyncAuthError::MissingHeader),
        *header is NotUtf8 ==> r == Result::<(), SyncAuthError>::Err(SyncAuthError::InvalidFormat),
        (r is Err && *header is Value) ==> r == Result::<(), SyncAuthError>::Err(
            SyncAuthError::InvalidToken,
        ),
{
    match header {
        AuthHeader::Missing => Err(SyncAuthError::MissingHeader),
        AuthHeader::NotUtf8 => Err(SyncAuthError::InvalidFormat),
        AuthHeader::Value(s) => {
            let mut expected: Vec<u8> = Vec::new();
            expected.push('B' as u8);
            expected.push('e' as u8);
            expected.push('a' as u8);
            expected.push('r' as u8);
            expected.push('e' as u8);
            expected.push('r' as u8);
            expected.push(' ' as u8);
            let tok = db_sync_token.token();
            let tok_bytes = string_bytes(&tok);
            let mut i: usize = 0;
            while i < tok_bytes.len()
                invariant
                    0 <= i <= tok_bytes@.len(),
                    expected@ =~= seq![
                        'B' as u8,
                        'e' as u8,
                        'a' as u8,
                        'r' as u8,
                        'e' as u8,
                        'r' as u8,
                        ' ' as u8,
                    ] + tok_bytes@.take(i as int),
                decreases tok_bytes@.len() - i,
            {
                expected.push(tok_bytes[i]);
                i += 1;
            }
            proof {
                assert(tok_bytes@.take(tok_bytes@.len() as int) =~= tok_bytes@);
                assert(expected@ =~= bearer_of(db_sync_token@));
            }
            if eq_bytes(string_bytes(s), expected.as_slice()) {
                Ok(())
            } else {
                Err(SyncAuthError::InvalidToken)
            }
        },
    }
}

} // verus!
