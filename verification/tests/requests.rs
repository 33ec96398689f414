use genshin_gallery_api::api::{
    character_query_options, validate_db_sync_token, ArtworkIdRequest, AuthHeader, DbSyncToken,
    SyncAuthError,
};
use genshin_gallery_api::stats::{aggregate_statistics, ArtworkStatistics};

#[test]
fn query_options_default_the_label_to_sfw() {
    let opts = character_query_options(None, None);
    assert_eq!(opts.characters, Some(Vec::new()));
    assert_eq!(opts.image_type, Some("SFW".to_string()));

    let opts = character_query_options(Some("Hu Tao".to_string()), Some("R18".to_string()));
    assert_eq!(opts.characters, Some(vec!["Hu Tao".to_string()]));
    assert_eq!(opts.image_type, Some("R18".to_string()));
}

#[test]
fn id_request_resolves_to_query_options() {
    let request = ArtworkIdRequest {
        art_type: Some("nsfw".to_string()),
        character: Some("Ganyu".to_string()),
    };
    let opts = request.to_query_options();
    assert_eq!(opts.characters, Some(vec!["Ganyu".to_string()]));
    assert_eq!(opts.image_type, Some("nsfw".to_string()));
}

#[test]
fn statistics_default_one_failed_read_to_zero() {
    let stats = aggregate_statistics(Some(10), Some(99), Some(5), None, Some(2));
    assert_eq!(
        stats,
        ArtworkStatistics { total: 10, sfw: 5, nsfw: 0, r18: 2, latest_upload_time: 99 }
    );
}

#[test]
fn statistics_default_every_failed_read_to_zero() {
    let stats = aggregate_statistics(None, None, None, None, None);
    assert_eq!(
        stats,
        ArtworkStatistics { total: 0, sfw: 0, nsfw: 0, r18: 0, latest_upload_time: 0 }
    );
}

#[test]
fn statistics_keep_successful_reads() {
    let stats = aggregate_statistics(Some(7), Some(1700000000), Some(4), Some(2), Some(1));
    assert_eq!(
        stats,
        ArtworkStatistics { total: 7, sfw: 4, nsfw: 2, r18: 1, latest_upload_time: 1700000000 }
    );
}

#[test]
fn sync_token_round_trips() {
    let token = DbSyncToken::new("SECRET-REDACTED".to_string());
    assert_eq!(token.token(), "SECRET-REDACTED");
}

#[test]
fn sync_accepts_exact_bearer_token() {
    let token = DbSyncToken::new("secret".to_string());
    let header = AuthHeader::Value("Bearer secret".to_string());
    assert!(validate_db_sync_token(&token, &header).is_ok());
}

#[test]
fn sync_rejects_wrong_bearer_token() {
    let token = DbSyncToken::new("secret".to_string());
    let header = AuthHeader::Value("Bearer wrong".to_string());
    assert_eq!(
        validate_db_sync_token(&token, &header),
        Err(SyncAuthError::InvalidToken)
    );
}

#[test]
fn sync_rejects_token_without_bearer_prefix() {
    let token = DbSyncToken::new("secret".to_string());
    let header = AuthHeader::Value("secret".to_string());
    assert_eq!(
        validate_db_sync_token(&token, &header),
        Err(SyncAuthError::InvalidToken)
    );
}

#[test]
fn sync_rejects_missing_header() {
    let token = DbSyncToken::new("secret".to_string());
    assert_eq!(
        validate_db_sync_token(&token, &AuthHeader::Missing),
        Err(SyncAuthError::MissingHeader)
    );
}

#[test]
fn sync_rejects_non_utf8_header() {
    let token = DbSyncToken::new("secret".to_string());
    assert_eq!(
        validate_db_sync_token(&token, &AuthHeader::NotUtf8),
        Err(SyncAuthError::InvalidFormat)
    );
}

#[test]
fn auth_error_messages_match_the_responses() {
    assert_eq!(
        SyncAuthError::MissingHeader.message(),
        "Authorization header not found"
    );
    assert_eq!(
        SyncAuthError::InvalidFormat.message(),
        "Invalid authorization header format"
    );
    assert_eq!(SyncAuthError::InvalidToken.message(), "Invalid token");
}

#[test]
fn empty_token_authorizes_bare_bearer_prefix() {
    let token = DbSyncToken::new(String::new());
    let header = AuthHeader::Value("Bearer ".to_string());
    assert!(validate_db_sync_token(&token, &header).is_ok());
    let header = AuthHeader::Value("Bearer".to_string());
    assert!(validate_db_sync_token(&token, &header).is_err());
}
