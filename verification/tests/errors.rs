use emotechat_backend::ApiError;
use emotechat_backend::DatabaseError;

#[test]
fn error_tags_name_the_variants() {
    assert_eq!(
        ApiError::Database(DatabaseError::Database("timeout".to_string()))
            .as_api_error()
            .error,
        "database_error"
    );
    assert_eq!(ApiError::NotFound.as_api_error().error, "not_found");
    assert_eq!(
        ApiError::EmoteProviderError("status 500".to_string())
            .as_api_error()
            .error,
        "emote_provider_error"
    );
    assert_eq!(ApiError::InvalidId.as_api_error().error, "invalid_id");
    assert_eq!(
        ApiError::LegacyApiError("unreachable".to_string())
            .as_api_error()
            .error,
        "legacy_api_error"
    );
}

#[test]
fn error_descriptions_carry_the_message() {
    let body = ApiError::Database(DatabaseError::Database("timeout".to_string())).as_api_error();
    assert_eq!(
        body.description,
        "Database Error: Error while interacting with the database: timeout"
    );
    assert_eq!(
        ApiError::NotFound.as_api_error().description,
        "Resource not found"
    );
    assert_eq!(
        ApiError::InvalidId.as_api_error().description,
        "Emote ID is invalid"
    );
    assert_eq!(
        ApiError::LegacyApiError("unreachable".to_string())
            .as_api_error()
            .description,
        "Legacy API Error: unreachable"
    );
    assert_eq!(
        ApiError::EmoteProviderError("status 500".to_string())
            .as_api_error()
            .description,
        "Emote Provider Error: status 500"
    );
}
