use kube_eye_export_server::auth::auth_info_from_value;
use kube_eye_export_server::auth::auth_info_to_value;
use kube_eye_export_server::auth::check_auth;
use kube_eye_export_server::auth::AuthInfo;
use kube_eye_export_server::error::Error;
use kube_eye_export_server::json::parse_text;
use kube_eye_export_server::json::to_text;

#[test]
fn test_auth_info_serialization() {
    let auth_info = AuthInfo {
        user_id: "user123".to_string(),
    };

    let json = to_text(&auth_info_to_value(&auth_info));
    assert!(json.contains("user123"));
}

#[test]
fn test_auth_info_deserialization() {
    let json = r#"{"user_id": "user456"}"#;
    let auth_info: AuthInfo = auth_info_from_value(&parse_text(json).unwrap()).unwrap();
    assert_eq!(auth_info.user_id, "user456");
}

#[test]
fn test_auth_info_clone() {
    let auth_info = AuthInfo {
        user_id: "user789".to_string(),
    };
    let cloned = auth_info.clone();
    assert_eq!(auth_info.user_id, cloned.user_id);
}

#[test]
fn test_auth_with_header_passes() {
    let header = "Bearer valid_token".to_string();
    assert!(check_auth(Some(&header)).is_ok());
}

#[test]
fn test_auth_with_empty_header_passes() {
    let header = String::new();
    assert!(check_auth(Some(&header)).is_ok());
}

#[test]
fn test_auth_without_header_is_unauthorized() {
    let err = check_auth(None).unwrap_err();
    assert_eq!(err, Error::MissingAuth);
    let (status, code, _message) = err.response_parts();
    assert_eq!(status, 401);
    assert_eq!(code, 1001);
}

#[test]
fn test_error_response_mapping() {
    let (status, code, message) = Error::InvalidToken.response_parts();
    assert_eq!((status, code), (401, 1003));
    assert_eq!(message, "Invalid Token");

    let not_found = Error::InvalidInput {
        reason: "Theme nonexistent not found".to_string(),
    };
    let (status, code, message) = not_found.response_parts();
    assert_eq!((status, code), (404, 1004));
    assert_eq!(message, "Invalid input: Theme nonexistent not found");

    let rejected = Error::InvalidJsonBody {
        message: "bad".to_string(),
    };
    let (status, code, _m) = rejected.response_parts();
    assert_eq!((status, code), (422, 1005));

    let internal = Error::TypstPdf {
        message: "boom".to_string(),
    };
    let (status, code, message) = internal.response_parts();
    assert_eq!((status, code), (500, 5000));
    assert_eq!(message, "Failed to generate pdf:boom");

    let bad_edit = Error::ConfigParse { source: 1, at: 7 };
    let (status, code, message) = bad_edit.response_parts();
    assert_eq!((status, code), (500, 5000));
    assert_eq!(message, "Failed to parse config source 1 at offset 7");

    let unusable = Error::BadRequest {
        message: "unusable".to_string(),
    };
    let (status, code, message) = unusable.response_parts();
    assert_eq!((status, code), (500, 5000));
    assert_eq!(message, "Bad request: unusable");
}

#[test]
fn test_error_from_json_rejection() {
    let err = Error::from_json_rejection_text(&"missing field".to_string());
    match &err {
        Error::InvalidJsonBody { message } => {
            assert_eq!(message, "missing field");
        }
        other => panic!("unexpected error: {:?}", other),
    }
    let (status, code, message) = err.response_parts();
    assert_eq!((status, code), (422, 1005));
    assert_eq!(message, "Invalid Json Body. missing field");
}
