//! Request validation against the validator crate's email rule.

use authcore::models::{
    validate_patch_user_request, ChangePasswordData, CreateTokenRequest, CreateUserRequest,
    PatchUserAction, PatchUserRequest, ValidationError,
};

#[test]
fn email_validation_follows_the_html5_rule() {
    let good = CreateUserRequest { email: "a@x.com".to_string(), password: "pw".to_string() };
    assert!(good.validate().is_ok());
    let bad = CreateUserRequest { email: "not an email".to_string(), password: "pw".to_string() };
    assert_eq!(bad.validate().unwrap_err(), ValidationError::InvalidEmail);
    let empty = CreateUserRequest { email: String::new(), password: "pw".to_string() };
    assert!(empty.validate().is_err());

    let token_req =
        CreateTokenRequest { email: "a@x.com".to_string(), password: "pw".to_string() };
    assert!(token_req.validate().is_ok());
    let token_bad = CreateTokenRequest { email: "@".to_string(), password: "pw".to_string() };
    assert!(token_bad.validate().is_err());
}

#[test]
fn a_password_change_needs_its_data() {
    let with_data = PatchUserRequest {
        action: PatchUserAction::ChangePassword,
        change_password_data: Some(ChangePasswordData {
            old_password: "old".to_string(),
            new_password: "new".to_string(),
        }),
    };
    assert!(validate_patch_user_request(&with_data).is_ok());

    let without = PatchUserRequest {
        action: PatchUserAction::ChangePassword,
        change_password_data: None,
    };
    assert_eq!(
        validate_patch_user_request(&without).unwrap_err(),
        ValidationError::MissingChangePasswordData
    );
}
