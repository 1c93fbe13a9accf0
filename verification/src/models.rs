//! Request and response bodies of the HTTP surface, with their field
//! validation. The transport itself stays outside the library.

use vstd::prelude::*;

verus! {

/// Whether validator's HTML5 email rule accepts the string; a function of
/// the characters alone.
pub uninterp spec fn email_ok(s: Seq<char>) -> bool;

/// Relies on validator::validate_email: the HTML5 email rule.
#[verifier::external_body]
fn check_email(s: &str) -> (r: bool)
    ensures
        r == email_ok(s@),
{
    validator::validate_email(s)
}

/// A request body failed validation.
#[derive(Debug, PartialEq, Eq, Structural)]
pub enum ValidationError {
    InvalidEmail,
    MissingChangePasswordData,
}

pub struct CreateUserRequest {
    pub email: String,
    pub password: String,
}

impl CreateUserRequest {
    /// Accepts the request exactly when the email is valid.
    pub fn validate(&self) -> (r: Result<(), ValidationError>)
        ensures
            r is Ok <==> email_ok(self.email@),
            r is Err ==> r == Err::<(), ValidationError>(ValidationError::InvalidEmail),
    {
        if check_email(self.email.as_str()) {
            Ok(())
        } else {
            Err(ValidationError::InvalidEmail)
        }
    }
}

pub struct CreateUserResponse {
    pub id: i64,
    pub email: String,
    pub date_created: i64,
}

pub struct CreateTokenRequest {
    pub email: String,
    pub password: String,
}

impl CreateTokenRequest {
    /// Accepts the request exactly when the email is valid.
    pub fn validate(&self) -> (r: Result<(), ValidationError>)
        ensures
            r is Ok <==> email_ok(self.email@),
            r is Err ==> r == Err::<(), ValidationError>(ValidationError::InvalidEmail),
    {
        if check_email(self.email.as_str()) {
            Ok(())
        } else {
            Err(ValidationError::InvalidEmail)
        }
    }
}

pub struct CreateTokenResponse {
    pub token: String,
}

pub struct ValidateTokenRequest {
    pub token: String,
}

pub struct ValidateTokenResponse {
    pub user_id: i64,
    pub email: String,
}

pub enum PatchUserAction {
    ChangePassword,
}

pub struct ChangePasswordData {
    pub old_password: String,
    pub new_password: String,
}

pub struct PatchUserRequest {
    pub action: PatchUserAction,
    pub change_password_data: Option<ChangePasswordData>,
}

/// A password change must carry its data.
pub fn validate_patch_user_request(request: &PatchUserRequest) -> (r: Result<(), ValidationError>)
    ensures
        r is Ok <==> (request.action is ChangePassword ==> request.change_password_data is Some),
        r is Err ==> r == Err::<(), ValidationError>(ValidationError::MissingChangePasswordData),
{
    match request.action {
        PatchUserAction::ChangePassword => match &request.change_password_data {
            Some(_) => Ok(()),
            None => Err(ValidationError::MissingChangePasswordData),
        },
    }
}

} // verus!
