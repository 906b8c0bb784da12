use vstd::prelude::*;

use crate::model::{RecurrenceType, UserRole};

verus! {

/// Query parameters of the manual settlement endpoint.
#[derive(Clone, Copy, Debug)]
pub struct PayFeeParams {
    pub fee_id: i32,
}

/// The payload posted by the bank-transfer gateway. `transaction_date` is
/// free text in `YYYY-MM-DD hh:mm:ss` form; `content` embeds the assignment
/// reference code.
#[derive(Clone, Debug)]
pub struct WebhookPayload {
    pub id: i32,
    pub gateway: String,
    pub transaction_date: String,
    pub account_number: String,
    pub sub_account: Option<String>,
    pub transfer_amount: i64,
    pub accumulated: i64,
    pub code: Option<String>,
    pub content: String,
    pub reference_code: Option<String>,
    pub description: Option<String>,
}

/// A room together with its tenant's contact data.
#[derive(Clone, Debug)]
pub struct DetailedRoomInfo {
    pub room_number: i32,
    pub tenant_id: i32,
    pub tenant_name: String,
    pub tenant_email: String,
    pub tenant_phone: String,
}

/// A manager's request to notify one user, or all of them.
#[derive(Clone, Debug)]
pub struct SendNotificationInfo {
    pub title: String,
    pub message: String,
    pub to_user: Option<String>,
    pub send_all: bool,
}

/// The token pair issued on a successful login.
#[derive(Clone, Debug)]
pub struct LoginResponse {
    pub access_token: String,
    pub refresh_token: String,
    pub expires_in: i64,
    pub token_type: String,
}

/// The token pair returned by the token endpoints.
#[derive(Clone, Debug)]
pub struct TokenResponse {
    pub access_token: String,
    pub refresh_token: String,
    pub expires_in: i64,
    pub token_type: String,
}

/// An OAuth-style error body for token failures.
#[derive(Clone, Debug)]
pub struct AccessTokenError {
    pub error: String,
    pub error_description: String,
}

/// A request to exchange a refresh token for a new access token.
#[derive(Clone, Debug)]
pub struct RefreshTokenRequest {
    pub refresh_token: String,
}

/// How an account asks to be recovered.
#[derive(Clone, Copy, Debug, PartialEq, Eq, Structural)]
pub enum AccountRecoveryMethod {
    Email,
    Phone,
}

/// How a password asks to be recovered.
#[derive(Clone, Copy, Debug, PartialEq, Eq, Structural)]
pub enum RecoverPasswordMethod {
    Email,
    Phone,
}

/// Admin request to activate or deactivate an account; `status` is the
/// plain-text status name.
#[derive(Clone, Debug)]
pub struct ActivateUserParams {
    pub user_id: i32,
    pub status: String,
}

/// New contact data for an account.
#[derive(Clone, Debug)]
pub struct UpdateUserInfo {
    pub name: String,
    pub username: String,
    pub email: String,
    pub phone: String,
}

/// A password change: the old password authenticates the request.
#[derive(Clone, Debug)]
pub struct UpdatePasswordInfo {
    pub old_password: String,
    pub new_password: String,
}

/// The identity carried by an access token.
#[derive(Clone, Debug)]
pub struct AccessTokenClaims {
    pub username: String,
    pub id: i32,
    pub role: UserRole,
}

/// The identity carried by a refresh token, with the revocation epoch it was
/// issued under.
#[derive(Clone, Debug)]
pub struct RefreshTokenClaims {
    pub username: String,
    pub id: i32,
    pub role: UserRole,
    pub refresh_token_version: i32,
}

/// The public face of an account.
#[derive(Clone, Debug)]
pub struct BasicUserInfo {
    pub id: i32,
    pub name: String,
    pub username: String,
    pub email: String,
    pub phone: String,
    pub role: UserRole,
}

/// A new account registration.
#[derive(Clone, Debug)]
pub struct RegisterInfo {
    pub name: String,
    pub username: String,
    pub email: String,
    pub phone: String,
    pub password: String,
    pub role: UserRole,
    pub room_id: Option<i32>,
}

/// One row of the fee list.
#[derive(Clone, Debug)]
pub struct FeesInfo {
    pub id: i32,
    pub name: String,
    pub amount: i64,
    pub due_date: i64,
}

/// A new fee definition, or new data for an existing one.
#[derive(Clone, Debug)]
pub struct AddFeeInfo {
    pub name: String,
    pub amount: i64,
    pub is_required: bool,
    pub due_date: i64,
    pub recurrence_type: Option<RecurrenceType>,
}

/// One row of a room's obligations as the household endpoints report it:
/// when the assignment is paid, `fee_amount` is the recorded transaction
/// amount (if any); otherwise the fee's own amount.
#[derive(Clone, Debug)]
pub struct FeesRoomInfo {
    pub assignment_id: i32,
    pub room_number: i32,
    pub fee_id: i32,
    pub fee_name: String,
    pub fee_amount: Option<i64>,
    pub due_date: i64,
    pub payment_date: Option<i64>,
    pub is_paid: bool,
}

/// A notification as reported to its recipient, with sender and recipient
/// names resolved.
#[derive(Clone, Debug)]
pub struct NotificationInfo {
    pub id: i32,
    pub title: String,
    pub message: String,
    pub from_name: String,
    pub to_name: String,
}

/// A tenant's household: contact data and every obligation of the room.
#[derive(Clone, Debug)]
pub struct PersonalHouseholdInfo {
    pub room_number: i32,
    pub tenant_id: i32,
    pub tenant_name: String,
    pub tenant_email: String,
    pub tenant_phone: String,
    pub fees: Vec<FeesRoomInfo>,
}

/// A fee with every room assignment it currently has.
#[derive(Clone, Debug)]
pub struct DetailedFeeInfo {
    pub id: i32,
    pub name: String,
    pub amount: i64,
    pub is_required: bool,
    pub created_at: i64,
    pub due_date: i64,
    pub recurrence_type: Option<RecurrenceType>,
    pub fee_assignments: Vec<FeesRoomInfo>,
}

} // verus!
