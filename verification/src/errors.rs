//! The error taxonomy of the service: validation failures, per-user
//! uniqueness conflicts, missing referenced rows, and authentication
//! failures. Every handled failure maps to one variant, and
//! [`ApiError::message`] renders the client-visible text.

use vstd::prelude::*;

verus! {

/// One variant per handled failure of the service.
#[derive(Clone, Copy, Debug, PartialEq, Eq, Structural)]
pub enum ApiError {
    /// Sign-up with an email that is already registered.
    EmailExists,
    /// Login with an unknown email or a wrong password; the two cases are
    /// deliberately not distinguished.
    InvalidCredentials,
    /// A missing, malformed, unverifiable or expired bearer token.
    Unauthorized,
    /// Password hashing failed.
    HashingFailed,
    /// A required category name was blank (empty after trimming).
    BlankCategoryName,
    /// A required product name was blank (empty after trimming).
    BlankProductName,
    /// The category name is already taken by the same user.
    DuplicateCategory,
    /// The product name is already taken by the same user.
    DuplicateProduct,
    /// The tag name is already taken by the same user.
    DuplicateTag,
    /// Neither a product id nor a non-blank product name was supplied.
    MissingProductReference,
    /// A supplied product id references no product row.
    NoSuchProduct,
    /// A supplied product price id references no price row.
    NoSuchProductPrice,
    /// A supplied tag id references no tag row.
    NoSuchTag,
    /// One transaction referenced the same tag twice; the join rows share a
    /// composite key, so the second row cannot be inserted.
    DuplicateTransactionTag,
}

impl ApiError {
    /// The client-visible message, as the error envelope carries it.
    pub fn message(&self) -> (r: String)
        ensures
            r@ == self.message_spec(),
    {
        match self {
            ApiError::EmailExists => "A user with that email already exists".to_owned(),
            ApiError::InvalidCredentials => "Invalid email or password".to_owned(),
            ApiError::Unauthorized => "Unauthorized".to_owned(),
            ApiError::HashingFailed => "Failed to hash password".to_owned(),
            ApiError::BlankCategoryName => "Category name must not be blank".to_owned(),
            ApiError::BlankProductName => "Product name must not be blank".to_owned(),
            ApiError::DuplicateCategory => "Category already exists".to_owned(),
            ApiError::DuplicateProduct => "Product already exists".to_owned(),
            ApiError::DuplicateTag => "Tag already exists".to_owned(),
            ApiError::MissingProductReference => "No product reference supplied".to_owned(),
            ApiError::NoSuchProduct => "No such product".to_owned(),
            ApiError::NoSuchProductPrice => "No such product price".to_owned(),
            ApiError::NoSuchTag => "No such tag".to_owned(),
            ApiError::DuplicateTransactionTag => "Duplicate tag reference".to_owned(),
        }
    }

    /// The message of each variant, as a sequence of characters.
    pub open spec fn message_spec(&self) -> Seq<char> {
        match self {
            ApiError::EmailExists => "A user with that email already exists"@,
            ApiError::InvalidCredentials => "Invalid email or password"@,
            ApiError::Unauthorized => "Unauthorized"@,
            ApiError::HashingFailed => "Failed to hash password"@,
            ApiError::BlankCategoryName => "Category name must not be blank"@,
            ApiError::BlankProductName => "Product name must not be blank"@,
            ApiError::DuplicateCategory => "Category already exists"@,
            ApiError::DuplicateProduct => "Product already exists"@,
            ApiError::DuplicateTag => "Tag already exists"@,
            ApiError::MissingProductReference => "No product reference supplied"@,
            ApiError::NoSuchProduct => "No such product"@,
            ApiError::NoSuchProductPrice => "No such product price"@,
            ApiError::NoSuchTag => "No such tag"@,
            ApiError::DuplicateTransactionTag => "Duplicate tag reference"@,
        }
    }
}

/// The JSON error envelope: `{"error": "<message>"}`.
#[derive(Debug)]
pub struct ErrorResponse {
    pub error: String,
}

/// Builds the error envelope for one failure.
pub fn error_response(err: ApiError) -> (r: ErrorResponse)
    ensures
        r.error@ == err.message_spec(),
{
    ErrorResponse { error: err.message() }
}

} // verus!
