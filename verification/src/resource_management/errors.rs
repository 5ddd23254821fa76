//! Errors of resources, and their conversion to errors of the domain.

use vstd::prelude::*;
use vstd::std_specs::convert::FromSpecImpl;
use crate::errors::DomainError;

verus! {

/// What can go wrong with a resource.
#[derive(Debug, Clone, PartialEq, Eq)]
pub enum ResourceError {
    NotFound { code: String },
    AlreadyExists { code: String },
    InvalidState { current: String, expected: String },
    ValidationFailed { details: String },
    ModificationNotAllowed { state: String },
    InvalidEmail { email: String, reason: String },
    InvalidName { name: String, reason: String },
    InvalidCode { code: String, reason: String },
    DeactivationFailed { reason: String },
}

/// The message of a resource error.
pub open spec fn resource_error_text(e: ResourceError) -> Seq<char> {
    match e {
        ResourceError::NotFound { code } => "Resource with code '"@ + code@ + "' not found"@,
        ResourceError::AlreadyExists { code } => "Resource with code '"@ + code@ + "' already exists"@,
        ResourceError::InvalidState { current, expected } => "Resource is in invalid state '"@ + current@
            + "', expected '"@ + expected@ + "'"@,
        ResourceError::ValidationFailed { details } => "Resource validation failed: "@ + details@,
        ResourceError::ModificationNotAllowed { state } => "Cannot modify resource in state '"@ + state@ + "'"@,
        ResourceError::InvalidEmail { email, reason } => "Invalid email '"@ + email@ + "': "@ + reason@,
        ResourceError::InvalidName { name, reason } => "Invalid name '"@ + name@ + "': "@ + reason@,
        ResourceError::InvalidCode { code, reason } => "Resource code '"@ + code@ + "' is invalid: "@ + reason@,
        ResourceError::DeactivationFailed { reason } => "Resource deactivation failed: "@ + reason@,
    }
}

/// The domain error that a resource error becomes.
pub open spec fn resource_error_converted(e: ResourceError, d: DomainError) -> bool {
    match e {
        ResourceError::NotFound { code } => d matches DomainError::ResourceNotFound { code: c } && c@ == code@,
        ResourceError::AlreadyExists { code } => d matches DomainError::ResourceAlreadyExists { code: c }
            && c@ == code@,
        ResourceError::InvalidState { current, expected } => d matches DomainError::ResourceInvalidState {
            current: c,
            expected: x,
        } && c@ == current@ && x@ == expected@,
        ResourceError::ValidationFailed { details } => d matches DomainError::ResourceValidationFailed { details: t }
            && t@ == details@,
        ResourceError::ModificationNotAllowed { state } => d matches DomainError::ResourceInvalidState {
            current: c,
            expected: x,
        } && c@ == state@ && x@ == "modifiable state"@,
        ResourceError::InvalidEmail { email, reason } => d.is_validation(
            "email"@,
            "Email '"@ + email@ + "' is invalid: "@ + reason@,
        ),
        ResourceError::InvalidName { name, reason } => d.is_validation(
            "name"@,
            "Name '"@ + name@ + "' is invalid: "@ + reason@,
        ),
        ResourceError::InvalidCode { code, reason } => d.is_validation(
            "code"@,
            "Code '"@ + code@ + "' is invalid: "@ + reason@,
        ),
        ResourceError::DeactivationFailed { reason } => d matches DomainError::ResourceInvalidState {
            current: c,
            expected: x,
        } && c@ == "active"@ && x@ == "deactivated"@,
    }
}

impl ResourceError {
    /// The message of the error.
    pub fn to_string(&self) -> (s: String)
        ensures
            s@ == resource_error_text(*self),
    {
        match self {
            ResourceError::NotFound { code } => String::from_str("Resource with code '").concat(code.as_str()).concat(
                "' not found",
            ),
            ResourceError::AlreadyExists { code } => String::from_str("Resource with code '").concat(
                code.as_str(),
            ).concat("' already exists"),
            ResourceError::InvalidState { current, expected } => String::from_str("Resource is in invalid state '")
                .concat(current.as_str())
                .concat("', expected '")
                .concat(expected.as_str())
                .concat("'"),
            ResourceError::ValidationFailed { details } => String::from_str("Resource validation failed: ").concat(
                details.as_str(),
            ),
            ResourceError::ModificationNotAllowed { state } => String::from_str("Cannot modify resource in state '")
                .concat(state.as_str())
                .concat("'"),
            ResourceError::InvalidEmail { email, reason } => String::from_str("Invalid email '").concat(email.as_str())
                .concat("': ")
                .concat(reason.as_str()),
            ResourceError::InvalidName { name, reason } => String::from_str("Invalid name '").concat(name.as_str())
                .concat("': ")
                .concat(reason.as_str()),
            ResourceError::InvalidCode { code, reason } => String::from_str("Resource code '").concat(code.as_str())
                .concat("' is invalid: ")
                .concat(reason.as_str()),
            ResourceError::DeactivationFailed { reason } => String::from_str("Resource deactivation failed: ").concat(
                reason.as_str(),
            ),
        }
    }

    /// The domain error that this error becomes.
    pub fn into_domain_error(self) -> (d: DomainError)
        ensures
            resource_error_converted(self, d),
    {
        match self {
            ResourceError::NotFound { code } => DomainError::ResourceNotFound { code },
            ResourceError::AlreadyExists { code } => DomainError::ResourceAlreadyExists { code },
            ResourceError::InvalidState { current, expected } => DomainError::ResourceInvalidState { current, expected },
            ResourceError::ValidationFailed { details } => DomainError::ResourceValidationFailed { details },
            ResourceError::ModificationNotAllowed { state } => DomainError::ResourceInvalidState {
                current: state,
                expected: String::from_str("modifiable state"),
            },
            ResourceError::InvalidEmail { email, reason } => DomainError::ValidationError {
                field: String::from_str("email"),
                message: String::from_str("Email '").concat(email.as_str()).concat("' is invalid: ").concat(
                    reason.as_str(),
                ),
            },
            ResourceError::InvalidName { name, reason } => DomainError::ValidationError {
                field: String::from_str("name"),
                message: String::from_str("Name '").concat(name.as_str()).concat("' is invalid: ").concat(
                    reason.as_str(),
                ),
            },
            ResourceError::InvalidCode { code, reason } => DomainError::ValidationError {
                field: String::from_str("code"),
                message: String::from_str("Code '").concat(code.as_str()).concat("' is invalid: ").concat(
                    reason.as_str(),
                ),
            },
            ResourceError::DeactivationFailed { reason } => DomainError::ResourceInvalidState {
                current: String::from_str("active"),
                expected: String::from_str("deactivated"),
            },
        }
    }
}

impl From<ResourceError> for DomainError {
    fn from(err: ResourceError) -> (d: DomainError)
        ensures
            resource_error_converted(err, d),
    {
        err.into_domain_error()
    }
}

impl FromSpecImpl<ResourceError> for DomainError {
    /// The conversion is specified by `resource_error_converted`, over the texts of
    /// the errors, rather than by a spec function that yields the converted value.
    open spec fn obeys_from_spec() -> bool {
        false
    }

    open spec fn from_spec(v: ResourceError) -> DomainError {
        vstd::pervasive::arbitrary()
    }
}

/// The result of an operation on a resource.
pub type ResourceResult<T> = Result<T, ResourceError>;

} // verus!
