//! Errors of projects, and their conversion to errors of the domain.

use vstd::prelude::*;
use vstd::std_specs::convert::FromSpecImpl;
use crate::errors::DomainError;

verus! {

/// What can go wrong with a project.
#[derive(Debug, Clone, PartialEq, Eq)]
pub enum ProjectError {
    NotFound { code: String },
    AlreadyExists { code: String },
    InvalidState { current: String, expected: String },
    ValidationFailed { details: String },
    ModificationNotAllowed { state: String },
    InvalidDates { reason: String },
    InvalidCode { code: String, reason: String },
}

/// The message of a project error.
pub open spec fn project_error_text(e: ProjectError) -> Seq<char> {
    match e {
        ProjectError::NotFound { code } => "Project with code '"@ + code@ + "' not found"@,
        ProjectError::AlreadyExists { code } => "Project with code '"@ + code@ + "' already exists"@,
        ProjectError::InvalidState { current, expected } => "Project is in invalid state '"@ + current@
            + "', expected '"@ + expected@ + "'"@,
        ProjectError::ValidationFailed { details } => "Project validation failed: "@ + details@,
        ProjectError::ModificationNotAllowed { state } => "Cannot modify project in state '"@ + state@ + "'"@,
        ProjectError::InvalidDates { reason } => "Project dates are invalid: "@ + reason@,
        ProjectError::InvalidCode { code, reason } => "Project code '"@ + code@ + "' is invalid: "@ + reason@,
    }
}

/// The domain error that a project error becomes.
pub open spec fn project_error_converted(e: ProjectError, d: DomainError) -> bool {
    match e {
        ProjectError::NotFound { code } => d matches DomainError::ProjectNotFound { code: c } && c@ == code@,
        ProjectError::AlreadyExists { code } => d matches DomainError::ProjectAlreadyExists { code: c } && c@ == code@,
        ProjectError::InvalidState { current, expected } => d matches DomainError::ProjectInvalidState {
            current: c,
            expected: x,
        } && c@ == current@ && x@ == expected@,
        ProjectError::ValidationFailed { details } => d matches DomainError::ProjectValidationFailed { details: t }
            && t@ == details@,
        ProjectError::ModificationNotAllowed { state } => d matches DomainError::ProjectInvalidState {
            current: c,
            expected: x,
        } && c@ == state@ && x@ == "modifiable state"@,
        ProjectError::InvalidDates { reason } => d.is_validation("dates"@, reason@),
        ProjectError::InvalidCode { code, reason } => d.is_validation(
            "code"@,
            "Code '"@ + code@ + "' is invalid: "@ + reason@,
        ),
    }
}

impl ProjectError {
    /// The message of the error.
    pub fn to_string(&self) -> (s: String)
        ensures
            s@ == project_error_text(*self),
    {
        match self {
            ProjectError::NotFound { code } => String::from_str("Project with code '").concat(code.as_str()).concat(
                "' not found",
            ),
            ProjectError::AlreadyExists { code } => String::from_str("Project with code '").concat(
                code.as_str(),
            ).concat("' already exists"),
            ProjectError::InvalidState { current, expected } => String::from_str("Project is in invalid state '")
                .concat(current.as_str())
                .concat("', expected '")
                .concat(expected.as_str())
                .concat("'"),
            ProjectError::ValidationFailed { details } => String::from_str("Project validation failed: ").concat(
                details.as_str(),
            ),
            ProjectError::ModificationNotAllowed { state } => String::from_str("Cannot modify project in state '")
                .concat(state.as_str())
                .concat("'"),
            ProjectError::InvalidDates { reason } => String::from_str("Project dates are invalid: ").concat(
                reason.as_str(),
            ),
            ProjectError::InvalidCode { code, reason } => String::from_str("Project code '").concat(code.as_str())
                .concat("' is invalid: ")
                .concat(reason.as_str()),
        }
    }

    /// The domain error that this error becomes.
    pub fn into_domain_error(self) -> (d: DomainError)
        ensures
            project_error_converted(self, d),
    {
        match self {
            ProjectError::NotFound { code } => DomainError::ProjectNotFound { code },
            ProjectError::AlreadyExists { code } => DomainError::ProjectAlreadyExists { code },
            ProjectError::InvalidState { current, expected } => DomainError::ProjectInvalidState { current, expected },
            ProjectError::ValidationFailed { details } => DomainError::ProjectValidationFailed { details },
            ProjectError::ModificationNotAllowed { state } => DomainError::ProjectInvalidState {
                current: state,
                expected: String::from_str("modifiable state"),
            },
            ProjectError::InvalidDates { reason } => DomainError::ValidationError {
                field: String::from_str("dates"),
                message: reason,
            },
            ProjectError::InvalidCode { code, reason } => DomainError::ValidationError {
                field: String::from_str("code"),
                message: String::from_str("Code '").concat(code.as_str()).concat("' is invalid: ").concat(
                    reason.as_str(),
                ),
            },
        }
    }
}

impl From<ProjectError> for DomainError {
    fn from(err: ProjectError) -> (d: DomainError)
        ensures
            project_error_converted(err, d),
    {
        err.into_domain_error()
    }
}

impl FromSpecImpl<ProjectError> for DomainError {
    /// The conversion is specified by `project_error_converted`, over the texts of the
    /// errors, rather than by a spec function that yields the converted value.
    open spec fn obeys_from_spec() -> bool {
        false
    }

    open spec fn from_spec(v: ProjectError) -> DomainError {
        vstd::pervasive::arbitrary()
    }
}

/// The result of an operation on a project.
pub type ProjectResult<T> = Result<T, ProjectError>;

} // verus!
