//! Errors of the domain.

use vstd::prelude::*;

verus! {

/// Errors that the domain reports.
#[derive(Debug, Clone, PartialEq, Eq)]
pub enum DomainError {
    ValidationError { field: String, message: String },
    ProjectNotFound { code: String },
    ProjectAlreadyExists { code: String },
    ProjectInvalidState { current: String, expected: String },
    ProjectValidationFailed { details: String },
    ResourceNotFound { code: String },
    ResourceAlreadyExists { code: String },
    ResourceInvalidState { current: String, expected: String },
    ResourceValidationFailed { details: String },
    ConfigurationError { details: String },
    /// An entity of the given kind that was looked for under an identifier is missing.
    EntityNotFound { entity_type: String, identifier: String },
    /// An error described by its message alone.
    Generic { message: String },
}

/// Result type of domain operations.
pub type DomainResult<T> = Result<T, DomainError>;

impl DomainError {
    /// Whether this is a validation error on the given field with the given message.
    pub open spec fn is_validation(self, field: Seq<char>, message: Seq<char>) -> bool {
        self matches DomainError::ValidationError { field: f, message: m } && f@ == field && m@ == message
    }

    /// The message of the error.
    pub open spec fn text(self) -> Seq<char> {
        match self {
            DomainError::ValidationError { field, message } => "Validation error on '"@ + field@ + "': "@ + message@,
            DomainError::ProjectNotFound { code } => "Project with code '"@ + code@ + "' not found"@,
            DomainError::ProjectAlreadyExists { code } => "Project with code '"@ + code@ + "' already exists"@,
            DomainError::ProjectInvalidState { current, expected } => "Project is in invalid state '"@ + current@
                + "', expected '"@ + expected@ + "'"@,
            DomainError::ProjectValidationFailed { details } => "Project validation failed: "@ + details@,
            DomainError::ResourceNotFound { code } => "Resource with code '"@ + code@ + "' not found"@,
            DomainError::ResourceAlreadyExists { code } => "Resource with code '"@ + code@ + "' already exists"@,
            DomainError::ResourceInvalidState { current, expected } => "Resource is in invalid state '"@ + current@
                + "', expected '"@ + expected@ + "'"@,
            DomainError::ResourceValidationFailed { details } => "Resource validation failed: "@ + details@,
            DomainError::ConfigurationError { details } => "Configuration error: "@ + details@,
            DomainError::EntityNotFound { entity_type, identifier } => entity_type@ + " not found: "@ + identifier@,
            DomainError::Generic { message } => message@,
        }
    }

    /// The message of the error.
    pub fn to_text(&self) -> (s: String)
        ensures
            s@ == self.text(),
    {
        match self {
            DomainError::ValidationError { field, message } => String::from_str("Validation error on '").concat(
                field.as_str(),
            ).concat("': ").concat(message.as_str()),
            DomainError::ProjectNotFound { code } => String::from_str("Project with code '").concat(code.as_str())
                .concat("' not found"),
            DomainError::ProjectAlreadyExists { code } => String::from_str("Project with code '").concat(
                code.as_str(),
            ).concat("' already exists"),
            DomainError::ProjectInvalidState { current, expected } => String::from_str(
                "Project is in invalid state '",
            ).concat(current.as_str()).concat("', expected '").concat(expected.as_str()).concat("'"),
            DomainError::ProjectValidationFailed { details } => String::from_str("Project validation failed: ")
                .concat(details.as_str()),
            DomainError::ResourceNotFound { code } => String::from_str("Resource with code '").concat(code.as_str())
                .concat("' not found"),
            DomainError::ResourceAlreadyExists { code } => String::from_str("Resource with code '").concat(
                code.as_str(),
            ).concat("' already exists"),
            DomainError::ResourceInvalidState { current, expected } => String::from_str(
                "Resource is in invalid state '",
            ).concat(current.as_str()).concat("', expected '").concat(expected.as_str()).concat("'"),
            DomainError::ResourceValidationFailed { details } => String::from_str("Resource validation failed: ")
                .concat(details.as_str()),
            DomainError::ConfigurationError { details } => String::from_str("Configuration error: ").concat(
                details.as_str(),
            ),
            DomainError::EntityNotFound { entity_type, identifier } => entity_type.clone().concat(" not found: ")
                .concat(identifier.as_str()),
            DomainError::Generic { message } => message.clone(),
        }
    }

    /// Whether this is an error described by the given message alone.
    pub open spec fn is_generic(self, message: Seq<char>) -> bool {
        self matches DomainError::Generic { message: m } && m@ == message
    }

    /// An error described by its message alone.
    pub fn generic(message: &str) -> (e: DomainError)
        ensures
            e.is_generic(message@),
    {
        DomainError::Generic { message: String::from_str(message) }
    }

    /// A validation error on a field.
    pub fn validation(field: &str, message: &str) -> (e: DomainError)
        ensures
            e.is_validation(field@, message@),
    {
        DomainError::ValidationError { field: String::from_str(field), message: String::from_str(message) }
    }
}

} // verus!
