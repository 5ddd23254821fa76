pub mod any_resource;
pub mod errors;
pub mod resource;
pub mod resource_type_validator;
pub mod state;
