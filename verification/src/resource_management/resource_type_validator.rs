//! Checks a resource type against the types that the company configuration allows.

use vstd::prelude::*;
use crate::errors::DomainError;
use crate::text::{join_strings, joined, views};

verus! {

/// Where the company configuration is kept. Only the resource types that it allows
/// matter here.
pub trait ConfigRepository {
    /// The resource types of the stored configuration, or why it could not be loaded.
    fn load_resource_types(&self) -> Result<Vec<String>, DomainError>;
}

/// Validates resource types.
#[derive(Debug, Clone, Copy, PartialEq, Eq)]
pub struct ResourceTypeValidator;

/// The refusal of a resource type that the listed types do not hold.
pub open spec fn invalid_type_message(resource_type: Seq<char>, types: Seq<Seq<char>>) -> Seq<char> {
    "Invalid resource type '"@ + resource_type + "'. Valid types are: "@ + joined(types, ", "@)
}

/// The decision on a resource type, given what loading the configuration gave: any type
/// passes when loading failed or when the configuration lists no type; otherwise the
/// type must be listed, exactly as written.
pub open spec fn type_decision(resource_type: Seq<char>, loaded: Result<Seq<Seq<char>>, DomainError>) -> Option<Seq<char>> {
    match loaded {
        Ok(types) => if types.len() == 0 || types.contains(resource_type) {
            None
        } else {
            Some(invalid_type_message(resource_type, types))
        },
        Err(_) => None,
    }
}

/// Whether a list of strings holds one equal to `x`.
fn holds_text(v: &Vec<String>, x: &str) -> (b: bool)
    ensures
        b == views(v@).contains(x@),
{
    let mut i: usize = 0;
    while i < v.len()
        invariant
            0 <= i <= v.len(),
            forall|j: int| 0 <= j < i ==> v@[j]@ != x@,
        decreases v.len() - i,
    {
        if crate::text::str_eq(v[i].as_str(), x) {
            assert(views(v@)[i as int] == x@);
            return true;
        }
        i = i + 1;
    }
    proof {
        if views(v@).contains(x@) {
            let j = choose|j: int| 0 <= j < views(v@).len() && views(v@)[j] == x@;
            assert(v@[j]@ == x@);
        }
    }
    false
}

impl ResourceTypeValidator {
    /// A validator.
    pub fn new() -> (v: ResourceTypeValidator) {
        ResourceTypeValidator
    }

    /// Decides a resource type given what loading the configuration gave.
    pub fn check_resource_type(&self, resource_type: &str, loaded: &Result<Vec<String>, DomainError>) -> (r: Result<(), String>)
        ensures
            match type_decision(
                resource_type@,
                match loaded {
                    Ok(v) => Ok(views(v@)),
                    Err(e) => Err(*e),
                },
            ) {
                Some(m) => r matches Err(s) && s@ == m,
                None => r is Ok,
            },
    {
        match loaded {
            Ok(types) => {
                if types.len() == 0 {
                    Ok(())
                } else if holds_text(types, resource_type) {
                    Ok(())
                } else {
                    Err(
                        String::from_str("Invalid resource type '").concat(resource_type).concat(
                            "'. Valid types are: ",
                        ).concat(join_strings(types, ", ").as_str()),
                    )
                }
            },
            Err(_) => Ok(()),
        }
    }

    /// Validates a resource type against the configuration that `config_repository`
    /// loads. Whatever loading gives, a refusal names the type and lists the allowed
    /// types, and only a non-empty list that lacks the type leads to one.
    pub fn validate_resource_type<R: ConfigRepository>(&self, resource_type: &str, config_repository: &R) -> (r: Result<(), String>)
        ensures
            r is Ok || exists|types: Seq<Seq<char>>| #![auto]
                type_decision(resource_type@, Ok(types)) == Some(r->Err_0@),
    {
        let loaded = config_repository.load_resource_types();
        let r = self.check_resource_type(resource_type, &loaded);
        proof {
            if r is Err {
                if loaded is Ok {
                    assert(type_decision(resource_type@, Ok(views(loaded->Ok_0@))) == Some(r->Err_0@));
                }
            }
        }
        r
    }

    /// The allowed resource types given what loading the configuration gave: the loaded
    /// types, or the reason that loading failed.
    pub fn valid_types_from(&self, loaded: Result<Vec<String>, DomainError>) -> (r: Result<Vec<String>, String>)
        ensures
            match loaded {
                Ok(types) => r matches Ok(v) && v@ == types@,
                Err(e) => r matches Err(m) && m@ == "Could not load config: "@ + e.text(),
            },
    {
        match loaded {
            Ok(types) => Ok(types),
            Err(e) => Err(String::from_str("Could not load config: ").concat(e.to_text().as_str())),
        }
    }

    /// The resource types that the configuration allows, or why it could not be loaded.
    pub fn get_valid_resource_types<R: ConfigRepository>(&self, config_repository: &R) -> (r: Result<Vec<String>, String>)
        ensures
            r matches Err(m) ==> exists|e: DomainError| m@ == "Could not load config: "@ + e.text(),
    {
        let loaded = config_repository.load_resource_types();
        self.valid_types_from(loaded)
    }
}

} // verus!
