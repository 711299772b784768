//! The typed errors the store reports.  Every failure of a mutating or
//! querying call is one of these; none is retried internally.

use vstd::prelude::*;

verus! {

#[derive(Debug)]
pub enum ContractError {
    /// The formatted id resolves to a link that has been soft-deleted.
    DeletedCyberlink { fid: String },
    /// The formatted id has never been assigned.
    NotFound { fid: String },
    /// Exactly one endpoint of a pair was given.
    InvalidCyberlink { from: String, to: String, type_: String },
    /// The declared type does not resolve to a live link.
    TypeNotExists { type_: String },
    /// The `from` endpoint does not resolve to a live link.
    FromNotExists { from: String },
    /// The `to` endpoint does not resolve to a live link.
    ToNotExists { to: String },
    /// An endpoint's type breaks the declared type's from/to constraint.
    TypeConflict {
        type_: String,
        from: String,
        to: String,
        expected_type: String,
        expected_from: String,
        expected_to: String,
        received_type: String,
        received_from: String,
        received_to: String,
    },
    /// A caller-supplied name contains the reserved separator character.
    InvalidNameFormat { name: String },
    /// A caller-supplied name is already mapped; formatted ids are never
    /// reassigned, even across deletion.
    NameTaken { name: String },
    /// The capability check denied the operation.
    Unauthorized {},
    /// Neither or both of the two endpoint-selection parameters were given.
    InvalidLinkSpecification {},
}

/// The rendering `text` produces for each error.
pub open spec fn error_text(e: ContractError) -> Seq<char> {
    match e {
        ContractError::DeletedCyberlink { fid } => "deleted cyberlink: "@ + fid@,
        ContractError::NotFound { fid } => "not found: "@ + fid@,
        ContractError::InvalidCyberlink { from, to, type_ } =>
            "invalid cyberlink: from '"@ + from@ + "', to '"@ + to@ + "', type '"@ + type_@
                + "'"@,
        ContractError::TypeNotExists { type_ } => "type not exists: "@ + type_@,
        ContractError::FromNotExists { from } => "from not exists: "@ + from@,
        ContractError::ToNotExists { to } => "to not exists: "@ + to@,
        ContractError::TypeConflict {
            expected_from,
            expected_to,
            received_from,
            received_to,
            ..
        } => "type conflict: expected from '"@ + expected_from@ + "', to '"@ + expected_to@
            + "'; received from '"@ + received_from@ + "', to '"@ + received_to@ + "'"@,
        ContractError::InvalidNameFormat { name } => "invalid name format: '"@ + name@
            + "' contains a colon"@,
        ContractError::NameTaken { name } => "name already taken: "@ + name@,
        ContractError::Unauthorized {  } => "unauthorized"@,
        ContractError::InvalidLinkSpecification {  } => "invalid link specification"@,
    }
}

impl ContractError {
    /// A human-readable rendering of the error.
    pub fn text(&self) -> (r: String)
        ensures
            r@ == error_text(*self),
    {
        match self {
            ContractError::DeletedCyberlink { fid } => {
                let mut s = String::from_str("deleted cyberlink: ");
                s.append(fid.as_str());
                s
            },
            ContractError::NotFound { fid } => {
                let mut s = String::from_str("not found: ");
                s.append(fid.as_str());
                s
            },
            ContractError::InvalidCyberlink { from, to, type_ } => {
                let mut s = String::from_str("invalid cyberlink: from '");
                s.append(from.as_str());
                s.append("', to '");
                s.append(to.as_str());
                s.append("', type '");
                s.append(type_.as_str());
                s.append("'");
                s
            },
            ContractError::TypeNotExists { type_ } => {
                let mut s = String::from_str("type not exists: ");
                s.append(type_.as_str());
                s
            },
            ContractError::FromNotExists { from } => {
                let mut s = String::from_str("from not exists: ");
                s.append(from.as_str());
                s
            },
            ContractError::ToNotExists { to } => {
                let mut s = String::from_str("to not exists: ");
                s.append(to.as_str());
                s
            },
            ContractError::TypeConflict {
                expected_from,
                expected_to,
                received_from,
                received_to,
                ..
            } => {
                let mut s = String::from_str("type conflict: expected from '");
                s.append(expected_from.as_str());
                s.append("', to '");
                s.append(expected_to.as_str());
                s.append("'; received from '");
                s.append(received_from.as_str());
                s.append("', to '");
                s.append(received_to.as_str());
                s.append("'");
                s
            },
            ContractError::InvalidNameFormat { name } => {
                let mut s = String::from_str("invalid name format: '");
                s.append(name.as_str());
                s.append("' contains a colon");
                s
            },
            ContractError::NameTaken { name } => {
                let mut s = String::from_str("name already taken: ");
                s.append(name.as_str());
                s
            },
            ContractError::Unauthorized {  } => String::from_str("unauthorized"),
            ContractError::InvalidLinkSpecification {  } => String::from_str(
                "invalid link specification",
            ),
        }
    }
}

} // verus!
