//! The ways in which a call can fail.
use vstd::prelude::*;

verus! {

/// Why an account list could not be bound to a context schema.
#[derive(Clone, Copy, Debug, PartialEq, Eq, Structural)]
pub enum ValidationError {
    /// The list does not hold exactly one account for each declared field.
    ArityMismatch,
    /// An account's recorded owner is not the owner that the schema declares.
    OwnerMismatch,
    /// An account that must have signed has not.
    MissingSigner,
    /// An account that must be writable is not marked so.
    NotWritable,
    /// An account's identity is not the address derived from the declared seeds.
    DerivationMismatch,
    /// An account does not stand in the declared relation to an earlier field.
    RelationshipViolation,
}

/// A failure that a handler raises from its own rules.
#[derive(Debug, PartialEq, Eq)]
pub struct HandlerError {
    pub code: u32,
    pub message: String,
}

/// Why a call was aborted.
#[derive(Debug, PartialEq, Eq)]
pub enum DispatchError {
    /// No registered instruction answers to the call.
    UnknownInstruction,
    /// The payload is cut short or malformed at `offset`.
    DecodeError { offset: usize },
    /// The accounts do not meet what the instruction declares.
    Validation(ValidationError),
    /// The handler ran and failed.
    HandlerError(HandlerError),
}

} // verus!
