//! Context schemas: what an instruction declares of the accounts it takes.
use vstd::prelude::*;
use crate::error::ValidationError;
use crate::identity::Identity;

verus! {

/// One seed of a derived address.
#[derive(Debug, PartialEq, Eq)]
pub enum Seed {
    /// The bytes as written.
    Literal(Vec<u8>),
    /// The identity of the account bound to the field with this index.
    Field(usize),
}

/// What a `Seed` holds.
pub enum SeedView {
    Literal(Seq<u8>),
    Field(int),
}

impl View for Seed {
    type V = SeedView;

    open spec fn view(&self) -> SeedView {
        match self {
            Seed::Literal(bytes) => SeedView::Literal(bytes@),
            Seed::Field(index) => SeedView::Field(*index as int),
        }
    }
}

/// A relation of an account to the account bound to another field.
#[derive(Clone, Copy, Debug, PartialEq, Eq, Structural)]
pub enum Relation {
    /// The account's recorded owner is the identity of the other account.
    OwnedBy { field: usize },
    /// The account's stored state holds, from `offset` on, the identity of
    /// the other account.
    AuthorizedBy { field: usize, offset: usize },
}

/// One constraint on the account bound to a field.
#[derive(Debug, PartialEq, Eq)]
pub enum Constraint {
    /// The account's recorded owner is this identity.
    Owner(Identity),
    /// The account has signed.
    Signer,
    /// The account is marked writable.
    Writable,
    /// The account's identity is the address derived from these seeds and
    /// the program identity.
    Derived(Vec<Seed>),
    /// The account stands in this relation to an earlier field.
    Related(Relation),
}

/// What a `Constraint` holds.
pub enum ConstraintView {
    Owner(Seq<u8>),
    Signer,
    Writable,
    Derived(Seq<SeedView>),
    Related(Relation),
}

/// The views of a list of seeds.
pub open spec fn seed_views(seeds: Seq<Seed>) -> Seq<SeedView> {
    Seq::new(seeds.len(), |i: int| seeds[i]@)
}

impl View for Constraint {
    type V = ConstraintView;

    open spec fn view(&self) -> ConstraintView {
        match self {
            Constraint::Owner(owner) => ConstraintView::Owner(owner@),
            Constraint::Signer => ConstraintView::Signer,
            Constraint::Writable => ConstraintView::Writable,
            Constraint::Derived(seeds) => ConstraintView::Derived(seed_views(seeds@)),
            Constraint::Related(relation) => ConstraintView::Related(*relation),
        }
    }
}

/// One declared field of a context: its name and its constraints, in the
/// order in which they are checked.
#[derive(Debug, PartialEq, Eq)]
pub struct FieldSchema {
    pub name: String,
    pub constraints: Vec<Constraint>,
}

impl View for FieldSchema {
    type V = Seq<ConstraintView>;

    open spec fn view(&self) -> Seq<ConstraintView> {
        Seq::new(self.constraints@.len(), |i: int| self.constraints@[i]@)
    }
}

/// The accounts that an instruction takes: one field for each, in order.
#[derive(Debug, PartialEq, Eq)]
pub struct ContextSchema {
    pub fields: Vec<FieldSchema>,
}

impl View for ContextSchema {
    type V = Seq<Seq<ConstraintView>>;

    open spec fn view(&self) -> Seq<Seq<ConstraintView>> {
        Seq::new(self.fields@.len(), |i: int| self.fields@[i]@)
    }
}

/// The error that a violated constraint gives.
pub open spec fn violation_of(constraint: ConstraintView) -> ValidationError {
    match constraint {
        ConstraintView::Owner(_) => ValidationError::OwnerMismatch,
        ConstraintView::Signer => ValidationError::MissingSigner,
        ConstraintView::Writable => ValidationError::NotWritable,
        ConstraintView::Derived(_) => ValidationError::DerivationMismatch,
        ConstraintView::Related(_) => ValidationError::RelationshipViolation,
    }
}

impl Constraint {
    /// The error that a violation of this constraint gives.
    pub fn violation(&self) -> (e: ValidationError)
        ensures
            e == violation_of(self@),
    {
        match self {
            Constraint::Owner(_) => ValidationError::OwnerMismatch,
            Constraint::Signer => ValidationError::MissingSigner,
            Constraint::Writable => ValidationError::NotWritable,
            Constraint::Derived(_) => ValidationError::DerivationMismatch,
            Constraint::Related(_) => ValidationError::RelationshipViolation,
        }
    }
}

impl ContextSchema {
    /// A schema that declares no field.
    pub fn empty() -> (schema: ContextSchema)
        ensures
            schema@ == Seq::<Seq<ConstraintView>>::empty(),
    {
        let schema = ContextSchema { fields: Vec::new() };
        assert(schema@ =~= Seq::<Seq<ConstraintView>>::empty());
        schema
    }

    /// The number of declared fields.
    pub fn arity(&self) -> (n: usize)
        ensures
            n == self@.len(),
    {
        self.fields.len()
    }
}

} // verus!
