//! The account validator: binds the accounts of a call to the fields that an
//! instruction declares, checking each declared constraint in order.
use vstd::prelude::*;
use crate::account::{accounts_view, Account, AccountView};
use crate::codec::append_range;
use crate::error::ValidationError;
use crate::identity::{address_matches, derive_address, derived_address, seeds_view, Identity};
use crate::schema::{
    violation_of, Constraint, ConstraintView, ContextSchema, Relation, Seed, SeedView,
};

verus! {

/// Whether a seed can be resolved for the field with index `field`: a seed
/// that names a field names an earlier one.
pub open spec fn seed_resolves(seed: SeedView, field: int) -> bool {
    seed matches SeedView::Field(other) ==> 0 <= other < field
}

/// Whether every seed of a list can be resolved for the field `field`.
pub open spec fn seeds_resolve(seeds: Seq<SeedView>, field: int) -> bool {
    forall|k: int| 0 <= k < seeds.len() ==> seed_resolves(#[trigger] seeds[k], field)
}

/// The bytes that a seed stands for.
pub open spec fn seed_bytes(seed: SeedView, accounts: Seq<AccountView>) -> Seq<u8> {
    match seed {
        SeedView::Literal(bytes) => bytes,
        SeedView::Field(other) => accounts[other].identity,
    }
}

/// The byte strings that a list of seeds stands for.
pub open spec fn resolved_seeds(seeds: Seq<SeedView>, accounts: Seq<AccountView>) -> Seq<Seq<u8>> {
    Seq::new(seeds.len(), |k: int| seed_bytes(seeds[k], accounts))
}

/// Whether the account at `field` stands in the relation to an earlier one.
pub open spec fn relation_holds(
    relation: Relation,
    accounts: Seq<AccountView>,
    field: int,
) -> bool {
    match relation {
        Relation::OwnedBy { field: other } => {
            &&& other < field
            &&& accounts[field].owner == accounts[other as int].identity
        },
        Relation::AuthorizedBy { field: other, offset } => {
            &&& other < field
            &&& offset + 32 <= accounts[field].data.len()
            &&& accounts[field].data.subrange(offset as int, offset + 32)
                == accounts[other as int].identity
        },
    }
}

/// Whether the account at `field` meets a constraint. A derived address or a
/// relation that names a field which is not an earlier one is not met.
pub open spec fn constraint_holds(
    program: Seq<u8>,
    constraint: ConstraintView,
    accounts: Seq<AccountView>,
    field: int,
) -> bool {
    match constraint {
        ConstraintView::Owner(owner) => accounts[field].owner == owner,
        ConstraintView::Signer => accounts[field].signer,
        ConstraintView::Writable => accounts[field].writable,
        ConstraintView::Derived(seeds) => {
            &&& seeds_resolve(seeds, field)
            &&& derived_address(program, resolved_seeds(seeds, accounts)) == Some(
                accounts[field].identity,
            )
        },
        ConstraintView::Related(relation) => relation_holds(relation, accounts, field),
    }
}

/// Whether `(field, check)` is a place in the schema: the constraint number
/// `check` of the field number `field`.
pub open spec fn declared(schema: Seq<Seq<ConstraintView>>, field: int, check: int) -> bool {
    0 <= field < schema.len() && 0 <= check < schema[field].len()
}

/// Whether the check at `(a, b)` comes before the one at `(field, check)`:
/// fields in order, and the constraints of a field in order.
pub open spec fn precedes(a: int, b: int, field: int, check: int) -> bool {
    a < field || (a == field && b < check)
}

/// Whether the constraint at a place of the schema is met.
pub open spec fn holds_at(
    program: Seq<u8>,
    schema: Seq<Seq<ConstraintView>>,
    accounts: Seq<AccountView>,
    field: int,
    check: int,
) -> bool {
    constraint_holds(program, schema[field][check], accounts, field)
}

/// Whether every check before `(field, check)` is met.
pub open spec fn holds_before(
    program: Seq<u8>,
    schema: Seq<Seq<ConstraintView>>,
    accounts: Seq<AccountView>,
    field: int,
    check: int,
) -> bool {
    forall|a: int, b: int|
        declared(schema, a, b) && precedes(a, b, field, check) ==> #[trigger] holds_at(
            program,
            schema,
            accounts,
            a,
            b,
        )
}

/// Whether the check at `(field, check)` is the first that is not met.
pub open spec fn first_violation_at(
    program: Seq<u8>,
    schema: Seq<Seq<ConstraintView>>,
    accounts: Seq<AccountView>,
    field: int,
    check: int,
) -> bool {
    &&& declared(schema, field, check)
    &&& !holds_at(program, schema, accounts, field, check)
    &&& holds_before(program, schema, accounts, field, check)
}

/// Whether the accounts are exactly one for each field and meet every
/// declared constraint.
pub open spec fn satisfied(
    program: Seq<u8>,
    schema: Seq<Seq<ConstraintView>>,
    accounts: Seq<AccountView>,
) -> bool {
    &&& accounts.len() == schema.len()
    &&& forall|a: int, b: int|
        declared(schema, a, b) ==> #[trigger] holds_at(program, schema, accounts, a, b)
}

/// What binding gives: `ArityMismatch` where the list has not one account for
/// each field; else the error of the first check that is not met; else
/// success.
pub open spec fn bind_outcome(
    program: Seq<u8>,
    schema: Seq<Seq<ConstraintView>>,
    accounts: Seq<AccountView>,
) -> Result<(), ValidationError> {
    if accounts.len() != schema.len() {
        Err(ValidationError::ArityMismatch)
    } else if exists|i: int, j: int| first_violation_at(program, schema, accounts, i, j) {
        let (i, j) = choose|i: int, j: int| first_violation_at(program, schema, accounts, i, j);
        Err(violation_of(schema[i][j]))
    } else {
        Ok(())
    }
}

/// At most one check is the first that is not met.
pub proof fn lemma_first_violation_unique(
    program: Seq<u8>,
    schema: Seq<Seq<ConstraintView>>,
    accounts: Seq<AccountView>,
    i: int,
    j: int,
    k: int,
    l: int,
)
    requires
        first_violation_at(program, schema, accounts, i, j),
        first_violation_at(program, schema, accounts, k, l),
    ensures
        i == k,
        j == l,
{
    if precedes(i, j, k, l) {
        assert(holds_at(program, schema, accounts, i, j));
    }
    if precedes(k, l, i, j) {
        assert(holds_at(program, schema, accounts, k, l));
    }
}

/// Binding fails fast: where a check is not met and every check before it, in
/// declared order, is met, binding gives the error of that check and no other.
pub proof fn first_violation_decides(
    program: Seq<u8>,
    schema: Seq<Seq<ConstraintView>>,
    accounts: Seq<AccountView>,
    i: int,
    j: int,
)
    requires
        accounts.len() == schema.len(),
        first_violation_at(program, schema, accounts, i, j),
    ensures
        bind_outcome(program, schema, accounts) == Err::<(), ValidationError>(
            violation_of(schema[i][j]),
        ),
{
    let (k, l) = choose|k: int, l: int| first_violation_at(program, schema, accounts, k, l);
    lemma_first_violation_unique(program, schema, accounts, i, j, k, l);
}

/// Where some check is not met, there is a first one that is not met, and it
/// does not come behind that check.
pub proof fn lemma_first_violation_exists(
    program: Seq<u8>,
    schema: Seq<Seq<ConstraintView>>,
    accounts: Seq<AccountView>,
    i: int,
    j: int,
)
    requires
        declared(schema, i, j),
        !holds_at(program, schema, accounts, i, j),
    ensures
        exists|k: int, l: int|
            first_violation_at(program, schema, accounts, k, l) && !precedes(i, j, k, l),
    decreases i, j,
{
    if holds_before(program, schema, accounts, i, j) {
        assert(first_violation_at(program, schema, accounts, i, j) && !precedes(i, j, i, j));
    } else {
        let (a, b) = choose|a: int, b: int|
            declared(schema, a, b) && precedes(a, b, i, j) && !holds_at(
                program,
                schema,
                accounts,
                a,
                b,
            );
        lemma_first_violation_exists(program, schema, accounts, a, b);
        let (k, l) = choose|k: int, l: int|
            first_violation_at(program, schema, accounts, k, l) && !precedes(a, b, k, l);
        assert(first_violation_at(program, schema, accounts, k, l) && !precedes(i, j, k, l));
    }
}

/// An account list of the wrong length is never bound: binding gives
/// `ArityMismatch`, whatever the accounts hold.
pub proof fn arity_mismatch_fails(
    program: Seq<u8>,
    schema: Seq<Seq<ConstraintView>>,
    accounts: Seq<AccountView>,
)
    requires
        accounts.len() != schema.len(),
    ensures
        bind_outcome(program, schema, accounts) == Err::<(), ValidationError>(
            ValidationError::ArityMismatch,
        ),
{
}

/// Binding succeeds exactly where the accounts are one for each field and
/// meet every declared constraint.
pub proof fn bound_iff_satisfied(
    program: Seq<u8>,
    schema: Seq<Seq<ConstraintView>>,
    accounts: Seq<AccountView>,
)
    ensures
        bind_outcome(program, schema, accounts) is Ok <==> satisfied(program, schema, accounts),
{
    if accounts.len() == schema.len() {
        if satisfied(program, schema, accounts) {
            assert forall|i: int, j: int| !first_violation_at(program, schema, accounts, i, j) by {
                if declared(schema, i, j) {
                    assert(holds_at(program, schema, accounts, i, j));
                }
            }
        } else {
            let (a, b) = choose|a: int, b: int|
                declared(schema, a, b) && !holds_at(program, schema, accounts, a, b);
            lemma_first_violation_exists(program, schema, accounts, a, b);
        }
    }
}

/// A constraint that is not met makes binding fail, wherever it is declared;
/// and its own error is the one given if every check before it is met.
pub proof fn violation_fails(
    program: Seq<u8>,
    schema: Seq<Seq<ConstraintView>>,
    accounts: Seq<AccountView>,
    field: int,
    check: int,
)
    requires
        declared(schema, field, check),
        !holds_at(program, schema, accounts, field, check),
    ensures
        bind_outcome(program, schema, accounts) is Err,
        accounts.len() == schema.len() && holds_before(program, schema, accounts, field, check)
            ==> bind_outcome(program, schema, accounts) == Err::<(), ValidationError>(
            violation_of(schema[field][check]),
        ),
{
    bound_iff_satisfied(program, schema, accounts);
    if accounts.len() == schema.len() && holds_before(program, schema, accounts, field, check) {
        first_violation_decides(program, schema, accounts, field, check);
    }
}

/// An account whose recorded owner is not the declared one is never bound;
/// the error is `OwnerMismatch` where the list has the right length and
/// every check before this one is met.
pub proof fn owner_mismatch_fails(
    program: Seq<u8>,
    schema: Seq<Seq<ConstraintView>>,
    accounts: Seq<AccountView>,
    field: int,
    check: int,
)
    requires
        declared(schema, field, check),
        schema[field][check] matches ConstraintView::Owner(owner) && accounts[field].owner
            != owner,
    ensures
        bind_outcome(program, schema, accounts) is Err,
        accounts.len() == schema.len() && holds_before(program, schema, accounts, field, check)
            ==> bind_outcome(program, schema, accounts) == Err::<(), ValidationError>(
            ValidationError::OwnerMismatch,
        ),
{
    violation_fails(program, schema, accounts, field, check);
}

/// An account that must have signed and has not is never bound; the error is
/// `MissingSigner` where the list has the right length and every check
/// before this one is met.
pub proof fn missing_signer_fails(
    program: Seq<u8>,
    schema: Seq<Seq<ConstraintView>>,
    accounts: Seq<AccountView>,
    field: int,
    check: int,
)
    requires
        declared(schema, field, check),
        schema[field][check] == ConstraintView::Signer,
        !accounts[field].signer,
    ensures
        bind_outcome(program, schema, accounts) is Err,
        accounts.len() == schema.len() && holds_before(program, schema, accounts, field, check)
            ==> bind_outcome(program, schema, accounts) == Err::<(), ValidationError>(
            ValidationError::MissingSigner,
        ),
{
    violation_fails(program, schema, accounts, field, check);
}

/// An account whose identity is not the address derived from the declared
/// seeds and the program identity is never bound; the error is
/// `DerivationMismatch` where the list has the right length and every check
/// before this one is met.
pub proof fn derivation_mismatch_fails(
    program: Seq<u8>,
    schema: Seq<Seq<ConstraintView>>,
    accounts: Seq<AccountView>,
    field: int,
    check: int,
)
    requires
        declared(schema, field, check),
        schema[field][check] matches ConstraintView::Derived(seeds) && derived_address(
            program,
            resolved_seeds(seeds, accounts),
        ) != Some(accounts[field].identity),
    ensures
        bind_outcome(program, schema, accounts) is Err,
        accounts.len() == schema.len() && holds_before(program, schema, accounts, field, check)
            ==> bind_outcome(program, schema, accounts) == Err::<(), ValidationError>(
            ValidationError::DerivationMismatch,
        ),
{
    violation_fails(program, schema, accounts, field, check);
}

/// Whether `data` holds the bytes of `identity` from `offset` on.
pub fn holds_identity(data: &[u8], offset: usize, identity: &Identity) -> (r: bool)
    ensures
        r == (offset + 32 <= data@.len() && data@.subrange(offset as int, offset + 32)
            == identity@),
{
    let len = data.len();
    if offset > len || len - offset < 32 {
        return false;
    }
    let mut i: usize = 0;
    while i < 32
        invariant
            i <= 32,
            offset + 32 <= data@.len() == len,
            forall|k: int| 0 <= k < i ==> data@[offset + k] == identity@[k],
        decreases 32 - i,
    {
        if data[offset + i] != identity.bytes[i] {
            assert(data@.subrange(offset as int, offset + 32)[i as int] != identity@[i as int]);
            return false;
        }
        i += 1;
    }
    assert(data@.subrange(offset as int, offset + 32) =~= identity@);
    true
}

/// Whether the account at `field` stands in the relation to an earlier one.
pub fn check_relation(relation: Relation, accounts: &[Account], field: usize) -> (r: bool)
    requires
        field < accounts@.len(),
    ensures
        r == relation_holds(relation, accounts_view(accounts@), field as int),
{
    match relation {
        Relation::OwnedBy { field: other } => {
            other < field && accounts[field].owner.same(&accounts[other].identity)
        },
        Relation::AuthorizedBy { field: other, offset } => {
            other < field && holds_identity(
                accounts[field].data.as_slice(),
                offset,
                &accounts[other].identity,
            )
        },
    }
}

/// The byte strings that the seeds stand for, or `None` where a seed names a
/// field that is not an earlier one than `field`.
pub fn resolve_seeds(seeds: &Vec<Seed>, accounts: &[Account], field: usize) -> (r: Option<
    Vec<Vec<u8>>,
>)
    requires
        field < accounts@.len(),
    ensures
        match r {
            Some(list) => {
                &&& seeds_resolve(crate::schema::seed_views(seeds@), field as int)
                &&& seeds_view(list@) == resolved_seeds(
                    crate::schema::seed_views(seeds@),
                    accounts_view(accounts@),
                )
            },
            None => !seeds_resolve(crate::schema::seed_views(seeds@), field as int),
        },
{
    let ghost views = crate::schema::seed_views(seeds@);
    let ghost all = accounts_view(accounts@);
    let mut list: Vec<Vec<u8>> = Vec::new();
    let mut k: usize = 0;
    while k < seeds.len()
        invariant
            k <= seeds@.len(),
            field < accounts@.len(),
            views == crate::schema::seed_views(seeds@),
            all == accounts_view(accounts@),
            list@.len() == k,
            forall|n: int| 0 <= n < k ==> seed_resolves(#[trigger] views[n], field as int),
            forall|n: int| 0 <= n < k ==> (#[trigger] list@[n])@ == seed_bytes(views[n], all),
        decreases seeds@.len() - k,
    {
        match &seeds[k] {
            Seed::Literal(bytes) => {
                let mut copy: Vec<u8> = Vec::new();
                append_range(&mut copy, bytes.as_slice(), 0, bytes.len());
                assert(copy@ =~= bytes@);
                list.push(copy);
            },
            Seed::Field(other) => {
                if *other >= field {
                    assert(!seed_resolves(views[k as int], field as int));
                    return None;
                }
                list.push(accounts[*other].identity.to_vec());
            },
        }
        k += 1;
    }
    assert(seeds_view(list@) =~= resolved_seeds(views, all));
    Some(list)
}

/// Whether the account at `field` meets a constraint.
pub fn check_constraint(
    program: &Identity,
    constraint: &Constraint,
    accounts: &[Account],
    field: usize,
) -> (r: bool)
    requires
        field < accounts@.len(),
    ensures
        r == constraint_holds(program@, constraint@, accounts_view(accounts@), field as int),
{
    match constraint {
        Constraint::Owner(owner) => accounts[field].owner.same(owner),
        Constraint::Signer => accounts[field].signer,
        Constraint::Writable => accounts[field].writable,
        Constraint::Derived(seeds) => {
            match resolve_seeds(seeds, accounts, field) {
                Some(list) => {
                    let derived = derive_address(program, &list);
                    address_matches(&derived, &accounts[field].identity)
                },
                None => false,
            }
        },
        Constraint::Related(relation) => check_relation(*relation, accounts, field),
    }
}

/// An account list bound to a schema: every account meets every constraint
/// that its field declares.
#[derive(Debug)]
pub struct BoundContext<'a> {
    program: Identity,
    schema: &'a ContextSchema,
    accounts: &'a [Account],
}

impl<'a> BoundContext<'a> {
    #[verifier::type_invariant]
    spec fn bound(self) -> bool {
        satisfied(self.program@, self.schema@, accounts_view(self.accounts@))
    }

    /// The program identity that the context was bound for.
    pub closed spec fn program(self) -> Seq<u8> {
        self.program@
    }

    /// The schema that the context was bound to.
    pub closed spec fn schema(self) -> Seq<Seq<ConstraintView>> {
        self.schema@
    }

    /// The bound accounts, one for each field of the schema.
    pub closed spec fn accounts(self) -> Seq<AccountView> {
        accounts_view(self.accounts@)
    }

    /// Does nothing; states that a bound context meets its schema, whoever
    /// holds it.
    pub fn guarantee(&self)
        ensures
            satisfied(self.program(), self.schema(), self.accounts()),
    {
        proof {
            use_type_invariant(self);
        }
    }

    /// The program identity that the context was bound for.
    pub fn program_identity(&self) -> (id: Identity)
        ensures
            id@ == self.program(),
    {
        self.program
    }

    /// The number of bound accounts.
    pub fn len(&self) -> (n: usize)
        ensures
            n == self.accounts().len(),
    {
        self.accounts.len()
    }

    /// The account bound to the field with index `field`, if there is one.
    pub fn account(&self, field: usize) -> (r: Option<&'a Account>)
        ensures
            match r {
                Some(account) => field < self.accounts().len() && account@
                    == self.accounts()[field as int],
                None => field >= self.accounts().len(),
            },
    {
        if field < self.accounts.len() {
            Some(&self.accounts[field])
        } else {
            None
        }
    }
}

/// Binds an account list to a context schema for a program.
///
/// Fails with `ArityMismatch` unless the list holds exactly one account for
/// each field. Otherwise the checks run field by field, and within a field
/// in the order in which its constraints are declared; the first that is not
/// met gives the error, and nothing is bound. Where all are met, the context
/// holds the accounts as they were given.
pub fn bind<'a>(program: &Identity, schema: &'a ContextSchema, accounts: &'a [Account]) -> (r:
    Result<BoundContext<'a>, ValidationError>)
    ensures
        match r {
            Ok(context) => {
                &&& bind_outcome(program@, schema@, accounts_view(accounts@)) is Ok
                &&& satisfied(program@, schema@, accounts_view(accounts@))
                &&& context.program() == program@
                &&& context.schema() == schema@
                &&& context.accounts() == accounts_view(accounts@)
            },
            Err(e) => bind_outcome(program@, schema@, accounts_view(accounts@)) == Err::<
                (),
                ValidationError,
            >(e),
        },
{
    let ghost p = program@;
    let ghost s = schema@;
    let ghost all = accounts_view(accounts@);
    if accounts.len() != schema.fields.len() {
        return Err(ValidationError::ArityMismatch);
    }
    let mut i: usize = 0;
    while i < schema.fields.len()
        invariant
            i <= schema.fields@.len(),
            accounts@.len() == schema.fields@.len(),
            p == program@,
            s == schema@,
            all == accounts_view(accounts@),
            forall|a: int, b: int|
                declared(s, a, b) && a < i ==> #[trigger] holds_at(p, s, all, a, b),
        decreases schema.fields@.len() - i,
    {
        let field = &schema.fields[i];
        let mut j: usize = 0;
        while j < field.constraints.len()
            invariant
                i < schema.fields@.len(),
                accounts@.len() == schema.fields@.len(),
                field == &schema.fields@[i as int],
                j <= field.constraints@.len(),
                p == program@,
                s == schema@,
                all == accounts_view(accounts@),
                forall|a: int, b: int|
                    declared(s, a, b) && precedes(a, b, i as int, j as int) ==> #[trigger] holds_at(
                        p,
                        s,
                        all,
                        a,
                        b,
                    ),
            decreases field.constraints@.len() - j,
        {
            let constraint = &field.constraints[j];
            assert(s[i as int][j as int] == constraint@);
            if !check_constraint(program, constraint, accounts, i) {
                proof {
                    assert(first_violation_at(p, s, all, i as int, j as int));
                    first_violation_decides(p, s, all, i as int, j as int);
                }
                return Err(constraint.violation());
            }
            assert(holds_at(p, s, all, i as int, j as int));
            j += 1;
        }
        i += 1;
    }
    proof {
        assert forall|a: int, b: int| declared(s, a, b) implies #[trigger] holds_at(
            p,
            s,
            all,
            a,
            b,
        ) by {}
    }
    Ok(BoundContext { program: *program, schema, accounts })
}

} // verus!
