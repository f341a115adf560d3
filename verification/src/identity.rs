//! Fixed-width identities and the derived-address scheme.
use vstd::prelude::*;

verus! {

/// Most seeds that a derivation accepts.
pub const MAX_SEEDS: usize = 16;

/// Most bytes that one seed may hold.
pub const MAX_SEED_LEN: usize = 32;

/// The identity of a program or of an account: 32 opaque bytes.
#[derive(Clone, Copy, Debug, PartialEq, Eq, Hash)]
pub struct Identity {
    pub bytes: [u8; 32],
}

impl View for Identity {
    type V = Seq<u8>;

    open spec fn view(&self) -> Seq<u8> {
        self.bytes@
    }
}

impl Identity {
    /// The identity that holds the given bytes.
    pub fn new(bytes: [u8; 32]) -> (id: Identity)
        ensures
            id@ == bytes@,
            id.bytes == bytes,
    {
        Identity { bytes }
    }

    /// Whether two identities hold the same bytes.
    pub fn same(&self, other: &Identity) -> (r: bool)
        ensures
            r == (self@ == other@),
    {
        let mut i: usize = 0;
        while i < 32
            invariant
                i <= 32,
                forall|k: int| 0 <= k < i ==> self.bytes@[k] == other.bytes@[k],
            decreases 32 - i,
        {
            if self.bytes[i] != other.bytes[i] {
                return false;
            }
            i += 1;
        }
        assert(self@ =~= other@);
        true
    }

    /// The bytes of the identity, as a fresh vector.
    pub fn to_vec(&self) -> (v: Vec<u8>)
        ensures
            v@ == self@,
    {
        let mut v: Vec<u8> = Vec::new();
        let mut i: usize = 0;
        while i < 32
            invariant
                i <= 32,
                v@ == self@.subrange(0, i as int),
            decreases 32 - i,
        {
            v.push(self.bytes[i]);
            assert(v@ =~= self@.subrange(0, i + 1));
            i += 1;
        }
        assert(v@ =~= self@);
        v
    }
}

/// The views of a list of seeds.
pub open spec fn seeds_view(seeds: Seq<Vec<u8>>) -> Seq<Seq<u8>> {
    Seq::new(seeds.len(), |i: int| seeds[i]@)
}

/// The address that the derived-address scheme gives for a program identity
/// and an ordered list of seeds, or `None` where it gives none.
pub uninterp spec fn derived_address(program: Seq<u8>, seeds: Seq<Seq<u8>>) -> Option<Seq<u8>>;

/// Whether a seed list is one for which the scheme can give an address at all:
/// fewer than `MAX_SEEDS` seeds, none longer than `MAX_SEED_LEN`.
pub open spec fn seeds_admissible(seeds: Seq<Seq<u8>>) -> bool {
    &&& seeds.len() < MAX_SEEDS
    &&& forall|i: int| 0 <= i < seeds.len() ==> (#[trigger] seeds[i]).len() <= MAX_SEED_LEN
}

/// The view of an optional identity.
pub open spec fn optional_view(id: Option<Identity>) -> Option<Seq<u8>> {
    match id {
        Some(id) => Some(id@),
        None => None,
    }
}

/// Calls `Pubkey::try_find_program_address` of `anchor_lang::prelude`.
///
/// Trusted: the address returned is a function of the program identity and
/// the seeds alone, named `derived_address`; and no address comes back where
/// there are `MAX_SEEDS` seeds or more, or a seed longer than `MAX_SEED_LEN`.
#[verifier::external_body]
fn find_program_address(program: &Identity, seeds: &Vec<Vec<u8>>) -> (r: Option<Identity>)
    ensures
        optional_view(r) == derived_address(program@, seeds_view(seeds@)),
        !seeds_admissible(seeds_view(seeds@)) ==> r is None,
{
    let parts: Vec<&[u8]> = seeds.iter().map(|s| s.as_slice()).collect();
    let key = anchor_lang::prelude::Pubkey::new_from_array(program.bytes);
    anchor_lang::prelude::Pubkey::try_find_program_address(&parts, &key)
        .map(|found| Identity { bytes: found.0.to_bytes() })
}

/// Derives the address that belongs to a program identity and a seed list.
///
/// The result depends on the two arguments alone: deriving twice from the
/// same program identity and seeds gives the same address.
pub fn derive_address(program: &Identity, seeds: &Vec<Vec<u8>>) -> (r: Option<Identity>)
    ensures
        optional_view(r) == derived_address(program@, seeds_view(seeds@)),
        !seeds_admissible(seeds_view(seeds@)) ==> r is None,
{
    find_program_address(program, seeds)
}

/// Whether an identity is the one that a derivation gave.
pub fn address_matches(derived: &Option<Identity>, identity: &Identity) -> (r: bool)
    ensures
        r == (optional_view(*derived) == Some(identity@)),
{
    match derived {
        Some(address) => address.same(identity),
        None => false,
    }
}

} // verus!
