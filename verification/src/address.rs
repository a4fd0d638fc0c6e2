//! Account addresses.

use vstd::prelude::*;
use solana_program::pubkey::{Pubkey, PubkeyError};
use crate::error::Error;

verus! {

/// Largest number of seeds that an address can be derived from.
pub const MAX_SEEDS: usize = 16;

/// Largest number of bytes in one seed.
pub const MAX_SEED_LEN: usize = 32;

/// A 32-byte account identifier.
#[derive(Clone, Copy, Debug, Eq, Hash)]
pub struct Address {
    pub bytes: [u8; 32],
}

impl View for Address {
    type V = Seq<u8>;

    open spec fn view(&self) -> Seq<u8> {
        self.bytes@
    }
}

impl PartialEq for Address {
    fn eq(&self, other: &Address) -> (r: bool) {
        let mut i: usize = 0;
        while i < 32
            invariant
                i <= 32,
                forall|j: int| 0 <= j < i ==> self.bytes[j] == other.bytes[j],
            decreases 32 - i,
        {
            if self.bytes[i] != other.bytes[i] {
                return false;
            }
            i += 1;
        }
        assert(self.bytes =~= other.bytes);
        true
    }
}

impl vstd::std_specs::cmp::PartialEqSpecImpl for Address {
    open spec fn obeys_eq_spec() -> bool {
        true
    }

    open spec fn eq_spec(&self, other: &Address) -> bool {
        *self == *other
    }
}

impl Address {
    /// The distinguished system address: thirty-two zero bytes.
    pub open spec fn spec_system() -> Address {
        Address { bytes: vstd::array::spec_array_fill_for_copy_type::<u8, 32>(0u8) }
    }

    /// The distinguished system address.
    #[verifier::when_used_as_spec(spec_system)]
    pub fn system() -> (a: Address)
        ensures
            a == Address::spec_system(),
    {
        Address { bytes: [0u8; 32] }
    }

    /// Whether this is the system address.
    pub fn is_system(&self) -> (b: bool)
        ensures
            b == (*self == Address::system()),
    {
        *self == Address::system()
    }
}

/// Two addresses with the same bytes are the same address.
pub proof fn lemma_address_ext(a: Address, b: Address)
    requires
        a@ == b@,
    ensures
        a == b,
{
    assert(a.bytes =~= b.bytes);
}

/// The address whose bytes are `bytes`.
pub open spec fn address_of(bytes: Seq<u8>) -> Address {
    Address { bytes: choose|b: [u8; 32]| b@ == bytes }
}

/// An address is the address of its own bytes.
pub proof fn lemma_address_of_view(a: Address)
    ensures
        address_of(a@) == a,
{
    let b = choose|b: [u8; 32]| b@ == a@;
    assert(a.bytes@ == a@);
    assert(b@ == a@);
    assert(b =~= a.bytes);
}

/// The seeds as byte sequences.
pub open spec fn seed_views(seeds: Seq<Vec<u8>>) -> Seq<Seq<u8>> {
    Seq::new(seeds.len(), |i: int| seeds[i]@)
}

/// There are at most sixteen seeds, of at most thirty-two bytes each.
pub open spec fn seeds_within_limits(seeds: Seq<Seq<u8>>) -> bool {
    &&& seeds.len() <= MAX_SEEDS
    &&& forall|i: int| 0 <= i < seeds.len() ==> (#[trigger] seeds[i]).len() <= MAX_SEED_LEN
}

/// The seeds followed by a one-byte seed that holds `bump`.
pub open spec fn with_bump(seeds: Seq<Seq<u8>>, bump: u8) -> Seq<Seq<u8>> {
    seeds.push(seq![bump])
}

/// The bytes that `Pubkey::create_program_address` of solana_program derives
/// from seeds within the limits and a program address: the digest of the
/// seeds, the program address and a fixed marker, or `None` where that digest
/// is a point of the curve.
pub uninterp spec fn derived_address(seeds: Seq<Seq<u8>>, program: Seq<u8>) -> Option<Seq<u8>>;

/// What deriving an address from seeds and a program address yields.
pub open spec fn derive_spec(seeds: Seq<Seq<u8>>, program: Address) -> Result<Address, Error> {
    if !seeds_within_limits(seeds) {
        Err(Error::MaxSeedLengthExceeded)
    } else {
        match derived_address(seeds, program@) {
            Some(bytes) => Ok(address_of(bytes)),
            None => Err(Error::InvalidSeeds),
        }
    }
}

/// Calls `Pubkey::create_program_address` of solana_program. The contract
/// claims what its source shows: more than sixteen seeds, or a seed of more
/// than thirty-two bytes, is refused as `MaxSeedLengthExceeded`; otherwise
/// the outcome is a function of the seeds and the program address alone,
/// either the address with the derived bytes or, for a digest on the curve,
/// `InvalidSeeds`.
#[verifier::external_body]
fn create_program_address(seeds: &Vec<Vec<u8>>, program: &Address) -> (r: Result<Address, Error>)
    ensures
        r == derive_spec(seed_views(seeds@), *program),
{
    let slices: Vec<&[u8]> = seeds.iter().map(|s| s.as_slice()).collect();
    match Pubkey::create_program_address(&slices, &Pubkey::new_from_array(program.bytes)) {
        Ok(key) => Ok(Address { bytes: key.to_bytes() }),
        Err(PubkeyError::MaxSeedLengthExceeded) => Err(Error::MaxSeedLengthExceeded),
        Err(PubkeyError::InvalidSeeds) => Err(Error::InvalidSeeds),
        Err(PubkeyError::IllegalOwner) => Err(Error::IllegalOwner),
    }
}

/// Calls `Pubkey::try_find_program_address` of solana_program. The contract
/// claims what its source shows: the bumps 255 down to 1 are tried in turn,
/// each as a last one-byte seed; the first that derives an address is
/// returned with it; `None` is returned if none does, or if the seeds with
/// the bump exceed the limits.
#[verifier::external_body]
fn try_find_program_address(seeds: &Vec<Vec<u8>>, program: &Address) -> (r: Option<(Address, u8)>)
    ensures
        !seeds_within_limits(with_bump(seed_views(seeds@), 0)) ==> r is None,
        (match r {
            Some((a, bump)) => {
                &&& bump >= 1
                &&& derived_address(with_bump(seed_views(seeds@), bump), program@) == Some(a@)
                &&& forall|c: u8|
                    bump < c ==> derived_address(
                        #[trigger] with_bump(seed_views(seeds@), c),
                        program@,
                    ) is None
            },
            None => seeds_within_limits(with_bump(seed_views(seeds@), 0)) ==> forall|c: u8|
                1 <= c ==> derived_address(
                    #[trigger] with_bump(seed_views(seeds@), c),
                    program@,
                ) is None,
        }),
{
    let slices: Vec<&[u8]> = seeds.iter().map(|s| s.as_slice()).collect();
    match Pubkey::try_find_program_address(&slices, &Pubkey::new_from_array(program.bytes)) {
        Some((key, bump)) => Some((Address { bytes: key.to_bytes() }, bump)),
        None => None,
    }
}

/// Whether the seeds keep to the limits on their number and their lengths.
pub fn check_seeds(seeds: &Vec<Vec<u8>>) -> (b: bool)
    ensures
        b == seeds_within_limits(seed_views(seeds@)),
{
    if seeds.len() > MAX_SEEDS {
        return false;
    }
    let mut i: usize = 0;
    while i < seeds.len()
        invariant
            i <= seeds.len(),
            seeds.len() <= MAX_SEEDS,
            forall|j: int| 0 <= j < i ==> (#[trigger] seed_views(seeds@)[j]).len() <= MAX_SEED_LEN,
        decreases seeds.len() - i,
    {
        if seeds[i].len() > MAX_SEED_LEN {
            assert(seed_views(seeds@)[i as int].len() > MAX_SEED_LEN);
            return false;
        }
        i += 1;
    }
    true
}

/// Derives the address that belongs to `seeds` under `program`. The result
/// depends on the seeds and the program address alone.
pub fn derive_address(seeds: &Vec<Vec<u8>>, program: &Address) -> (r: Result<Address, Error>)
    ensures
        r == derive_spec(seed_views(seeds@), *program),
{
    create_program_address(seeds, program)
}

/// What the search for a bump seed yields.
pub open spec fn find_spec(seeds: Seq<Seq<u8>>, program: Address, r: Result<(Address, u8), Error>) -> bool {
    match r {
        Ok((a, bump)) => {
            &&& bump >= 1
            &&& derive_spec(with_bump(seeds, bump), program) == Ok::<Address, Error>(a)
            &&& forall|c: u8|
                bump < c ==> derive_spec(#[trigger] with_bump(seeds, c), program) == Err::<
                    Address,
                    Error,
                >(Error::InvalidSeeds)
        },
        Err(e) => if seeds_within_limits(with_bump(seeds, 0)) {
            &&& e == Error::AddressSpaceExhausted
            &&& forall|c: u8|
                1 <= c ==> derive_spec(#[trigger] with_bump(seeds, c), program) == Err::<
                    Address,
                    Error,
                >(Error::InvalidSeeds)
        } else {
            e == Error::MaxSeedLengthExceeded
        },
    }
}

/// Whether the seeds with a bump keep to the limits does not depend on the
/// bump.
pub proof fn lemma_bump_limits(seeds: Seq<Seq<u8>>, b: u8, c: u8)
    ensures
        seeds_within_limits(with_bump(seeds, b)) == seeds_within_limits(with_bump(seeds, c)),
{
    let sb = with_bump(seeds, b);
    let sc = with_bump(seeds, c);
    assert(sb.len() == sc.len());
    if seeds_within_limits(sb) {
        assert forall|i: int| 0 <= i < sc.len() implies (#[trigger] sc[i]).len() <= MAX_SEED_LEN by {
            if i < seeds.len() {
                assert(sb[i] == sc[i]);
            }
        }
    }
    if seeds_within_limits(sc) {
        assert forall|i: int| 0 <= i < sb.len() implies (#[trigger] sb[i]).len() <= MAX_SEED_LEN by {
            if i < seeds.len() {
                assert(sb[i] == sc[i]);
            }
        }
    }
}

/// Searches the bumps from 255 down to 1 for the first that, appended to
/// `seeds` as a last seed, derives an address, and returns the address with
/// that bump.
pub fn find_collision_free(seeds: &Vec<Vec<u8>>, program: &Address) -> (r: Result<(Address, u8), Error>)
    ensures
        find_spec(seed_views(seeds@), *program, r),
{
    let ghost sv = seed_views(seeds@);
    let mut within = seeds.len() < MAX_SEEDS;
    if within {
        within = check_seeds(seeds);
    }
    proof {
        let sb = with_bump(sv, 0);
        if within {
            assert forall|i: int| 0 <= i < sb.len() implies (#[trigger] sb[i]).len() <= MAX_SEED_LEN by {
                if i < sv.len() {
                    assert(sb[i] == sv[i]);
                }
            }
        } else if seeds.len() < MAX_SEEDS {
            let i = choose|i: int| 0 <= i < sv.len() && (#[trigger] sv[i]).len() > MAX_SEED_LEN;
            assert(sb[i] == sv[i]);
        }
        assert(within == seeds_within_limits(sb));
    }
    if !within {
        return Err(Error::MaxSeedLengthExceeded);
    }
    match try_find_program_address(seeds, program) {
        Some((a, bump)) => {
            proof {
                lemma_address_of_view(a);
                lemma_bump_limits(sv, 0, bump);
                assert forall|c: u8| bump < c implies derive_spec(
                    #[trigger] with_bump(sv, c),
                    *program,
                ) == Err::<Address, Error>(Error::InvalidSeeds) by {
                    lemma_bump_limits(sv, 0, c);
                }
            }
            Ok((a, bump))
        },
        None => {
            proof {
                assert forall|c: u8| 1 <= c implies derive_spec(
                    #[trigger] with_bump(sv, c),
                    *program,
                ) == Err::<Address, Error>(Error::InvalidSeeds) by {
                    lemma_bump_limits(sv, 0, c);
                }
            }
            Err(Error::AddressSpaceExhausted)
        },
    }
}

/// Deriving twice from the same seeds under the same program gives the same
/// outcome.
pub proof fn lemma_derive_deterministic(
    seeds_a: Seq<Seq<u8>>,
    program_a: Address,
    seeds_b: Seq<Seq<u8>>,
    program_b: Address,
)
    requires
        seeds_a == seeds_b,
        program_a == program_b,
    ensures
        derive_spec(seeds_a, program_a) == derive_spec(seeds_b, program_b),
{
}

} // verus!
