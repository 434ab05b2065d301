//! Plain-value view of the runtime objects that the program handlers read:
//! account ids, PDA seeds, and the few facts a handler checks of an account.
use crate::program_id::ProgramId;
use vstd::prelude::*;

verus! {

/// A 32-byte account id.
pub type AccountId = [u8; 32];

/// A 32-byte program-derived-account seed.
pub type PdaSeed = [u8; 32];

/// What a handler reads of an account it is handed.
#[derive(Debug, Clone, Copy, PartialEq, Eq)]
pub struct AccountInput {
    /// The account's id.
    pub account_id: AccountId,
    /// Whether the transaction (or the calling program) authorised it.
    pub is_authorized: bool,
    /// Whether the account still equals the runtime's default account
    /// (never claimed, no balance, no data).
    pub is_default: bool,
    /// The program that owns the account.
    pub program_owner: ProgramId,
}

/// How a post-state asks the runtime to claim an account.
#[derive(Debug, Clone, Copy, PartialEq, Eq)]
pub enum Claim {
    /// Claimed for the executing program on the strength of the account's
    /// own authorisation.
    Authorized,
    /// Claimed as the executing program's PDA under this seed.
    Pda(PdaSeed),
}

/// Whether two account ids are the same id.
pub fn account_ids_equal(a: &AccountId, b: &AccountId) -> (r: bool)
    ensures
        r == (*a == *b),
{
    let mut i: usize = 0;
    while i < 32
        invariant
            i <= 32,
            forall|k: int| 0 <= k < i ==> a[k] == b[k],
        decreases 32 - i,
    {
        if a[i] != b[i] {
            return false;
        }
        i += 1;
    }
    assert(*a =~= *b);
    true
}

/// Whether two program ids are the same id.
pub fn program_ids_equal(a: &ProgramId, b: &ProgramId) -> (r: bool)
    ensures
        r == (*a == *b),
{
    let mut i: usize = 0;
    while i < 8
        invariant
            i <= 8,
            forall|k: int| 0 <= k < i ==> a[k] == b[k],
        decreases 8 - i,
    {
        if a[i] != b[i] {
            return false;
        }
        i += 1;
    }
    assert(*a =~= *b);
    true
}

} // verus!
