//! The vault probe program: handlers that take the pre-states they were given
//! and decide the post-states and chained calls. An `Err` is the program's
//! error channel: the runtime fails the whole transaction.
//!
//! Account data is handled as decoded values: a handler that reads the state
//! account takes its decoded `VaultState` (`None` when the data does not
//! decode), and a written state is returned as a value.
use crate::irm::{spec_utilization, utilization};
use crate::math::{mul_div_down, spec_mul_div_down, spec_mul_div_up, w_div_up};
use crate::program_id::ProgramId;
use crate::runtime::{account_ids_equal, program_ids_equal, AccountId, AccountInput, Claim, PdaSeed};
use crate::seeds::{
    spec_padded,
    spike_seed_text,
    state_seed,
    state_text,
    vault_seed,
    vault_text,
};
use crate::shares::{spec_to_assets, spec_to_shares, to_assets_down, to_shares_up};
use crate::WAD;
use vstd::prelude::*;
use vstd::wrapping::u128_specs;

verus! {

/// Instruction set of the probe program.
#[derive(Debug, Clone, Copy, PartialEq, Eq, Structural)]
pub enum Instruction {
    /// Claim the state PDA and, via a chained token `InitializeAccount`,
    /// the vault PDA as a token holding owned by the token program.
    Init,
    /// Anyone credits the vault: chained token `Transfer` user → vault.
    PayIn { amount: u128 },
    /// Program debits the vault under PDA seed: chained `Transfer` vault →
    /// recipient, then a chained self-call `Internal { must_fail }`.
    /// `wrong_seed` authorises the debit with a seed that derives no account.
    PayOut { amount: u128, then_fail: bool, wrong_seed: bool },
    /// Chain `n` self-calls to `Internal { must_fail: false }`.
    Fanout { n: u32 },
    /// Run `iters` rounds of share/health math and resize the state's `pad`
    /// to `pad` bytes. No chained calls.
    Stress { iters: u32, pad: u32 },
    /// Internal entrypoint: only reachable through a chained call from self.
    Internal { must_fail: bool },
}

/// Instructions of the token program that the vault program chains into.
#[derive(Debug, Clone, Copy, PartialEq, Eq, Structural)]
pub enum TokenInstruction {
    /// Initialise a fungible holding.
    InitializeAccount,
    /// Move `amount_to_transfer` from the first account to the second.
    Transfer { amount_to_transfer: u128 },
}

/// State PDA contents.
#[derive(Debug, Clone, PartialEq, Eq)]
pub struct VaultState {
    /// Incremented by every `PayIn` / `PayOut` before the chained calls run.
    pub ops: u64,
    /// Incremented by `Internal`.
    pub internal_hits: u64,
    /// The vault account this state governs.
    pub vault: AccountId,
    /// Ballast for the account-size sweep.
    pub pad: Vec<u8>,
}

/// The mathematical content of a `VaultState`.
pub struct VaultStateView {
    pub ops: u64,
    pub internal_hits: u64,
    pub vault: AccountId,
    pub pad: Seq<u8>,
}

impl View for VaultState {
    type V = VaultStateView;

    open spec fn view(&self) -> VaultStateView {
        VaultStateView {
            ops: self.ops,
            internal_hits: self.internal_hits,
            vault: self.vault,
            pad: self.pad@,
        }
    }
}

impl Default for VaultState {
    /// The empty state: no ops, no internal hits, the all-zero vault id, no pad.
    fn default() -> (st: Self)
        ensures
            st.ops == 0,
            st.internal_hits == 0,
            st.vault@ == Seq::new(32, |i: int| 0u8),
            st.pad@.len() == 0,
    {
        let st = VaultState { ops: 0, internal_hits: 0, vault: [0u8; 32], pad: Vec::new() };
        assert(st.vault@ =~= Seq::new(32, |i: int| 0u8));
        st
    }
}

/// Why a handler fails the transaction.
#[derive(Debug, Clone, Copy, PartialEq, Eq, Structural)]
pub enum VaultError {
    /// `Init` was given a state account that is not the default account.
    StateNotUninitialised,
    /// `Init` was given a vault account that is not the default account.
    VaultNotUninitialised,
    /// The state account is not the program's state PDA.
    StateIdMismatch,
    /// The vault account is not the program's vault PDA.
    VaultIdMismatch,
    /// `PayIn`'s paying holding is not authorised.
    PayerNotAuthorised,
    /// The state account's data does not decode as a `VaultState`.
    StateUnreadable,
    /// The vault account is not the one the state governs.
    VaultDoesNotMatchState,
    /// `ops` would overflow.
    OpsOverflow,
    /// `internal_hits` would overflow.
    HitsOverflow,
    /// `Internal` was called by another program.
    NotCalledBySelf,
    /// `Internal` was asked to fail.
    AskedToFail,
}

/// Which of the accounts a handler was handed.
#[derive(Debug, Clone, Copy, PartialEq, Eq, Structural)]
pub enum Role {
    State,
    Vault,
    TokenDefinition,
    UserHolding,
    Recipient,
}

/// An account handed on to a chained call.
pub enum CallAccount {
    /// The account as the handler was given it.
    Given(Role),
    /// The account as given, marked authorised by this program.
    GivenAuthorized(Role),
    /// The state account as it will be once this execution's post-states are
    /// applied, with this state written in it; not authorised.
    PredictedState(VaultState),
}

/// The instruction a chained call carries.
pub enum CallInstruction {
    Token(TokenInstruction),
    Vault(Instruction),
}

/// A chained call: run `program_id` on `accounts` with `instruction`,
/// authorising this program's PDAs derived from `pda_seeds`.
pub struct ChainedCallPlan {
    pub program_id: ProgramId,
    pub accounts: Vec<CallAccount>,
    pub instruction: CallInstruction,
    pub pda_seeds: Vec<PdaSeed>,
}

/// The post-state of one account the handler was given.
pub enum PostPlan {
    /// The account, unchanged.
    Unchanged(Role),
    /// The state account with `state` written in it, claimed as `claim` says.
    StateWritten { state: VaultState, claim: Option<Claim> },
}

/// A handler's output: one post-state per account it was given, and the
/// chained calls, in order.
pub struct Output {
    pub posts: Vec<PostPlan>,
    pub calls: Vec<ChainedCallPlan>,
}

/// `p` writes the state `st` with the claim `claim`.
pub open spec fn writes_state(p: PostPlan, st: VaultStateView, claim: Option<Claim>) -> bool {
    p matches PostPlan::StateWritten { state, claim: c } && state@ == st && c == claim
}

/// `a` is the predicted state account holding `st`.
pub open spec fn is_predicted(a: CallAccount, st: VaultStateView) -> bool {
    a matches CallAccount::PredictedState(s) && s@ == st
}

/// `c` is a call to the token program `token_program` with `instruction`.
pub open spec fn is_token_call(
    c: ChainedCallPlan,
    token_program: ProgramId,
    accounts: Seq<CallAccount>,
    instruction: TokenInstruction,
    seeds: Seq<Seq<u8>>,
) -> bool {
    &&& c.program_id == token_program
    &&& c.accounts@ == accounts
    &&& c.instruction == CallInstruction::Token(instruction)
    &&& c.pda_seeds@.len() == seeds.len()
    &&& forall|i: int| 0 <= i < seeds.len() ==> (#[trigger] c.pda_seeds@[i])@ == seeds[i]
}

/// `c` is a self-call to `Internal { must_fail }` on the predicted state `st`.
pub open spec fn is_internal_call(
    c: ChainedCallPlan,
    self_program_id: ProgramId,
    st: VaultStateView,
    must_fail: bool,
) -> bool {
    &&& c.program_id == self_program_id
    &&& c.accounts@.len() == 1
    &&& is_predicted(c.accounts@[0], st)
    &&& c.instruction == CallInstruction::Vault(Instruction::Internal { must_fail })
    &&& c.pda_seeds@.len() == 0
}

/// `st` with `ops` one higher.
pub open spec fn bumped_ops(st: VaultStateView) -> VaultStateView {
    VaultStateView { ops: (st.ops + 1) as u64, ..st }
}

/// `st` with `internal_hits` raised by `k`.
pub open spec fn raised_hits(st: VaultStateView, k: int) -> VaultStateView {
    VaultStateView { internal_hits: (st.internal_hits + k) as u64, ..st }
}

/// A copy of `st`.
fn copy_state(st: &VaultState) -> (c: VaultState)
    ensures
        c@ == st@,
{
    let pad = st.pad.clone();
    assert(pad@ =~= st.pad@);
    VaultState { ops: st.ops, internal_hits: st.internal_hits, vault: st.vault, pad }
}

/// Why `init` refuses, if it does.
pub open spec fn spec_init_error(
    state: AccountInput,
    vault: AccountInput,
    expected_state_id: AccountId,
    expected_vault_id: AccountId,
) -> Option<VaultError> {
    if !state.is_default {
        Some(VaultError::StateNotUninitialised)
    } else if !vault.is_default {
        Some(VaultError::VaultNotUninitialised)
    } else if state.account_id != expected_state_id {
        Some(VaultError::StateIdMismatch)
    } else if vault.account_id != expected_vault_id {
        Some(VaultError::VaultIdMismatch)
    } else {
        None
    }
}

/// `Init`: claim the state PDA under the state seed and ask the token program
/// (the token definition's owner) to initialise the vault as a fungible
/// holding, authorised by the vault seed. `expected_state_id` and
/// `expected_vault_id` are the program's state and vault PDA ids.
pub fn init(
    state: &AccountInput,
    vault: &AccountInput,
    token_definition: &AccountInput,
    expected_state_id: AccountId,
    expected_vault_id: AccountId,
) -> (r: Result<Output, VaultError>)
    ensures
        r is Err <==> spec_init_error(*state, *vault, expected_state_id, expected_vault_id) is Some,
        r matches Err(e) ==> spec_init_error(*state, *vault, expected_state_id, expected_vault_id)
            == Some(e),
        r matches Ok(out) ==> {
            &&& out.posts@.len() == 3
            &&& out.posts@[0] matches PostPlan::StateWritten { state: st, claim: Some(Claim::Pda(seed)) }
                && st@ == (VaultStateView {
                ops: 0,
                internal_hits: 0,
                vault: vault.account_id,
                pad: Seq::empty(),
            }) && seed@ == spec_padded(spike_seed_text(state_text()))
            &&& out.posts@[1] == PostPlan::Unchanged(Role::Vault)
            &&& out.posts@[2] == PostPlan::Unchanged(Role::TokenDefinition)
            &&& out.calls@.len() == 1
            &&& is_token_call(
                out.calls@[0],
                token_definition.program_owner,
                seq![CallAccount::Given(Role::TokenDefinition), CallAccount::GivenAuthorized(Role::Vault)],
                TokenInstruction::InitializeAccount,
                seq![spec_padded(spike_seed_text(vault_text()))],
            )
        },
{
    if !state.is_default {
        return Err(VaultError::StateNotUninitialised);
    }
    if !vault.is_default {
        return Err(VaultError::VaultNotUninitialised);
    }
    if !account_ids_equal(&state.account_id, &expected_state_id) {
        return Err(VaultError::StateIdMismatch);
    }
    if !account_ids_equal(&vault.account_id, &expected_vault_id) {
        return Err(VaultError::VaultIdMismatch);
    }
    let token_program_id = token_definition.program_owner;
    let st = VaultState { ops: 0, internal_hits: 0, vault: vault.account_id, pad: Vec::new() };
    let mut posts: Vec<PostPlan> = Vec::new();
    posts.push(PostPlan::StateWritten { state: st, claim: Some(Claim::Pda(state_seed())) });
    posts.push(PostPlan::Unchanged(Role::Vault));
    posts.push(PostPlan::Unchanged(Role::TokenDefinition));
    let mut accounts: Vec<CallAccount> = Vec::new();
    accounts.push(CallAccount::Given(Role::TokenDefinition));
    accounts.push(CallAccount::GivenAuthorized(Role::Vault));
    let mut seeds: Vec<PdaSeed> = Vec::new();
    seeds.push(vault_seed());
    let init_call = ChainedCallPlan {
        program_id: token_program_id,
        accounts,
        instruction: CallInstruction::Token(TokenInstruction::InitializeAccount),
        pda_seeds: seeds,
    };
    let mut calls: Vec<ChainedCallPlan> = Vec::new();
    calls.push(init_call);
    proof {
        assert(calls@[0].accounts@ =~= seq![
            CallAccount::Given(Role::TokenDefinition),
            CallAccount::GivenAuthorized(Role::Vault),
        ]);
    }
    Ok(Output { posts, calls })
}

/// Why `pay_in` refuses, if it does.
pub open spec fn spec_pay_in_error(
    state: Option<VaultStateView>,
    user_holding: AccountInput,
    vault: AccountInput,
) -> Option<VaultError> {
    if !user_holding.is_authorized {
        Some(VaultError::PayerNotAuthorised)
    } else {
        spec_state_bump_error(state, vault)
    }
}

/// Why a handler that bumps `ops` for `vault` refuses the state, if it does.
pub open spec fn spec_state_bump_error(state: Option<VaultStateView>, vault: AccountInput) -> Option<
    VaultError,
> {
    match state {
        None => Some(VaultError::StateUnreadable),
        Some(st) => if st.vault != vault.account_id {
            Some(VaultError::VaultDoesNotMatchState)
        } else if st.ops == u64::MAX {
            Some(VaultError::OpsOverflow)
        } else {
            None
        },
    }
}

/// The view of an optional decoded state.
pub open spec fn view_of(state: Option<VaultState>) -> Option<VaultStateView> {
    match state {
        Some(st) => Some(st@),
        None => None,
    }
}

/// Check the state governs `vault` and bump its `ops`.
fn bump_ops(state: Option<VaultState>, vault: &AccountInput) -> (r: Result<VaultState, VaultError>)
    ensures
        r is Err <==> spec_state_bump_error(view_of(state), *vault) is Some,
        r matches Err(e) ==> spec_state_bump_error(view_of(state), *vault) == Some(e),
        r matches Ok(st) ==> st@ == bumped_ops(view_of(state)->0),
{
    let st = match state {
        Some(st) => st,
        None => {
            return Err(VaultError::StateUnreadable);
        },
    };
    if !account_ids_equal(&st.vault, &vault.account_id) {
        return Err(VaultError::VaultDoesNotMatchState);
    }
    if st.ops == u64::MAX {
        return Err(VaultError::OpsOverflow);
    }
    Ok(VaultState { ops: st.ops + 1, internal_hits: st.internal_hits, vault: st.vault, pad: st.pad })
}

/// `PayIn`: bump `ops`, then chain a user-authorised transfer of `amount`
/// into the vault, run by the vault's owning token program. `state` is the
/// state account's decoded data.
pub fn pay_in(
    state: Option<VaultState>,
    user_holding: &AccountInput,
    vault: &AccountInput,
    amount: u128,
) -> (r: Result<Output, VaultError>)
    ensures
        r is Err <==> spec_pay_in_error(view_of(state), *user_holding, *vault) is Some,
        r matches Err(e) ==> spec_pay_in_error(view_of(state), *user_holding, *vault) == Some(e),
        r matches Ok(out) ==> {
            &&& out.posts@.len() == 3
            &&& writes_state(out.posts@[0], bumped_ops(view_of(state)->0), None)
            &&& out.posts@[1] == PostPlan::Unchanged(Role::UserHolding)
            &&& out.posts@[2] == PostPlan::Unchanged(Role::Vault)
            &&& out.calls@.len() == 1
            &&& is_token_call(
                out.calls@[0],
                vault.program_owner,
                seq![CallAccount::Given(Role::UserHolding), CallAccount::Given(Role::Vault)],
                TokenInstruction::Transfer { amount_to_transfer: amount },
                seq![],
            )
        },
{
    if !user_holding.is_authorized {
        return Err(VaultError::PayerNotAuthorised);
    }
    let st = bump_ops(state, vault)?;
    let token_program_id = vault.program_owner;
    let mut posts: Vec<PostPlan> = Vec::new();
    posts.push(PostPlan::StateWritten { state: st, claim: None });
    posts.push(PostPlan::Unchanged(Role::UserHolding));
    posts.push(PostPlan::Unchanged(Role::Vault));
    let mut accounts: Vec<CallAccount> = Vec::new();
    accounts.push(CallAccount::Given(Role::UserHolding));
    accounts.push(CallAccount::Given(Role::Vault));
    let transfer = ChainedCallPlan {
        program_id: token_program_id,
        accounts,
        instruction: CallInstruction::Token(TokenInstruction::Transfer { amount_to_transfer: amount }),
        pda_seeds: Vec::new(),
    };
    let mut calls: Vec<ChainedCallPlan> = Vec::new();
    calls.push(transfer);
    proof {
        assert(calls@[0].accounts@ =~= seq![
            CallAccount::Given(Role::UserHolding),
            CallAccount::Given(Role::Vault),
        ]);
    }
    Ok(Output { posts, calls })
}

/// `PayOut`: bump `ops`, chain a transfer of `amount` out of the vault to the
/// recipient, authorised by this program under `seed`, then chain
/// `Internal { must_fail: then_fail }` back into `self_program_id` on the
/// state as this execution leaves it. `state` is the state account's
/// decoded data.
pub fn pay_out(
    state: Option<VaultState>,
    vault: &AccountInput,
    amount: u128,
    then_fail: bool,
    seed: PdaSeed,
    self_program_id: ProgramId,
) -> (r: Result<Output, VaultError>)
    ensures
        r is Err <==> spec_state_bump_error(view_of(state), *vault) is Some,
        r matches Err(e) ==> spec_state_bump_error(view_of(state), *vault) == Some(e),
        r matches Ok(out) ==> {
            &&& out.posts@.len() == 3
            &&& writes_state(out.posts@[0], bumped_ops(view_of(state)->0), None)
            &&& out.posts@[1] == PostPlan::Unchanged(Role::Vault)
            &&& out.posts@[2] == PostPlan::Unchanged(Role::Recipient)
            &&& out.calls@.len() == 2
            &&& is_token_call(
                out.calls@[0],
                vault.program_owner,
                seq![CallAccount::GivenAuthorized(Role::Vault), CallAccount::Given(Role::Recipient)],
                TokenInstruction::Transfer { amount_to_transfer: amount },
                seq![seed@],
            )
            &&& is_internal_call(
                out.calls@[1],
                self_program_id,
                bumped_ops(view_of(state)->0),
                then_fail,
            )
        },
{
    let st = bump_ops(state, vault)?;
    let token_program_id = vault.program_owner;
    // The self-call's pre-state must equal the state as it will be after this
    // execution's post-state is applied (the caller predicts the callee's view).
    let predicted = copy_state(&st);
    let mut posts: Vec<PostPlan> = Vec::new();
    posts.push(PostPlan::StateWritten { state: st, claim: None });
    posts.push(PostPlan::Unchanged(Role::Vault));
    posts.push(PostPlan::Unchanged(Role::Recipient));
    let mut accounts: Vec<CallAccount> = Vec::new();
    accounts.push(CallAccount::GivenAuthorized(Role::Vault));
    accounts.push(CallAccount::Given(Role::Recipient));
    let mut seeds: Vec<PdaSeed> = Vec::new();
    seeds.push(seed);
    let transfer = ChainedCallPlan {
        program_id: token_program_id,
        accounts,
        instruction: CallInstruction::Token(TokenInstruction::Transfer { amount_to_transfer: amount }),
        pda_seeds: seeds,
    };
    let mut internal_accounts: Vec<CallAccount> = Vec::new();
    internal_accounts.push(CallAccount::PredictedState(predicted));
    let internal = ChainedCallPlan {
        program_id: self_program_id,
        accounts: internal_accounts,
        instruction: CallInstruction::Vault(Instruction::Internal { must_fail: then_fail }),
        pda_seeds: Vec::new(),
    };
    let mut calls: Vec<ChainedCallPlan> = Vec::new();
    calls.push(transfer);
    calls.push(internal);
    proof {
        assert(calls@[0].accounts@ =~= seq![
            CallAccount::GivenAuthorized(Role::Vault),
            CallAccount::Given(Role::Recipient),
        ]);
    }
    Ok(Output { posts, calls })
}

/// Why `fanout` refuses, if it does.
pub open spec fn spec_fanout_error(state: Option<VaultStateView>, n: u32) -> Option<VaultError> {
    match state {
        None => Some(VaultError::StateUnreadable),
        Some(st) => if n > 0 && st.internal_hits + (n - 1) > u64::MAX {
            Some(VaultError::HitsOverflow)
        } else {
            None
        },
    }
}

/// `Fanout`: chain `n` self-calls to `Internal { must_fail: false }`. Copy `k`
/// (from 0) sees the state with `internal_hits` raised by `k`, as copies
/// before it will have run. The state account itself is left unchanged.
pub fn fanout(state: Option<VaultState>, n: u32, self_program_id: ProgramId) -> (r: Result<
    Output,
    VaultError,
>)
    ensures
        r is Err <==> spec_fanout_error(view_of(state), n) is Some,
        r matches Err(e) ==> spec_fanout_error(view_of(state), n) == Some(e),
        r matches Ok(out) ==> {
            &&& out.posts@ == seq![PostPlan::Unchanged(Role::State)]
            &&& out.calls@.len() == n
            &&& forall|k: int|
                0 <= k < n ==> is_internal_call(
                    #[trigger] out.calls@[k],
                    self_program_id,
                    raised_hits(view_of(state)->0, k),
                    false,
                )
        },
{
    let base = match state {
        Some(st) => st,
        None => {
            return Err(VaultError::StateUnreadable);
        },
    };
    let mut calls: Vec<ChainedCallPlan> = Vec::new();
    let mut k: u32 = 0;
    while k < n
        invariant
            k <= n,
            calls@.len() == k,
            forall|j: int|
                0 <= j < k ==> is_internal_call(
                    #[trigger] calls@[j],
                    self_program_id,
                    raised_hits(base@, j),
                    false,
                ),
            k > 0 ==> base.internal_hits + (k - 1) <= u64::MAX,
            view_of(state) == Some(base@),
        decreases n - k,
    {
        if base.internal_hits > u64::MAX - (k as u64) {
            return Err(VaultError::HitsOverflow);
        }
        let mut predicted = copy_state(&base);
        predicted.internal_hits = base.internal_hits + (k as u64);
        let mut accounts: Vec<CallAccount> = Vec::new();
        accounts.push(CallAccount::PredictedState(predicted));
        calls.push(
            ChainedCallPlan {
                program_id: self_program_id,
                accounts,
                instruction: CallInstruction::Vault(Instruction::Internal { must_fail: false }),
                pda_seeds: Vec::new(),
            },
        );
        k += 1;
    }
    let mut posts: Vec<PostPlan> = Vec::new();
    posts.push(PostPlan::Unchanged(Role::State));
    proof {
        assert(posts@ =~= seq![PostPlan::Unchanged(Role::State)]);
    }
    Ok(Output { posts, calls })
}

/// Why `internal` refuses, if it does.
pub open spec fn spec_internal_error(
    state: Option<VaultStateView>,
    must_fail: bool,
    caller_program_id: ProgramId,
    self_program_id: ProgramId,
) -> Option<VaultError> {
    if caller_program_id != self_program_id {
        Some(VaultError::NotCalledBySelf)
    } else if must_fail {
        Some(VaultError::AskedToFail)
    } else {
        match state {
            None => Some(VaultError::StateUnreadable),
            Some(st) => if st.internal_hits == u64::MAX {
                Some(VaultError::HitsOverflow)
            } else {
                None
            },
        }
    }
}

/// `Internal`: reachable only from a chained self-call; bumps `internal_hits`.
pub fn internal(
    state: Option<VaultState>,
    must_fail: bool,
    caller_program_id: ProgramId,
    self_program_id: ProgramId,
) -> (r: Result<Output, VaultError>)
    ensures
        r is Err <==> spec_internal_error(view_of(state), must_fail, caller_program_id, self_program_id)
            is Some,
        r matches Err(e) ==> spec_internal_error(
            view_of(state),
            must_fail,
            caller_program_id,
            self_program_id,
        ) == Some(e),
        r matches Ok(out) ==> {
            &&& out.posts@.len() == 1
            &&& writes_state(out.posts@[0], raised_hits(view_of(state)->0, 1), None)
            &&& out.calls@.len() == 0
        },
{
    if !program_ids_equal(&caller_program_id, &self_program_id) {
        return Err(VaultError::NotCalledBySelf);
    }
    if must_fail {
        return Err(VaultError::AskedToFail);
    }
    let st = match state {
        Some(st) => st,
        None => {
            return Err(VaultError::StateUnreadable);
        },
    };
    if st.internal_hits == u64::MAX {
        return Err(VaultError::HitsOverflow);
    }
    let next = VaultState {
        ops: st.ops,
        internal_hits: st.internal_hits + 1,
        vault: st.vault,
        pad: st.pad,
    };
    let mut posts: Vec<PostPlan> = Vec::new();
    posts.push(PostPlan::StateWritten { state: next, claim: None });
    Ok(Output { posts, calls: Vec::new() })
}

/// One round of the compute probe on accumulator `acc` at counter `i`: the
/// share, utilisation, health and incentive arithmetic an accrual, health
/// check and liquidation perform, over values that depend on the counter.
pub open spec fn stress_round(acc: u128, i: u32) -> u128 {
    let k = u128_specs::wrapping_add(i as u128, 1);
    let ta = u128_specs::wrapping_add(acc, u128_specs::wrapping_mul(k, 7));
    let ts = u128_specs::wrapping_add(acc, u128_specs::wrapping_mul(k, 5));
    let s1 = spec_to_shares(u128_specs::wrapping_mul(k, 1_000), ta, ts, true).unwrap_or(1);
    let a1 = spec_to_assets(s1, ta, ts, false).unwrap_or(1);
    let u = spec_utilization(a1, ta).unwrap_or(0);
    let hv = spec_mul_div_down(a1, WAD, u128_specs::wrapping_add(u, 1)).unwrap_or(1);
    let lif = spec_mul_div_up(WAD, WAD, u128_specs::wrapping_add(hv, WAD)).unwrap_or(1);
    u128_specs::wrapping_add(acc, s1 ^ a1 ^ u ^ hv ^ lif) & (u128::MAX >> 8u128)
}

/// The accumulator after rounds `0..n`, starting from `start`.
pub open spec fn stress_accumulator(start: u128, n: nat) -> u128
    decreases n,
{
    if n == 0 {
        start
    } else {
        stress_round(stress_accumulator(start, (n - 1) as nat), (n - 1) as u32)
    }
}

/// The accumulator a `Stress` over a state with `ops` runs to.
pub open spec fn stress_result(ops: u64, iters: u32) -> u128 {
    stress_accumulator(u128_specs::wrapping_add(1_000_000_000_000u128, ops as u128), iters as nat)
}

/// The `n`-byte pad derived from the accumulator: byte `j` is the low byte
/// of `acc + j` (wrapping).
pub open spec fn stress_pad(acc: u128, n: nat) -> Seq<u8> {
    Seq::new(n, |j: int| (u128_specs::wrapping_add(acc, j as u128) & 0xff) as u8)
}

/// Why `stress` refuses, if it does.
pub open spec fn spec_stress_error(state: Option<VaultStateView>) -> Option<VaultError> {
    match state {
        None => Some(VaultError::StateUnreadable),
        Some(st) => if st.ops == u64::MAX {
            Some(VaultError::OpsOverflow)
        } else {
            None
        },
    }
}

/// `Stress`: compute probe. Runs `iters` rounds of the share/health
/// arithmetic, bumps `ops`, and replaces the pad with `pad` bytes folded from
/// the accumulator so the loop is observable. No chained calls.
pub fn stress(state: Option<VaultState>, iters: u32, pad: u32) -> (r: Result<Output, VaultError>)
    ensures
        r is Err <==> spec_stress_error(view_of(state)) is Some,
        r matches Err(e) ==> spec_stress_error(view_of(state)) == Some(e),
        r matches Ok(out) ==> {
            let st = view_of(state)->0;
            &&& out.posts@.len() == 1
            &&& writes_state(
                out.posts@[0],
                VaultStateView {
                    ops: (st.ops + 1) as u64,
                    pad: stress_pad(stress_result(st.ops, iters), pad as nat),
                    ..st
                },
                None,
            )
            &&& out.calls@.len() == 0
        },
{
    let st = match state {
        Some(st) => st,
        None => {
            return Err(VaultError::StateUnreadable);
        },
    };
    let mut acc: u128 = 1_000_000_000_000u128.wrapping_add(st.ops as u128);
    let ghost start = acc;
    let mut i: u32 = 0;
    while i < iters
        invariant
            i <= iters,
            start == u128_specs::wrapping_add(1_000_000_000_000u128, st.ops as u128),
            acc == stress_accumulator(start, i as nat),
        decreases iters - i,
    {
        let k = (i as u128).wrapping_add(1);
        let ta = acc.wrapping_add(k.wrapping_mul(7));
        let ts = acc.wrapping_add(k.wrapping_mul(5));
        let s1 = to_shares_up(k.wrapping_mul(1_000), ta, ts).unwrap_or(1);
        let a1 = to_assets_down(s1, ta, ts).unwrap_or(1);
        let u = utilization(a1, ta).unwrap_or(0);
        let hv = mul_div_down(a1, WAD, u.wrapping_add(1)).unwrap_or(1);
        let lif = w_div_up(WAD, hv.wrapping_add(WAD)).unwrap_or(1);
        acc = acc.wrapping_add(s1 ^ a1 ^ u ^ hv ^ lif) & (u128::MAX >> 8);
        i += 1;
    }
    if st.ops == u64::MAX {
        return Err(VaultError::OpsOverflow);
    }
    // Fold the accumulator into the pad so the loop is observable.
    let n = pad as usize;
    let mut bytes: Vec<u8> = Vec::new();
    let mut j: usize = 0;
    while j < n
        invariant
            j <= n,
            n == pad,
            bytes@ == stress_pad(acc, j as nat),
        decreases n - j,
    {
        bytes.push((acc.wrapping_add(j as u128) & 0xff) as u8);
        j += 1;
        assert(bytes@ =~= stress_pad(acc, j as nat));
    }
    let next = VaultState { ops: st.ops + 1, internal_hits: st.internal_hits, vault: st.vault, pad: bytes };
    let mut posts: Vec<PostPlan> = Vec::new();
    posts.push(PostPlan::StateWritten { state: next, claim: None });
    Ok(Output { posts, calls: Vec::new() })
}

/// The self-call that `pay_out` chains runs `internal` on exactly the state
/// `pay_out` writes: asked to fail, that last leg refuses (so the whole chain
/// fails); otherwise it succeeds unless `internal_hits` is at its maximum.
pub proof fn lemma_pay_out_last_leg(
    st: VaultStateView,
    vault: AccountInput,
    then_fail: bool,
    self_program_id: ProgramId,
)
    requires
        spec_state_bump_error(Some(st), vault) is None,
    ensures
        spec_internal_error(Some(bumped_ops(st)), then_fail, self_program_id, self_program_id) == (
        if then_fail {
            Some(VaultError::AskedToFail)
        } else if st.internal_hits == u64::MAX {
            Some(VaultError::HitsOverflow)
        } else {
            None
        }),
{
}

/// The predicted pre-states of a fan-out chain: once copy `k` has run
/// `internal` on its predicted state, the state it writes is exactly the
/// predicted state of copy `k + 1`.
pub proof fn lemma_fanout_copies_chain(st: VaultStateView, n: u32, k: int, self_program_id: ProgramId)
    requires
        spec_fanout_error(Some(st), n) is None,
        0 <= k,
        k + 1 < n,
    ensures
        spec_internal_error(Some(raised_hits(st, k)), false, self_program_id, self_program_id)
            is None,
        raised_hits(raised_hits(st, k), 1) == raised_hits(st, k + 1),
{
}

/// What the state updates do: bumping `ops` raises `ops` by one and raising
/// the hits by `k` raises `internal_hits` by `k`, each leaving every other
/// field as it was.
pub proof fn lemma_state_updates(st: VaultStateView, k: int)
    ensures
        st.ops < u64::MAX ==> bumped_ops(st).ops == st.ops + 1 && bumped_ops(st).internal_hits
            == st.internal_hits && bumped_ops(st).vault == st.vault && bumped_ops(st).pad == st.pad,
        0 <= k && st.internal_hits + k <= u64::MAX ==> raised_hits(st, k).internal_hits
            == st.internal_hits + k && raised_hits(st, k).ops == st.ops && raised_hits(st, k).vault
            == st.vault && raised_hits(st, k).pad == st.pad,
{
}

/// `Fanout` on a readable state accepts exactly when the last copy's
/// predicted hit count `internal_hits + (n - 1)` fits in a `u64` (always for
/// `n == 0`); an unreadable state is refused as such.
pub proof fn lemma_fanout_accepts(state: Option<VaultStateView>, n: u32)
    ensures
        state is None ==> spec_fanout_error(state, n) == Some(VaultError::StateUnreadable),
        state matches Some(st) ==> (spec_fanout_error(state, n) is None <==> (n == 0
            || st.internal_hits + n - 1 <= u64::MAX)),
        state matches Some(st) ==> (spec_fanout_error(state, n) is Some ==> spec_fanout_error(
            state,
            n,
        ) == Some(VaultError::HitsOverflow)),
{
}

/// `PayIn` accepts exactly when the paying holding is authorised, the state
/// decodes, it governs the given vault, and `ops` can still be bumped; a
/// refusal names the first failed check in that order.
pub proof fn lemma_pay_in_accepts(state: Option<VaultStateView>, user_holding: AccountInput, vault: AccountInput)
    ensures
        spec_pay_in_error(state, user_holding, vault) is None <==> (user_holding.is_authorized
            && state is Some && state->0.vault == vault.account_id && state->0.ops < u64::MAX),
        !user_holding.is_authorized ==> spec_pay_in_error(state, user_holding, vault) == Some(
            VaultError::PayerNotAuthorised,
        ),
        user_holding.is_authorized && state is None ==> spec_pay_in_error(state, user_holding, vault)
            == Some(VaultError::StateUnreadable),
        user_holding.is_authorized && state is Some && state->0.vault != vault.account_id
            ==> spec_pay_in_error(state, user_holding, vault) == Some(
            VaultError::VaultDoesNotMatchState,
        ),
        user_holding.is_authorized && state is Some && state->0.vault == vault.account_id
            && state->0.ops == u64::MAX ==> spec_pay_in_error(state, user_holding, vault) == Some(
            VaultError::OpsOverflow,
        ),
{
}

/// `PayOut` accepts exactly when the state decodes, governs the given vault,
/// and `ops` can still be bumped; a refusal names the first failed check.
pub proof fn lemma_pay_out_accepts(state: Option<VaultStateView>, vault: AccountInput)
    ensures
        spec_state_bump_error(state, vault) is None <==> (state is Some && state->0.vault
            == vault.account_id && state->0.ops < u64::MAX),
        state is None ==> spec_state_bump_error(state, vault) == Some(VaultError::StateUnreadable),
        state is Some && state->0.vault != vault.account_id ==> spec_state_bump_error(state, vault)
            == Some(VaultError::VaultDoesNotMatchState),
        state is Some && state->0.vault == vault.account_id && state->0.ops == u64::MAX
            ==> spec_state_bump_error(state, vault) == Some(VaultError::OpsOverflow),
{
}

/// `Internal` accepts exactly when its caller is the program itself, it is
/// not asked to fail, the state decodes, and the hit count can still rise; a
/// refusal names the first failed check in that order.
pub proof fn lemma_internal_accepts(
    state: Option<VaultStateView>,
    must_fail: bool,
    caller_program_id: ProgramId,
    self_program_id: ProgramId,
)
    ensures
        spec_internal_error(state, must_fail, caller_program_id, self_program_id) is None <==> (
        caller_program_id == self_program_id && !must_fail && state is Some
            && state->0.internal_hits < u64::MAX),
        caller_program_id != self_program_id ==> spec_internal_error(
            state,
            must_fail,
            caller_program_id,
            self_program_id,
        ) == Some(VaultError::NotCalledBySelf),
        caller_program_id == self_program_id && must_fail ==> spec_internal_error(
            state,
            must_fail,
            caller_program_id,
            self_program_id,
        ) == Some(VaultError::AskedToFail),
{
}

/// `Stress` accepts exactly when the state decodes and `ops` can still be
/// bumped, whatever the iteration count and pad size.
pub proof fn lemma_stress_accepts(state: Option<VaultStateView>)
    ensures
        spec_stress_error(state) is None <==> (state is Some && state->0.ops < u64::MAX),
        state is None ==> spec_stress_error(state) == Some(VaultError::StateUnreadable),
{
}

/// `Init` accepts exactly when both accounts are still default and are the
/// program's state and vault PDAs; a refusal names the first failed check.
pub proof fn lemma_init_accepts(
    state: AccountInput,
    vault: AccountInput,
    expected_state_id: AccountId,
    expected_vault_id: AccountId,
)
    ensures
        spec_init_error(state, vault, expected_state_id, expected_vault_id) is None <==> (
        state.is_default && vault.is_default && state.account_id == expected_state_id
            && vault.account_id == expected_vault_id),
        !state.is_default ==> spec_init_error(state, vault, expected_state_id, expected_vault_id)
            == Some(VaultError::StateNotUninitialised),
        state.is_default && !vault.is_default ==> spec_init_error(
            state,
            vault,
            expected_state_id,
            expected_vault_id,
        ) == Some(VaultError::VaultNotUninitialised),
{
}

/// The pad `Stress` writes counts up from the accumulator's low byte: it
/// holds `n` bytes, the first is `acc & 0xff`, and each next byte is the one
/// before plus one, wrapping at 256.
pub proof fn lemma_stress_pad_counts_up(acc: u128, n: nat)
    requires
        n <= u32::MAX,
    ensures
        stress_pad(acc, n).len() == n,
        n > 0 ==> stress_pad(acc, n)[0] == (acc & 0xff) as u8,
        forall|j: int|
            0 <= j < n - 1 ==> #[trigger] stress_pad(acc, n)[j + 1] as int == (stress_pad(acc, n)[j]
                + 1) % 256,
{
    if n > 0 {
        assert(u128_specs::wrapping_add(acc, 0) == acc);
    }
    assert forall|j: int| 0 <= j < n - 1 implies #[trigger] stress_pad(acc, n)[j + 1] as int == (
    stress_pad(acc, n)[j] + 1) % 256 by {
        let x = u128_specs::wrapping_add(acc, j as u128);
        let y = u128_specs::wrapping_add(acc, (j + 1) as u128);
        if acc + j + 1 <= u128::MAX {
            assert(x == acc + j);
            assert(y == acc + j + 1);
        } else if acc + j <= u128::MAX {
            assert(x == acc + j);
            assert(x == u128::MAX);
            assert(y == 0);
        } else {
            assert(x == acc + j - (u128::MAX + 1));
            assert(y == acc + j + 1 - (u128::MAX + 1));
        }
        assert(y == u128_specs::wrapping_add(x, 1));
        assert(((y & 0xff) as u8) as int == (((x & 0xff) as u8) + 1) % 256) by (bit_vector)
            requires
                y == u128_specs::wrapping_add(x, 1),
        ;
    }
}

} // verus!
