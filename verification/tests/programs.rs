use argo::guests::{guest_kind, GuestKind};
use argo::lending::{initialize, Config, InitializeError};
use argo::runtime::{AccountInput, Claim};
use argo::seeds::{config_seed, padded, state_seed, vault_seed, wrong_seed};
use argo::vault::{
    fanout, init, internal, pay_in, pay_out, stress, CallAccount, CallInstruction, Instruction,
    PostPlan, Role, TokenInstruction, VaultError, VaultState,
};

fn account(id_byte: u8, is_authorized: bool, is_default: bool, owner: u32) -> AccountInput {
    AccountInput {
        account_id: [id_byte; 32],
        is_authorized,
        is_default,
        program_owner: [owner; 8],
    }
}

fn state(ops: u64, hits: u64, vault_byte: u8) -> VaultState {
    VaultState { ops, internal_hits: hits, vault: [vault_byte; 32], pad: vec![] }
}

#[test]
fn seeds_are_zero_padded_text() {
    let mut expected = [0u8; 32];
    expected[..6].copy_from_slice(b"config");
    assert_eq!(config_seed(), expected);
    let mut state_expected = [0u8; 32];
    state_expected[..16].copy_from_slice(b"argo-spike/state");
    assert_eq!(state_seed(), state_expected);
    let mut vault_expected = [0u8; 32];
    vault_expected[..16].copy_from_slice(b"argo-spike/vault");
    assert_eq!(vault_seed(), vault_expected);
    let mut wrong_expected = [0u8; 32];
    wrong_expected[..16].copy_from_slice(b"argo-spike/wrong");
    assert_eq!(wrong_seed(), wrong_expected);
    let long = [7u8; 40];
    assert_eq!(padded(&long), [7u8; 32]);
}

#[test]
fn initialize_claims_config_for_the_signing_admin() {
    let config = account(1, false, true, 0);
    let admin = account(2, true, false, 0);
    let out = initialize(&config, &admin, [1; 32]).expect("accepted");
    assert_eq!(
        out.config,
        Config { admin: [2; 32], fee_recipient: None, enabled_lltv: vec![], enabled_irm: vec![] }
    );
    assert_eq!(out.config_claim, Claim::Pda(config_seed()));
    assert_eq!(out.admin_claim, Claim::Authorized);
}

#[test]
fn initialize_refusals() {
    let config = account(1, false, true, 0);
    let admin = account(2, true, false, 0);
    let unsigned = account(2, false, false, 0);
    let used = account(1, false, false, 0);
    assert_eq!(initialize(&config, &unsigned, [1; 32]).err(), Some(InitializeError::AdminMustSign));
    assert_eq!(
        initialize(&used, &admin, [1; 32]).err(),
        Some(InitializeError::ConfigAlreadyInitialised)
    );
    assert_eq!(initialize(&config, &admin, [9; 32]).err(), Some(InitializeError::ConfigIdMismatch));
}

#[test]
fn init_claims_state_and_chains_token_initialisation() {
    let st = account(1, false, true, 0);
    let vault = account(2, false, true, 0);
    let definition = account(3, false, false, 77);
    let out = init(&st, &vault, &definition, [1; 32], [2; 32]).expect("accepted");
    assert_eq!(out.posts.len(), 3);
    match &out.posts[0] {
        PostPlan::StateWritten { state, claim } => {
            assert_eq!(*state, VaultState { ops: 0, internal_hits: 0, vault: [2; 32], pad: vec![] });
            assert_eq!(*claim, Some(Claim::Pda(state_seed())));
        }
        _ => panic!("state must be written"),
    }
    assert!(matches!(out.posts[1], PostPlan::Unchanged(Role::Vault)));
    assert!(matches!(out.posts[2], PostPlan::Unchanged(Role::TokenDefinition)));
    assert_eq!(out.calls.len(), 1);
    let call = &out.calls[0];
    assert_eq!(call.program_id, [77; 8]);
    assert!(matches!(call.accounts[0], CallAccount::Given(Role::TokenDefinition)));
    assert!(matches!(call.accounts[1], CallAccount::GivenAuthorized(Role::Vault)));
    assert!(matches!(call.instruction, CallInstruction::Token(TokenInstruction::InitializeAccount)));
    assert_eq!(call.pda_seeds, vec![vault_seed()]);
}

#[test]
fn init_refusals() {
    let fresh_state = account(1, false, true, 0);
    let fresh_vault = account(2, false, true, 0);
    let used = account(1, false, false, 0);
    let definition = account(3, false, false, 77);
    assert_eq!(
        init(&used, &fresh_vault, &definition, [1; 32], [2; 32]).err(),
        Some(VaultError::StateNotUninitialised)
    );
    assert_eq!(
        init(&fresh_state, &used, &definition, [1; 32], [2; 32]).err(),
        Some(VaultError::VaultNotUninitialised)
    );
    assert_eq!(
        init(&fresh_state, &fresh_vault, &definition, [5; 32], [2; 32]).err(),
        Some(VaultError::StateIdMismatch)
    );
    assert_eq!(
        init(&fresh_state, &fresh_vault, &definition, [1; 32], [5; 32]).err(),
        Some(VaultError::VaultIdMismatch)
    );
}

#[test]
fn pay_in_bumps_ops_and_chains_a_user_transfer() {
    let user = account(4, true, false, 77);
    let vault = account(2, false, false, 77);
    let out = pay_in(Some(state(5, 1, 2)), &user, &vault, 300).expect("accepted");
    match &out.posts[0] {
        PostPlan::StateWritten { state: st, claim } => {
            assert_eq!(*st, state(6, 1, 2));
            assert_eq!(*claim, None);
        }
        _ => panic!("state must be written"),
    }
    let call = &out.calls[0];
    assert_eq!(call.program_id, [77; 8]);
    assert!(matches!(call.accounts[0], CallAccount::Given(Role::UserHolding)));
    assert!(matches!(call.accounts[1], CallAccount::Given(Role::Vault)));
    assert!(matches!(
        call.instruction,
        CallInstruction::Token(TokenInstruction::Transfer { amount_to_transfer: 300 })
    ));
    assert!(call.pda_seeds.is_empty());
}

#[test]
fn pay_in_refusals() {
    let user = account(4, true, false, 77);
    let unsigned = account(4, false, false, 77);
    let vault = account(2, false, false, 77);
    assert_eq!(pay_in(Some(state(0, 0, 2)), &unsigned, &vault, 1).err(), Some(VaultError::PayerNotAuthorised));
    assert_eq!(pay_in(None, &user, &vault, 1).err(), Some(VaultError::StateUnreadable));
    assert_eq!(pay_in(Some(state(0, 0, 9)), &user, &vault, 1).err(), Some(VaultError::VaultDoesNotMatchState));
    assert_eq!(pay_in(Some(state(u64::MAX, 0, 2)), &user, &vault, 1).err(), Some(VaultError::OpsOverflow));
}

#[test]
fn pay_out_predicts_the_state_for_its_self_call() {
    let vault = account(2, false, false, 77);
    let out = pay_out(Some(state(0, 3, 2)), &vault, 40, true, wrong_seed(), [9; 8]).expect("accepted");
    assert_eq!(out.posts.len(), 3);
    assert!(matches!(out.posts[1], PostPlan::Unchanged(Role::Vault)));
    assert!(matches!(out.posts[2], PostPlan::Unchanged(Role::Recipient)));
    assert_eq!(out.calls.len(), 2);
    let transfer = &out.calls[0];
    assert_eq!(transfer.program_id, [77; 8]);
    assert!(matches!(transfer.accounts[0], CallAccount::GivenAuthorized(Role::Vault)));
    assert!(matches!(transfer.accounts[1], CallAccount::Given(Role::Recipient)));
    assert_eq!(transfer.pda_seeds, vec![wrong_seed()]);
    let internal_call = &out.calls[1];
    assert_eq!(internal_call.program_id, [9; 8]);
    match &internal_call.accounts[0] {
        CallAccount::PredictedState(st) => assert_eq!(*st, state(1, 3, 2)),
        _ => panic!("predicted state expected"),
    }
    assert!(matches!(
        internal_call.instruction,
        CallInstruction::Vault(Instruction::Internal { must_fail: true })
    ));
    assert_eq!(pay_out(None, &vault, 1, false, vault_seed(), [9; 8]).err(), Some(VaultError::StateUnreadable));
}

#[test]
fn fanout_predicts_each_copy() {
    let out = fanout(Some(state(0, 10, 2)), 3, [9; 8]).expect("accepted");
    assert!(matches!(out.posts[0], PostPlan::Unchanged(Role::State)));
    assert_eq!(out.calls.len(), 3);
    for (k, call) in out.calls.iter().enumerate() {
        match &call.accounts[0] {
            CallAccount::PredictedState(st) => assert_eq!(st.internal_hits, 10 + k as u64),
            _ => panic!("predicted state expected"),
        }
    }
    assert_eq!(fanout(Some(state(0, 10, 2)), 0, [9; 8]).map(|o| o.calls.len()), Ok(0));
    assert_eq!(fanout(Some(state(0, u64::MAX - 1, 2)), 3, [9; 8]).err(), Some(VaultError::HitsOverflow));
    assert_eq!(fanout(Some(state(0, u64::MAX - 2, 2)), 3, [9; 8]).map(|o| o.calls.len()), Ok(3));
}

#[test]
fn internal_runs_only_for_self() {
    let out = internal(Some(state(4, 6, 2)), false, [9; 8], [9; 8]).expect("accepted");
    match &out.posts[0] {
        PostPlan::StateWritten { state: st, .. } => assert_eq!(*st, state(4, 7, 2)),
        _ => panic!("state must be written"),
    }
    assert!(out.calls.is_empty());
    assert_eq!(internal(Some(state(0, 0, 2)), false, [8; 8], [9; 8]).err(), Some(VaultError::NotCalledBySelf));
    assert_eq!(internal(Some(state(0, 0, 2)), true, [9; 8], [9; 8]).err(), Some(VaultError::AskedToFail));
    assert_eq!(internal(None, false, [9; 8], [9; 8]).err(), Some(VaultError::StateUnreadable));
    assert_eq!(internal(Some(state(0, u64::MAX, 2)), false, [9; 8], [9; 8]).err(), Some(VaultError::HitsOverflow));
}

#[test]
fn stress_bumps_ops_and_folds_the_accumulator_into_the_pad() {
    let out = stress(Some(state(0, 0, 2)), 0, 3).expect("accepted");
    match &out.posts[0] {
        // no rounds: the accumulator is 10^12, whose low byte is 0x00 (10^12 = 0xE8_D4A5_1000)
        PostPlan::StateWritten { state: st, .. } => {
            assert_eq!(st.ops, 1);
            assert_eq!(st.pad, vec![0x00, 0x01, 0x02]);
        }
        _ => panic!("state must be written"),
    }
    let out = stress(Some(state(7, 0, 2)), 5, 4).expect("accepted");
    match &out.posts[0] {
        PostPlan::StateWritten { state: st, .. } => {
            // five rounds from ops = 7 end on an accumulator of 15721400322333248700
            assert_eq!(st.ops, 8);
            assert_eq!(st.pad, vec![188, 189, 190, 191]);
        }
        _ => panic!("state must be written"),
    }
    assert_eq!(stress(Some(state(u64::MAX, 0, 2)), 1, 1).err(), Some(VaultError::OpsOverflow));
    assert_eq!(stress(None, 1, 1).err(), Some(VaultError::StateUnreadable));
}

#[test]
fn pay_out_last_leg_refuses_when_asked_to_fail() {
    let vault = account(2, false, false, 77);
    for then_fail in [true, false] {
        let out = pay_out(Some(state(0, 3, 2)), &vault, 40, then_fail, vault_seed(), [9; 8]).expect("accepted");
        let predicted = match &out.calls[1].accounts[0] {
            CallAccount::PredictedState(st) => st.clone(),
            _ => panic!("predicted state expected"),
        };
        let leg = internal(Some(predicted), then_fail, [9; 8], [9; 8]);
        if then_fail {
            assert_eq!(leg.err(), Some(VaultError::AskedToFail));
        } else {
            let leg = leg.expect("last leg runs");
            match &leg.posts[0] {
                PostPlan::StateWritten { state: st, .. } => assert_eq!(*st, state(1, 4, 2)),
                _ => panic!("state must be written"),
            }
        }
    }
}

#[test]
fn fanout_copies_chain() {
    let out = fanout(Some(state(2, 0, 2)), 4, [9; 8]).expect("accepted");
    for k in 0..3 {
        let predicted = match &out.calls[k].accounts[0] {
            CallAccount::PredictedState(st) => st.clone(),
            _ => panic!("predicted state expected"),
        };
        let ran = internal(Some(predicted), false, [9; 8], [9; 8]).expect("copy runs");
        let next = match &out.calls[k + 1].accounts[0] {
            CallAccount::PredictedState(st) => st,
            _ => panic!("predicted state expected"),
        };
        match &ran.posts[0] {
            PostPlan::StateWritten { state: st, .. } => assert_eq!(st, next),
            _ => panic!("state must be written"),
        }
    }
}

#[test]
fn default_state_is_empty() {
    assert_eq!(
        VaultState::default(),
        VaultState { ops: 0, internal_hits: 0, vault: [0; 32], pad: vec![] }
    );
}

#[test]
fn guest_names() {
    assert_eq!(guest_kind("argo_lending"), Some(GuestKind::ArgoLending));
    assert_eq!(guest_kind("spike_vault"), Some(GuestKind::SpikeVault));
    assert_eq!(guest_kind("argo_lendin"), None);
    assert_eq!(guest_kind("spike_vault "), None);
    assert_eq!(guest_kind(""), None);
}
