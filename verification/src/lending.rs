//! Argo lending program: the `Config` account and the `Initialize`
//! instruction.
use crate::program_id::ProgramId;
use crate::runtime::{account_ids_equal, AccountId, AccountInput, Claim};
use crate::seeds::{config_seed, config_seed_text, spec_padded};
use vstd::prelude::*;

verus! {

/// Instruction set.
#[derive(Debug, Clone, Copy, PartialEq, Eq, Structural)]
pub enum Instruction {
    /// Claim the singleton `Config` PDA. Callable once. Accounts: `config` (the
    /// PDA), `admin` (signer; becomes the admin authority).
    Initialize,
}

/// Singleton configuration account.
#[derive(Debug, Clone, PartialEq, Eq)]
pub struct Config {
    /// Admin authority.
    pub admin: AccountId,
    /// Protocol fee recipient; `None` until set.
    pub fee_recipient: Option<AccountId>,
    /// Enabled LLTV values (WAD-scaled).
    pub enabled_lltv: Vec<u128>,
    /// Enabled IRM program ids.
    pub enabled_irm: Vec<ProgramId>,
}

/// Why `initialize` refuses.
#[derive(Debug, Clone, Copy, PartialEq, Eq, Structural)]
pub enum InitializeError {
    /// The admin account did not sign.
    AdminMustSign,
    /// The config account is not the default (unclaimed) account.
    ConfigAlreadyInitialised,
    /// The config account is not the program's `Config` PDA.
    ConfigIdMismatch,
}

/// What `initialize` asks the runtime to do: write `config` into the config
/// account and claim it under `config_claim`; hand the admin account back
/// unchanged, claimed with `admin_claim` if it is still the default account.
/// No chained calls.
pub struct InitializeOutput {
    pub config: Config,
    pub config_claim: Claim,
    pub admin_claim: Claim,
}

/// Why `initialize` refuses these accounts, if it does.
pub open spec fn spec_initialize_error(
    config: AccountInput,
    admin: AccountInput,
    expected_config_id: AccountId,
) -> Option<InitializeError> {
    if !admin.is_authorized {
        Some(InitializeError::AdminMustSign)
    } else if !config.is_default {
        Some(InitializeError::ConfigAlreadyInitialised)
    } else if config.account_id != expected_config_id {
        Some(InitializeError::ConfigIdMismatch)
    } else {
        None
    }
}

/// Claim the `Config` singleton; the signing `admin` account becomes the admin
/// authority. `expected_config_id` is the program's `Config` PDA id.
pub fn initialize(config: &AccountInput, admin: &AccountInput, expected_config_id: AccountId) -> (r:
    Result<InitializeOutput, InitializeError>)
    ensures
        r is Err <==> spec_initialize_error(*config, *admin, expected_config_id) is Some,
        r matches Err(e) ==> spec_initialize_error(*config, *admin, expected_config_id) == Some(e),
        r matches Ok(out) ==> {
            &&& out.config.admin == admin.account_id
            &&& out.config.fee_recipient is None
            &&& out.config.enabled_lltv@.len() == 0
            &&& out.config.enabled_irm@.len() == 0
            &&& out.config_claim matches Claim::Pda(seed) && seed@ == spec_padded(config_seed_text())
            &&& out.admin_claim == Claim::Authorized
        },
{
    if !admin.is_authorized {
        return Err(InitializeError::AdminMustSign);
    }
    if !config.is_default {
        return Err(InitializeError::ConfigAlreadyInitialised);
    }
    if !account_ids_equal(&config.account_id, &expected_config_id) {
        return Err(InitializeError::ConfigIdMismatch);
    }
    let cfg = Config {
        admin: admin.account_id,
        fee_recipient: None,
        enabled_lltv: Vec::new(),
        enabled_irm: Vec::new(),
    };
    Ok(InitializeOutput { config: cfg, config_claim: Claim::Pda(config_seed()), admin_claim: Claim::Authorized })
}

/// `Initialize` accepts exactly when the admin signed, the config account is
/// still the default account, and it is the program's `Config` PDA; nothing
/// else of the admin account matters (a never-used admin is accepted and
/// claimed). A refusal names the first failed of those checks, in that order.
pub proof fn lemma_initialize_accepts(config: AccountInput, admin: AccountInput, expected_config_id: AccountId)
    ensures
        spec_initialize_error(config, admin, expected_config_id) is None <==> (admin.is_authorized
            && config.is_default && config.account_id == expected_config_id),
        !admin.is_authorized ==> spec_initialize_error(config, admin, expected_config_id) == Some(
            InitializeError::AdminMustSign,
        ),
        admin.is_authorized && !config.is_default ==> spec_initialize_error(
            config,
            admin,
            expected_config_id,
        ) == Some(InitializeError::ConfigAlreadyInitialised),
        admin.is_authorized && config.is_default && config.account_id != expected_config_id
            ==> spec_initialize_error(config, admin, expected_config_id) == Some(
            InitializeError::ConfigIdMismatch,
        ),
{
}

} // verus!
