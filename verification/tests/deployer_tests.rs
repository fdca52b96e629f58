use token_set::deployer::{ChainOutcome, Contract, DeployerError, Resolution};
use token_set::shared::TokenWithRatioValid;
use token_set::token_set::Contract as TokenSetContract;

fn to_yocto(near: u128) -> u128 {
    near * 1_000_000_000_000_000_000_000_000
}

#[test]
fn simulate_deploying_contract() {
    let bob = "bob".to_string();
    let account_prefix = "bb".to_string();
    let set_name = "YOUR MOM TOKEN".to_string();
    let set_symbol = "YR MOM".to_string();

    let mut deployer = Contract::new();
    deployer.register_account(&bob).unwrap();
    // to_yocto("10.1")
    let deposit = to_yocto(10) + to_yocto(1) / 10;
    deployer.deposit_near(&bob, deposit).unwrap();

    let instance = format!("{}.{}", account_prefix, "deployer");
    deployer.deploy_contract_code(&bob, &instance).unwrap();

    let deployed = deployer.deployed_contracts(&bob);
    assert_eq!(deployed.len(), 1);
    assert_eq!(deployed[0], instance);

    // The action chain settles successfully: the continuation confirms the
    // instance and consumes the escrow.
    let resolution = deployer.resolve_contract_deploy(&bob, &instance, ChainOutcome::Success);
    assert_eq!(resolution, Resolution::Confirmed);
    assert_eq!(deployer.deployed_contracts(&bob).len(), 1);

    // The engine the new instance would run matches one built from the same
    // arguments.
    let build = || {
        TokenSetContract::new_default_meta(
            bob.clone(),
            set_name.clone(),
            set_symbol.clone(),
            None,
            vec![
                TokenWithRatioValid { token_id: "ft0".to_string(), ratio: 1 },
                TokenWithRatioValid { token_id: "ft1".to_string(), ratio: 2 },
                TokenWithRatioValid { token_id: "ft2".to_string(), ratio: 4 },
            ],
            0,
            "root".to_string(),
            0,
            None,
            None,
            10_000,
            250,
        )
        .unwrap()
    };
    let metadata = build().set_metadata();
    let metadata_og = build().set_metadata();
    assert_eq!(metadata.ft_metadata.name, metadata_og.ft_metadata.name);
    assert_eq!(metadata.ft_metadata.symbol, metadata_og.ft_metadata.symbol);
    assert_eq!(metadata.set_fee.owner_fee, metadata_og.set_fee.owner_fee);
    assert_eq!(metadata.set_ratios.len(), metadata_og.set_ratios.len());
}

/// A request debits the escrow and records a pending instance; a failed
/// action chain triggers compensation that refunds the escrow and removes
/// the pending instance, leaving the account exactly as before the request.
#[test]
fn deploy_failure_compensates() {
    let bob = "bob".to_string();
    let instance = "bb.deployer".to_string();
    let mut deployer = Contract::new();
    deployer.register_account(&bob).unwrap();
    deployer.deposit_near(&bob, to_yocto(5)).unwrap();

    let before = deployer.get_available_near(&bob);
    deployer.deploy_contract_code(&bob, &instance).unwrap();
    assert_eq!(
        deployer.get_available_near(&bob),
        before - deployer.deposit_for_contract()
    );
    assert_eq!(deployer.deployed_contracts(&bob), vec![instance.clone()]);

    let resolution = deployer.resolve_contract_deploy(&bob, &instance, ChainOutcome::Failure);
    assert_eq!(resolution, Resolution::Compensated);
    assert_eq!(deployer.get_available_near(&bob), before);
    assert_eq!(deployer.deployed_contracts(&bob).len(), 0);
}

/// Resolving a successful chain twice leaves the ledger identical to
/// resolving it once.
#[test]
fn resolve_success_idempotent() {
    let bob = "bob".to_string();
    let instance = "bb.deployer".to_string();
    let mut deployer = Contract::new();
    deployer.register_account(&bob).unwrap();
    deployer.deposit_near(&bob, to_yocto(3)).unwrap();
    deployer.deploy_contract_code(&bob, &instance).unwrap();

    assert_eq!(
        deployer.resolve_contract_deploy(&bob, &instance, ChainOutcome::Success),
        Resolution::Confirmed
    );
    let available_once = deployer.get_available_near(&bob);
    let deployed_once = deployer.deployed_contracts(&bob);

    assert_eq!(
        deployer.resolve_contract_deploy(&bob, &instance, ChainOutcome::Success),
        Resolution::Confirmed
    );
    assert_eq!(deployer.get_available_near(&bob), available_once);
    assert_eq!(deployer.deployed_contracts(&bob), deployed_once);
}

#[test]
fn deploy_requires_registration_and_escrow() {
    let bob = "bob".to_string();
    let instance = "bb.deployer".to_string();
    let mut deployer = Contract::new();
    assert_eq!(
        deployer.deploy_contract_code(&bob, &instance).unwrap_err(),
        DeployerError::NotRegistered
    );
    deployer.register_account(&bob).unwrap();
    assert_eq!(
        deployer.deploy_contract_code(&bob, &instance).unwrap_err(),
        DeployerError::InsufficientEscrow
    );
    // One yocto short of the per-instance deposit still fails.
    deployer.deposit_near(&bob, to_yocto(2) - 1).unwrap();
    assert_eq!(
        deployer.deploy_contract_code(&bob, &instance).unwrap_err(),
        DeployerError::InsufficientEscrow
    );
    deployer.deposit_near(&bob, 1).unwrap();
    deployer.deploy_contract_code(&bob, &instance).unwrap();
    assert_eq!(deployer.get_available_near(&bob), 0);
}

#[test]
fn resolve_failure_edge_paths() {
    let bob = "bob".to_string();
    let carol = "carol".to_string();
    let instance = "bb.deployer".to_string();
    let other = "cc.deployer".to_string();
    let mut deployer = Contract::new();
    deployer.register_account(&bob).unwrap();
    deployer.deposit_near(&bob, to_yocto(2)).unwrap();
    deployer.deploy_contract_code(&bob, &instance).unwrap();

    // The caller's record vanished: compensation is skipped.
    assert_eq!(
        deployer.resolve_contract_deploy(&carol, &instance, ChainOutcome::Failure),
        Resolution::AccountMissing
    );
    // The instance is not recorded for this caller: an anomaly, nothing
    // changes.
    assert_eq!(
        deployer.resolve_contract_deploy(&bob, &other, ChainOutcome::Failure),
        Resolution::InstanceMissing
    );
    assert_eq!(deployer.deployed_contracts(&bob), vec![instance.clone()]);
    assert_eq!(deployer.get_available_near(&bob), 0);
}

#[test]
fn deployer_registration_guards() {
    let bob = "bob".to_string();
    let mut deployer = Contract::new();
    deployer.register_account(&bob).unwrap();
    assert_eq!(
        deployer.register_account(&bob).unwrap_err(),
        DeployerError::AlreadyRegistered
    );
    assert_eq!(
        deployer.deposit_near(&"carol".to_string(), 1).unwrap_err(),
        DeployerError::NotRegistered
    );
    deployer.deposit_near(&bob, u128::MAX).unwrap();
    assert_eq!(
        deployer.deposit_near(&bob, 1).unwrap_err(),
        DeployerError::BalanceOverflow
    );
}

/// Swap-delete semantics: compensating the first of three pending instances
/// moves the last one into its slot.
#[test]
fn compensation_swap_removes() {
    let bob = "bob".to_string();
    let mut deployer = Contract::new();
    deployer.register_account(&bob).unwrap();
    deployer.deposit_near(&bob, to_yocto(6)).unwrap();
    let first = "a.deployer".to_string();
    let second = "b.deployer".to_string();
    let third = "c.deployer".to_string();
    deployer.deploy_contract_code(&bob, &first).unwrap();
    deployer.deploy_contract_code(&bob, &second).unwrap();
    deployer.deploy_contract_code(&bob, &third).unwrap();

    assert_eq!(
        deployer.resolve_contract_deploy(&bob, &first, ChainOutcome::Failure),
        Resolution::Compensated
    );
    assert_eq!(deployer.deployed_contracts(&bob), vec![third, second]);
    assert_eq!(deployer.get_available_near(&bob), to_yocto(2));
}
