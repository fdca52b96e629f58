use token_set::token_set::{Contract, FtMetadata};
use token_set::token_set_info::{FeeReceiver, TokenSetError};
use token_set::shared::{MetadataReference, TokenWithRatioValid};

const BASE_MIN_STORAGE: u128 = 10_000;
const PER_BALANCE_STORAGE_COST: u128 = 250;

fn ratios(entries: &[(&str, u32)]) -> Vec<TokenWithRatioValid> {
    entries
        .iter()
        .map(|(token_id, ratio)| TokenWithRatioValid {
            token_id: token_id.to_string(),
            ratio: *ratio,
        })
        .collect()
}

fn new_contract(
    owner: &str,
    entries: &[(&str, u32)],
    owner_fee: u128,
    platform_fee: u128,
    platform: &str,
) -> Result<Contract, TokenSetError> {
    Contract::new_default_meta(
        owner.to_string(),
        "Basket".to_string(),
        "BSK".to_string(),
        None,
        ratios(entries),
        platform_fee,
        platform.to_string(),
        owner_fee,
        None,
        None,
        BASE_MIN_STORAGE,
        PER_BALANCE_STORAGE_COST,
    )
}

/// Constructing with a duplicate asset id fails and no engine exists.
#[test]
fn duplicate_asset_rejected() {
    let result = new_contract("owner", &[("a", 1), ("a", 2)], 0, 0, "platform");
    assert_eq!(result.err().unwrap(), TokenSetError::DuplicateAsset);
}

/// Basket of two assets with ratios [1, 2], zero fees, the account holding
/// 1000 of each: wrapping without an explicit amount wraps
/// min(1000 / 1, 1000 / 2) = 500, debits 500 and 1000 from the components,
/// and credits the caller with 500 derivative units.
#[test]
fn wrap_two_assets_zero_fees() {
    let alice = "alice".to_string();
    let asset0 = "asset0".to_string();
    let asset1 = "asset1".to_string();
    let mut contract = new_contract("owner", &[("asset0", 1), ("asset1", 2)], 0, 0, "platform")
        .unwrap();
    contract.register_account(&alice).unwrap();
    contract.increase_balance(&alice, &asset0, 1000).unwrap();
    contract.increase_balance(&alice, &asset1, 1000).unwrap();

    let minted = contract.wrap(&alice, None).unwrap();
    assert_eq!(minted, 500);
    assert_eq!(contract.get_ft_balance_internal(&alice, &asset0), 500);
    assert_eq!(contract.get_ft_balance_internal(&alice, &asset1), 0);
    assert_eq!(contract.ft_balance_of(&alice), 500);
    assert_eq!(contract.ft_total_supply(), 500);
}

/// Same basket with a 1% owner fee and a 4% platform fee: wrapping
/// 250_000_000 yields an owner increment of 2_500_000, a platform increment
/// of 10_000_000 and a caller share of 237_500_000; the three sum to the
/// gross amount exactly.
#[test]
fn wrap_with_fee_split() {
    let alice = "alice".to_string();
    let owner = "owner".to_string();
    let platform = "platform".to_string();
    let asset0 = "asset0".to_string();
    let asset1 = "asset1".to_string();
    let owner_fee: u128 = 10_000_000_000_000;
    let platform_fee: u128 = 40_000_000_000_000;
    let mut contract = new_contract(
        "owner",
        &[("asset0", 1), ("asset1", 2)],
        owner_fee,
        platform_fee,
        "platform",
    )
    .unwrap();
    contract.register_account(&alice).unwrap();
    contract.increase_balance(&alice, &asset0, 250_000_000).unwrap();
    contract.increase_balance(&alice, &asset1, 500_000_000).unwrap();

    let minted = contract.wrap(&alice, Some(250_000_000)).unwrap();
    assert_eq!(minted, 250_000_000);
    let owner_increment = contract.ft_balance_of(&owner);
    let platform_increment = contract.ft_balance_of(&platform);
    let caller_increment = contract.ft_balance_of(&alice);
    assert_eq!(owner_increment, 2_500_000);
    assert_eq!(platform_increment, 10_000_000);
    assert_eq!(caller_increment, 250_000_000 - 12_500_000);
    assert_eq!(owner_increment + platform_increment + caller_increment, 250_000_000);
}

#[test]
fn empty_basket_rejected() {
    let result = new_contract("owner", &[], 0, 0, "platform");
    assert_eq!(result.err().unwrap(), TokenSetError::EmptyBasket);
}

#[test]
fn zero_ratio_rejected() {
    let result = new_contract("owner", &[("a", 1), ("b", 0)], 0, 0, "platform");
    assert_eq!(result.err().unwrap(), TokenSetError::ZeroRatio);
}

#[test]
fn fee_out_of_range_rejected() {
    // Each fee is within the denominator but the sum exceeds it.
    let result = new_contract(
        "owner",
        &[("a", 1)],
        600_000_000_000_000,
        600_000_000_000_000,
        "platform",
    );
    assert_eq!(result.err().unwrap(), TokenSetError::FeeOutOfRange);
    // A single fee beyond the denominator.
    let result = new_contract("owner", &[("a", 1)], 1_000_000_000_000_001, 0, "platform");
    assert_eq!(result.err().unwrap(), TokenSetError::FeeOutOfRange);
}

#[test]
fn storage_overflow_rejected() {
    let result = Contract::new_default_meta(
        "owner".to_string(),
        "Basket".to_string(),
        "BSK".to_string(),
        None,
        ratios(&[("a", 1), ("b", 1)]),
        0,
        "platform".to_string(),
        0,
        None,
        None,
        u128::MAX,
        1,
    );
    assert_eq!(result.err().unwrap(), TokenSetError::StorageOverflow);
}

#[test]
fn wrap_unregistered_caller_rejected() {
    let alice = "alice".to_string();
    let mut contract = new_contract("owner", &[("a", 1)], 0, 0, "platform").unwrap();
    let result = contract.wrap(&alice, Some(0));
    assert_eq!(result.err().unwrap(), TokenSetError::NotRegistered);
}

#[test]
fn unwrap_insufficient_balance_rejected() {
    let alice = "alice".to_string();
    let mut contract = new_contract("owner", &[("a", 1)], 0, 0, "platform").unwrap();
    contract.register_account(&alice).unwrap();
    let result = contract.unwrap(&alice, 1);
    assert_eq!(result.err().unwrap(), TokenSetError::InsufficientDerivativeBalance);
}

#[test]
fn wrap_total_supply_overflow_rejected() {
    let alice = "alice".to_string();
    let asset = "a".to_string();
    let mut contract = new_contract("owner", &[("a", 1)], 0, 0, "platform").unwrap();
    contract.register_account(&alice).unwrap();
    contract.increase_balance(&alice, &asset, u128::MAX).unwrap();
    contract.wrap(&alice, Some(u128::MAX)).unwrap();
    assert_eq!(contract.ft_total_supply(), u128::MAX);
    contract.increase_balance(&alice, &asset, 1).unwrap();
    let result = contract.wrap(&alice, Some(1));
    assert_eq!(result.err().unwrap(), TokenSetError::BalanceOverflow);
}

#[test]
fn unwrap_credit_overflow_rejected() {
    let alice = "alice".to_string();
    let asset = "a".to_string();
    let mut contract = new_contract("owner", &[("a", 1)], 0, 0, "platform").unwrap();
    contract.register_account(&alice).unwrap();
    contract.increase_balance(&alice, &asset, 10).unwrap();
    contract.wrap(&alice, Some(10)).unwrap();
    contract.increase_balance(&alice, &asset, u128::MAX).unwrap();
    let result = contract.unwrap(&alice, 5);
    assert_eq!(result.err().unwrap(), TokenSetError::BalanceOverflow);
}

#[test]
fn update_owner_fee_guards() {
    let owner = "owner".to_string();
    let alice = "alice".to_string();
    // Not updatable by default.
    let mut contract = new_contract("owner", &[("a", 1)], 0, 0, "platform").unwrap();
    assert_eq!(
        contract.update_owner_fee(&alice, 1).unwrap_err(),
        TokenSetError::NotOwner
    );
    assert_eq!(
        contract.update_owner_fee(&owner, 1).unwrap_err(),
        TokenSetError::FeeNotUpdatable
    );

    // An updatable policy accepts an in-range fee and rejects one that would
    // push the combined fees past the denominator.
    let mut contract = Contract::new_default_meta(
        "owner".to_string(),
        "Basket".to_string(),
        "BSK".to_string(),
        None,
        ratios(&[("a", 1)]),
        600_000_000_000_000,
        "platform".to_string(),
        0,
        Some(true),
        None,
        BASE_MIN_STORAGE,
        PER_BALANCE_STORAGE_COST,
    )
    .unwrap();
    contract.update_owner_fee(&owner, 400_000_000_000_000).unwrap();
    assert_eq!(
        contract.update_owner_fee(&owner, 400_000_000_000_001).unwrap_err(),
        TokenSetError::FeeOutOfRange
    );
}

#[test]
fn register_twice_rejected() {
    let alice = "alice".to_string();
    let mut contract = new_contract("owner", &[("a", 1)], 0, 0, "platform").unwrap();
    contract.register_account(&alice).unwrap();
    assert_eq!(
        contract.register_account(&alice).unwrap_err(),
        TokenSetError::AlreadyRegistered
    );
}

#[test]
fn transfer_guards() {
    let alice = "alice".to_string();
    let bob = "bob".to_string();
    let carol = "carol".to_string();
    let asset = "a".to_string();
    let mut contract = new_contract("owner", &[("a", 1)], 0, 0, "platform").unwrap();
    contract.register_account(&alice).unwrap();
    assert_eq!(
        contract.ft_transfer(&alice, &carol, 1).unwrap_err(),
        TokenSetError::NotRegistered
    );
    contract.register_account(&bob).unwrap();
    assert_eq!(
        contract.ft_transfer(&alice, &alice, 0).unwrap_err(),
        TokenSetError::SelfTransfer
    );
    assert_eq!(
        contract.ft_transfer(&alice, &bob, 1).unwrap_err(),
        TokenSetError::InsufficientDerivativeBalance
    );
    contract.increase_balance(&alice, &asset, 5).unwrap();
    contract.wrap(&alice, None).unwrap();
    contract.ft_transfer(&alice, &bob, 3).unwrap();
    assert_eq!(contract.ft_balance_of(&alice), 2);
    assert_eq!(contract.ft_balance_of(&bob), 3);
}

#[test]
fn burn_hooks_credit_components() {
    let alice = "alice".to_string();
    let asset = "a".to_string();
    let platform = "platform".to_string();
    let mut contract = new_contract("owner", &[("a", 2)], 0, 0, "platform").unwrap();
    contract.register_account(&alice).unwrap();
    contract.increase_balance(&alice, &asset, 10).unwrap();
    contract.wrap(&alice, None).unwrap();

    // A burn outside a full unwrap hands the backing assets to the burner.
    contract.on_tokens_burned(&alice, 3).unwrap();
    assert_eq!(contract.get_ft_balance_internal(&alice, &asset), 6);

    // A closed account's backing goes to the platform beneficiary.
    contract.on_account_closed(&alice, 2).unwrap();
    assert_eq!(contract.get_ft_balance_internal(&platform, &asset), 4);
}

/// The minimum storage requirement is affine in the component count:
/// f(2) - f(1) == f(3) - f(2).
#[test]
fn min_storage_affine() {
    let f = |n: usize| -> u128 {
        let entries: Vec<(String, u32)> =
            (0..n).map(|x| (format!("asset{}", x), 1u32)).collect();
        let borrowed: Vec<(&str, u32)> =
            entries.iter().map(|(t, r)| (t.as_str(), *r)).collect();
        new_contract("owner", &borrowed, 0, 0, "platform")
            .unwrap()
            .min_account_storage()
    };
    assert_eq!(f(2) - f(1), f(3) - f(2));
    assert_eq!(f(1), BASE_MIN_STORAGE + PER_BALANCE_STORAGE_COST);
}

/// A document reference without its hash (or the other way round) is
/// rejected before anything else is validated.
#[test]
fn mismatched_metadata_reference_rejected() {
    let metadata = FtMetadata {
        spec_version: "ft-1.0.0".to_string(),
        name: "Basket".to_string(),
        symbol: "BSK".to_string(),
        icon: None,
        reference: Some("ref".to_string()),
        reference_hash: None,
        decimals: 24,
    };
    let result = Contract::new(
        "owner".to_string(),
        metadata,
        ratios(&[("a", 1)]),
        FeeReceiver {
            owner_fee: 0,
            platform_fee: 0,
            platform_id: "platform".to_string(),
            updatable: false,
        },
        BASE_MIN_STORAGE,
        PER_BALANCE_STORAGE_COST,
    );
    assert_eq!(result.err().unwrap(), TokenSetError::InvalidMetadata);
}

#[test]
fn metadata_update_requires_owner() {
    let alice = "alice".to_string();
    let mut contract = new_contract("owner", &[("a", 1)], 0, 0, "platform").unwrap();
    let reference =
        MetadataReference { reference: "ref".to_string(), reference_hash: vec![1, 2, 3] };
    assert_eq!(
        contract.update_metadata_reference(&alice, Some(reference)).unwrap_err(),
        TokenSetError::NotOwner
    );
    assert!(contract.set_metadata().ft_metadata.reference.is_none());
}
