use token_set::shared::{MetadataReference, TokenWithRatioValid};
use token_set::token_set::{Contract, FtMetadata};
use token_set::token_set_info::{FeeReceiver, TokenSetError};

const BASE_MIN_STORAGE: u128 = 10_000;
const PER_BALANCE_STORAGE_COST: u128 = 250;

fn ratios(entries: &[(&str, u32)]) -> Vec<TokenWithRatioValid> {
    entries
        .iter()
        .map(|(token_id, ratio)| TokenWithRatioValid {
            token_id: token_id.to_string(),
            ratio: *ratio,
        })
        .collect()
}

fn new_contract(
    owner: &str,
    entries: &[(&str, u32)],
    owner_fee: u128,
    platform_fee: u128,
    platform: &str,
) -> Contract {
    Contract::new_default_meta(
        owner.to_string(),
        "YOUR MOM".to_string(),
        "YOUR MOM".to_string(),
        None,
        ratios(entries),
        platform_fee,
        platform.to_string(),
        owner_fee,
        None,
        None,
        BASE_MIN_STORAGE,
        PER_BALANCE_STORAGE_COST,
    )
    .unwrap()
}

#[test]
fn test_new() {
    let contract = new_contract("charlie", &[("fargo", 1)], 0, 0, "eugene");
    assert_eq!(contract.ft_total_supply(), 0);
    assert_eq!(contract.ft_balance_of(&"bob".to_string()), 0);
}

#[test]
fn test_non_unique_tokens() {
    let result = Contract::new_default_meta(
        "charlie".to_string(),
        "YOUR MOM".to_string(),
        "YOUR MOM".to_string(),
        None,
        ratios(&[("alice", 1), ("alice", 1)]),
        0,
        "bob".to_string(),
        0,
        None,
        None,
        BASE_MIN_STORAGE,
        PER_BALANCE_STORAGE_COST,
    );
    assert_eq!(result.err().unwrap(), TokenSetError::DuplicateAsset);
}

#[test]
fn test_metadata_update() {
    let owner = "bob".to_string();
    let mut contract = new_contract("bob", &[("fargo", 1)], 0, 0, "platform1");

    let metadata_ref =
        MetadataReference { reference: "ref".to_string(), reference_hash: vec![] };
    contract.update_metadata_reference(&owner, Some(metadata_ref.clone())).unwrap();
    let meta = contract.set_metadata().ft_metadata;
    assert_eq!(meta.reference.unwrap(), metadata_ref.reference);
    assert_eq!(meta.reference_hash.unwrap(), metadata_ref.reference_hash);

    contract.update_metadata_reference(&owner, None).unwrap();

    let meta = contract.set_metadata().ft_metadata;
    assert!(meta.reference.as_ref().is_none());
    assert!(meta.reference_hash.as_ref().is_none());
}

#[test]
/// Check that minimum storage linearly increases with the number of tokens
/// in a set
fn test_min_account_storage() {
    let mut prior_min_bal: u128 = 0;
    let mut expected_diff: u128 = 0;
    for i in 1..5 {
        let token_ratios: Vec<(String, u32)> =
            (0..i).map(|x| (format!("account{}", x), 1u32)).collect();
        let entries: Vec<(&str, u32)> =
            token_ratios.iter().map(|(t, r)| (t.as_str(), *r)).collect();
        let owner = format!("owner{}", i);
        let platform = format!("platform{}", i);
        let contract = new_contract(&owner, &entries, 0, 0, &platform);
        let storage_min = contract.min_account_storage();

        if i == 2 {
            expected_diff = storage_min - prior_min_bal;
        } else if i > 2 {
            assert_eq!(storage_min - prior_min_bal, expected_diff);
        }
        prior_min_bal = storage_min;
    }
}

#[test]
fn test_wrap_transfer() {
    let token_id = "fargo".to_string();
    let bob = "bob".to_string();
    let charlie = "charlie".to_string();
    let mut contract = new_contract("charlie", &[("fargo", 1)], 0, 0, "eugene");

    contract.register_account(&bob).unwrap();

    let amount_transfer = 100;
    contract.increase_balance(&bob, &token_id, amount_transfer).unwrap();

    assert_eq!(contract.get_ft_balance_internal(&bob, &token_id), amount_transfer);

    let wrapped = contract.wrap(&bob, None).unwrap();
    assert_eq!(wrapped, amount_transfer);
    assert_eq!(contract.get_ft_balance_internal(&bob, &token_id), 0);

    assert_eq!(contract.ft_balance_of(&bob), amount_transfer);
    contract.ft_transfer(&bob, &charlie, amount_transfer).unwrap();

    assert_eq!(contract.ft_balance_of(&bob), 0);
    assert_eq!(contract.ft_balance_of(&charlie), amount_transfer);
}

#[test]
fn simulate_init() {
    let initial_balance = 1_000;
    let alice = "alice".to_string();
    let mut contract = new_contract("bob", &[("ft0", 1), ("ft1", 2)], 0, 0, "root");
    contract.increase_balance(&alice, &"ft0".to_string(), initial_balance).unwrap();
    contract.increase_balance(&alice, &"ft1".to_string(), initial_balance).unwrap();

    assert_eq!(contract.get_ft_balance_internal(&alice, &"ft0".to_string()), initial_balance);
    assert_eq!(contract.get_ft_balance_internal(&alice, &"ft1".to_string()), initial_balance);
}

#[test]
fn simulate_overwrapping() {
    let alice = "alice".to_string();
    let mut contract = new_contract("bob", &[("ft0", 1), ("ft1", 2), ("ft2", 4)], 0, 0, "root");
    contract.register_account(&alice).unwrap();
    // Alice holds nothing, so wrapping 100 must be rejected.
    let result = contract.wrap(&alice, Some(100));
    assert_eq!(result.err().unwrap(), TokenSetError::InsufficientBasketBalance);
}

#[test]
fn simulate_wrapping() {
    let initial_balance: u128 = 1_000;
    // 1% fee
    let platform_fee: u128 = 10_000_000_000_000;
    // 4% fee
    let owner_fee: u128 = 40_000_000_000_000;
    let ratios_list: [u32; 3] = [1, 2, 4];
    let alice = "alice".to_string();
    let root = "root".to_string();
    let bob = "bob".to_string();
    let fts = ["ft0".to_string(), "ft1".to_string(), "ft2".to_string()];

    let mut contract = new_contract(
        "bob",
        &[("ft0", 1), ("ft1", 2), ("ft2", 4)],
        owner_fee,
        platform_fee,
        "root",
    );
    contract.register_account(&alice).unwrap();

    for ft in fts.iter() {
        contract.increase_balance(&alice, ft, initial_balance).unwrap();
        assert_eq!(contract.get_ft_balance_internal(&alice, ft), initial_balance);
    }

    let minted = contract.wrap(&alice, None).unwrap();

    let amount_minted = initial_balance / 4;
    assert_eq!(minted, amount_minted);
    let expected_root = amount_minted * 1_000 / 100_000;
    let expected_bob = amount_minted * 4_000 / 100_000;
    let expected_alice = amount_minted - expected_bob - expected_root;

    // Check the ft balances decreased after wrapping
    for (i, ft) in fts.iter().enumerate() {
        let expected_bal = initial_balance - amount_minted * ratios_list[i] as u128;
        assert_eq!(contract.get_ft_balance_internal(&alice, ft), expected_bal);
    }

    assert_eq!(contract.ft_total_supply(), amount_minted);
    assert_eq!(contract.ft_balance_of(&alice), expected_alice);
    // The platform
    assert_eq!(contract.ft_balance_of(&root), expected_root);
    // The owner
    assert_eq!(contract.ft_balance_of(&bob), expected_bob);
    assert_eq!(contract.ft_total_supply(), amount_minted);

    // Unwrap
    contract.unwrap(&alice, expected_alice).unwrap();

    assert_eq!(contract.ft_total_supply(), amount_minted - expected_alice);
    assert_eq!(contract.ft_balance_of(&alice), 0);

    // Check the balances increased on unwrapping
    for (i, ft) in fts.iter().enumerate() {
        let fee_taken = (expected_bob + expected_root) * ratios_list[i] as u128;
        let expected_bal = initial_balance - fee_taken;
        assert_eq!(contract.get_ft_balance_internal(&alice, ft), expected_bal);
    }
}
