use lossless_lottery::account::AccountId;
use lossless_lottery::errors::LotteryError;
use lossless_lottery::lottery::Contract;

use rand::rngs::StdRng;
use rand::Rng;
use rand::SeedableRng;

fn account(text: &str) -> AccountId {
    AccountId::new(text.to_string())
}

fn new_contract(min_deposit: u128) -> Contract {
    Contract::new(account("owner.testnet"), account("staking.testnet"), min_deposit)
}

#[test]
fn test_initialization() {
    let contract = new_contract(1_000_000);
    assert_eq!(contract.min_deposit, 1_000_000);
}

#[test]
fn test_total_investment_sums_distinct_investors() {
    let mut contract = new_contract(1_000_000);
    let delegation = contract.invest(account("a.testnet"), 100).unwrap();
    assert_eq!(delegation.amount, 100);
    assert_eq!(delegation.target, account("staking.testnet"));
    contract.invest(account("b.testnet"), 200).unwrap();
    assert_eq!(contract.total_investment(), 300);
    assert_eq!(contract.total_stake, 300);
}

#[test]
fn test_reinvesting_overwrites_earlier_amount() {
    let mut contract = new_contract(1_000_000);
    contract.invest(account("a.testnet"), 100).unwrap();
    contract.invest(account("a.testnet"), 250).unwrap();
    // Latest-deposit-wins: the sum reflects only the latest amount per account.
    assert_eq!(contract.total_investment(), 250);
    assert_eq!(contract.investors.balance(&account("a.testnet")), Some(250));
    // The aggregate stake keeps counting every accepted investment.
    assert_eq!(contract.total_stake, 350);
}

#[test]
fn test_invest_overflow_is_detected_and_mutates_nothing() {
    let mut contract = new_contract(1_000_000);
    contract.invest(account("a.testnet"), u128::MAX).unwrap();
    let refused = contract.invest(account("b.testnet"), 1);
    assert_eq!(refused.unwrap_err(), LotteryError::ArithmeticOverflow);
    assert_eq!(contract.total_stake, u128::MAX);
    assert_eq!(contract.total_investment(), u128::MAX);
    assert_eq!(contract.investors.balance(&account("b.testnet")), None);
}

#[test]
fn test_play_below_minimum_is_refused_without_mutation() {
    let mut contract = new_contract(1_000_000);
    let refused = contract.play(account("a.testnet"), 500_000);
    assert_eq!(refused.unwrap_err(), LotteryError::InvalidDeposit);
    assert_eq!(contract.players.balance(&account("a.testnet")), None);
    assert_eq!(contract.total_player_deposit(), Ok(0));
    let draw = contract.select_winner(&vec![1, 2, 3]);
    assert_eq!(draw.unwrap_err(), LotteryError::NoPlayers);
}

#[test]
fn test_sole_player_always_wins() {
    let mut contract = new_contract(1_000_000);
    assert_eq!(
        contract.play(account("a.testnet"), 500_000).unwrap_err(),
        LotteryError::InvalidDeposit
    );
    contract.play(account("a.testnet"), 2_000_000).unwrap();
    let winner = contract.select_winner(&vec![9, 9, 9, 9]).unwrap();
    assert_eq!(winner, account("a.testnet"));
}

#[test]
fn test_select_winner_without_players_fails() {
    let contract = new_contract(1);
    let draw = contract.select_winner(&Vec::new());
    assert_eq!(draw.unwrap_err(), LotteryError::NoPlayers);
}

#[test]
fn test_select_winner_is_deterministic_in_entropy() {
    let mut contract = new_contract(1);
    contract.play(account("a.testnet"), 10).unwrap();
    contract.play(account("b.testnet"), 20).unwrap();
    contract.play(account("c.testnet"), 30).unwrap();
    let entropy: Vec<u8> = (0u8..32).collect();
    let first = contract.select_winner(&entropy).unwrap();
    let second = contract.select_winner(&entropy).unwrap();
    assert_eq!(first, second);
    let players = [account("a.testnet"), account("b.testnet"), account("c.testnet")];
    assert!(players.iter().any(|p| *p == first));
}

#[test]
fn test_short_entropy_is_zero_padded() {
    let mut contract = new_contract(1);
    contract.play(account("a.testnet"), 10).unwrap();
    contract.play(account("b.testnet"), 20).unwrap();
    contract.play(account("c.testnet"), 30).unwrap();
    let short = vec![1, 2, 3];
    let mut padded = vec![1, 2, 3];
    padded.resize(32, 0);
    assert_eq!(
        contract.select_winner(&short).unwrap(),
        contract.select_winner(&padded).unwrap()
    );
}

#[test]
fn test_winner_frequencies_are_near_uniform() {
    let mut contract = new_contract(1);
    let names = ["a.testnet", "b.testnet", "c.testnet", "d.testnet"];
    for name in names {
        contract.play(account(name), 10).unwrap();
    }
    let accounts: Vec<AccountId> = names.iter().map(|n| account(n)).collect();
    let mut counts = [0u32; 4];
    let mut master = StdRng::seed_from_u64(7);
    let trials = 2000;
    for _ in 0..trials {
        let mut entropy = [0u8; 32];
        master.fill(&mut entropy);
        let winner = contract.select_winner(&entropy.to_vec()).unwrap();
        let position = accounts.iter().position(|p| *p == winner).unwrap();
        counts[position] += 1;
    }
    // Expected 500 hits each over 2000 trials; allow a generous band.
    for count in counts {
        assert!(count >= 350, "a player was drawn only {count} times");
        assert!(count <= 650, "a player was drawn {count} times");
    }
}

#[test]
fn test_simulate_profit_uses_floor_division() {
    let mut contract = new_contract(1_000_000);
    contract.invest(account("a.testnet"), 955).unwrap();
    assert_eq!(contract.total_stake, 955);
    assert_eq!(contract.simulate_profit(), 95);
}

#[test]
fn test_total_player_deposit_sums_and_detects_overflow() {
    let mut contract = new_contract(1);
    contract.play(account("a.testnet"), 5).unwrap();
    contract.play(account("b.testnet"), 7).unwrap();
    assert_eq!(contract.total_player_deposit(), Ok(12));
    contract.play(account("a.testnet"), u128::MAX).unwrap();
    contract.play(account("b.testnet"), 1).unwrap();
    assert_eq!(
        contract.total_player_deposit(),
        Err(LotteryError::ArithmeticOverflow)
    );
}
