use roulette::coins::{bet_sums_fit_check, calculate_sum_coins_of_bets, check_coins_match_input, validate_amounts, Bet, Coin, Config};
use roulette::error::ContractError;
use roulette::game::GameResult;
use roulette::round::{handle_game_result, settle_bets};
use rand_core::RngCore;
use secret_toolkit_crypto::ContractPrng;

#[test]
fn test_calculate_sum_coins_of_bets_and_check_coins_match_input() {
    let bets = vec![
        Bet { amount: Coin::new(10, "abc"), result: GameResult::Exact { num: 13 } },
        Bet { amount: Coin::new(5, "def"), result: GameResult::Red },
        Bet { amount: Coin::new(5, "abc"), result: GameResult::Range1to12 },
    ];

    let funds = vec![Coin::new(20, "abc"), Coin::new(5, "def")];

    let config = Config {
        min_bet: 0,
        max_bet: u64::MAX,
        max_total: u64::MAX,
        supported_denoms: vec!["abc".to_string(), "def".to_string()],
    };

    let result = check_coins_match_input(calculate_sum_coins_of_bets(&bets, &config).unwrap(), funds.clone());
    assert_eq!(result, false);

    let bets = vec![
        Bet { amount: Coin::new(10, "abc"), result: GameResult::Exact { num: 13 } },
        Bet { amount: Coin::new(5, "def"), result: GameResult::Red },
        Bet { amount: Coin::new(5, "abc"), result: GameResult::Range1to12 },
    ];

    let funds = vec![Coin::new(15, "abc"), Coin::new(5, "def")];

    let config = Config {
        min_bet: 0,
        max_bet: u64::MAX,
        max_total: u64::MAX,
        supported_denoms: vec!["abc".to_string(), "def".to_string()],
    };

    let result = check_coins_match_input(calculate_sum_coins_of_bets(&bets, &config).unwrap(), funds.clone());
    assert_eq!(result, true);
}

#[test]
fn test_bet_more_than_single_bet_max() {
    let bets = vec![Bet { amount: Coin::new(5, "def"), result: GameResult::Red }];

    let config = Config {
        min_bet: 0,
        max_bet: 3,
        max_total: u64::MAX,
        supported_denoms: vec!["def".to_string()],
    };

    let result = calculate_sum_coins_of_bets(&bets, &config);

    assert_eq!(result.is_err(), true);
}

#[test]
fn test_bet_more_than_max_total() {
    let funds = vec![Coin::new(5, "def")];

    let config = Config {
        min_bet: 0,
        max_bet: 5,
        max_total: 4,
        supported_denoms: vec!["def".to_string()],
    };

    let result = validate_amounts(&funds, config);

    assert_eq!(result.is_err(), true);
}

fn table(min_bet: u64, max_bet: u64, max_total: u64) -> Config {
    Config {
        min_bet,
        max_bet,
        max_total,
        supported_denoms: vec!["token".to_string(), "uscrt".to_string()],
    }
}

#[test]
fn sums_group_by_denomination_in_first_seen_order() {
    let bets = vec![
        Bet { amount: Coin::new(7, "uscrt"), result: GameResult::Odd },
        Bet { amount: Coin::new(3, "token"), result: GameResult::Even },
        Bet { amount: Coin::new(4, "uscrt"), result: GameResult::Red },
    ];
    let sums = calculate_sum_coins_of_bets(&bets, &table(0, 100, 100)).unwrap();
    assert_eq!(sums.len(), 2);
    assert_eq!(sums[0].denom, "uscrt");
    assert_eq!(sums[0].amount, 11);
    assert_eq!(sums[1].denom, "token");
    assert_eq!(sums[1].amount, 3);
}

#[test]
fn bet_errors_come_in_order() {
    let unsupported = vec![Bet { amount: Coin::new(500, "btc"), result: GameResult::Odd }];
    assert_eq!(
        calculate_sum_coins_of_bets(&unsupported, &table(1, 10, 10)).unwrap_err(),
        ContractError::DenomUnsupported
    );
    let high = vec![Bet { amount: Coin::new(11, "token"), result: GameResult::Odd }];
    assert_eq!(calculate_sum_coins_of_bets(&high, &table(1, 10, 10)).unwrap_err(), ContractError::BetAboveMaximum);
    let low = vec![Bet { amount: Coin::new(0, "token"), result: GameResult::Odd }];
    assert_eq!(calculate_sum_coins_of_bets(&low, &table(1, 10, 10)).unwrap_err(), ContractError::BetBelowMinimum);
    // the stake is read as its low 64 bits: 2^64 + 5 passes as 5
    let wide = vec![Bet { amount: Coin::new((1u128 << 64) + 5, "token"), result: GameResult::Odd }];
    assert_eq!(calculate_sum_coins_of_bets(&wide, &table(1, 10, 10)).unwrap()[0].amount, (1u128 << 64) + 5);
    // the first refused bet decides
    let both = vec![
        Bet { amount: Coin::new(11, "token"), result: GameResult::Odd },
        Bet { amount: Coin::new(1, "btc"), result: GameResult::Odd },
    ];
    assert_eq!(calculate_sum_coins_of_bets(&both, &table(1, 10, 10)).unwrap_err(), ContractError::BetAboveMaximum);
}

#[test]
fn fund_errors_come_in_order() {
    assert_eq!(validate_amounts(&vec![Coin::new(0, "token")], table(1, 10, 10)), Err(ContractError::BetBelowMinimum));
    assert_eq!(validate_amounts(&vec![Coin::new(5, "btc")], table(1, 10, 10)), Err(ContractError::DenomUnsupported));
    assert_eq!(validate_amounts(&vec![Coin::new(11, "btc")], table(1, 10, 10)), Err(ContractError::BetAboveMaximum));
    assert_eq!(validate_amounts(&vec![Coin::new(5, "token"), Coin::new(10, "uscrt")], table(1, 10, 10)), Ok(()));
}

#[test]
fn unmatched_denominations_count_as_zero() {
    let sums = vec![Coin::new(5, "token")];
    assert!(check_coins_match_input(sums.clone(), vec![Coin::new(5, "token"), Coin::new(0, "uscrt")]));
    assert!(!check_coins_match_input(sums.clone(), vec![Coin::new(1, "uscrt")]));
    // a summed denomination that no fund names is not checked
    assert!(check_coins_match_input(sums, vec![]));
}

#[test]
fn settle_pays_winning_bets_by_denomination() {
    let bets = vec![
        Bet { amount: Coin::new(200, "token"), result: GameResult::Line { nums: (1, 2) } },
        Bet { amount: Coin::new(10, "token"), result: GameResult::Exact { num: 2 } },
        Bet { amount: Coin::new(5, "uscrt"), result: GameResult::Red },
        Bet { amount: Coin::new(7, "uscrt"), result: GameResult::Black },
    ];
    let (winnings, payouts) = settle_bets(&bets, 2).unwrap();
    // 2 is black: the line, the exact bet and the black bet win
    assert_eq!(winnings.len(), 3);
    assert_eq!(winnings[0].payout, 200 * 18);
    assert_eq!(winnings[1].payout, 10 * 36);
    assert_eq!(winnings[2].payout, 14);
    assert_eq!(payouts.len(), 2);
    assert_eq!(payouts[0].denom, "token");
    assert_eq!(payouts[0].amount, 3600 + 360);
    assert_eq!(payouts[1].denom, "uscrt");
    assert_eq!(payouts[1].amount, 14);
}

#[test]
fn losing_spin_pays_nothing() {
    let bets = vec![Bet { amount: Coin::new(200, "token"), result: GameResult::Black }];
    let (winnings, payouts) = settle_bets(&bets, 1).unwrap();
    assert!(winnings.is_empty());
    assert!(payouts.is_empty());
    let (_, payouts) = settle_bets(&bets, 0).unwrap();
    assert!(payouts.is_empty());
}

#[test]
fn oversized_payout_is_refused() {
    let bets = vec![Bet { amount: Coin::new(u128::MAX / 2 + 1, "token"), result: GameResult::Odd }];
    assert!(settle_bets(&bets, 3).is_none());
    assert!(settle_bets(&bets, 4).is_some());
}

#[test]
fn round_draws_from_the_block_randomness() {
    let bets = vec![Bet { amount: Coin::new(5, "token"), result: GameResult::Red }];
    let funds = vec![Coin::new(5, "token")];
    let seed = vec![7u8; 32];
    let round = handle_game_result(&table(1, 10, 10), &bets, &funds, &Some(seed.clone())).unwrap();
    let expected = ContractPrng::new(&seed, &[]).next_u32() % 37;
    assert_eq!(round.roll, expected);
    let (winnings, payouts) = settle_bets(&bets, expected).unwrap();
    assert_eq!(round.winnings.len(), winnings.len());
    assert_eq!(round.payouts.len(), payouts.len());
}

#[test]
fn round_refusals() {
    let config = table(1, 10, 10);
    let bets = vec![Bet { amount: Coin::new(5, "token"), result: GameResult::Red }];
    let random = Some(vec![1u8; 32]);
    assert_eq!(
        handle_game_result(&config, &bets, &vec![Coin::new(4, "token")], &random).unwrap_err(),
        ContractError::FundsMismatch
    );
    assert_eq!(
        handle_game_result(&config, &bets, &vec![Coin::new(11, "token")], &random).unwrap_err(),
        ContractError::BetAboveMaximum
    );
    let invalid = vec![Bet { amount: Coin::new(5, "token"), result: GameResult::Line { nums: (3, 4) } }];
    assert_eq!(
        handle_game_result(&config, &invalid, &vec![Coin::new(5, "token")], &random).unwrap_err(),
        ContractError::InvalidBet
    );
    assert_eq!(
        handle_game_result(&config, &bets, &vec![Coin::new(5, "token")], &None).unwrap_err(),
        ContractError::RandomUnavailable
    );
    assert_eq!(ContractError::FundsMismatch.message(), "Input funds don't match sum of bets");
}

#[test]
fn bet_sums_fit_up_to_the_first_refused_bet() {
    let config = table(1, 10, 10);
    let big = Bet { amount: Coin::new((1u128 << 127) + 5, "token"), result: GameResult::Odd };
    let more = Bet { amount: Coin::new(5, "token"), result: GameResult::Odd };
    let refused = Bet { amount: Coin::new(5, "btc"), result: GameResult::Odd };
    assert!(bet_sums_fit_check(&vec![more.clone()], &config));
    assert!(bet_sums_fit_check(&vec![big.clone(), more.clone()], &config));
    assert!(!bet_sums_fit_check(&vec![big.clone(), big.clone()], &config));
    assert!(bet_sums_fit_check(&vec![big.clone(), refused, big], &config));
}

#[test]
fn round_refuses_a_payout_beyond_128_bits() {
    // The stake's low 64 bits are 5, so the table takes it; no fund names its
    // denomination, so the funds check passes; the doubled stake overflows.
    let config = table(1, 10, 10);
    let bets = vec![Bet { amount: Coin::new((1u128 << 127) + 5, "token"), result: GameResult::Odd }];
    let mut seed: u8 = 0;
    loop {
        let roll = ContractPrng::new(&[seed; 32], &[]).next_u32() % 37;
        if roll % 2 == 1 {
            break;
        }
        seed += 1;
    }
    assert_eq!(
        handle_game_result(&config, &bets, &vec![], &Some(vec![seed; 32])).unwrap_err(),
        ContractError::PayoutOverflow
    );
}
