use roulette::coins::Coin;
use roulette::error::ContractError;
use roulette::ledger::{
    admin_withdraw as withdraw_as_admin, authorize_admin, try_apply_update, try_commit_response, try_submit_deposit,
    try_submit_transfer, try_submit_withdraw, try_write_checkpoint, AddressBalance, CheckPoint,
    RequestQueue, RequestType, ResponseState, State,
};
use roulette::ledger::checked_funds_total;
use roulette::coins::Bet;
use roulette::game::GameResult;
use roulette::msg::InstantiateMsg;
use roulette::round::handle_game_result;
use roulette::setup::{instantiate, Genesis};
use rand_core::RngCore;
use secret_toolkit_crypto::ContractPrng;

fn response(seqno: u128) -> ResponseState {
    ResponseState { seqno, status: true, amount: 0, response: String::new() }
}

/// A table that takes `token` within the default limits, with no admin named.
fn test_msg() -> InstantiateMsg {
    InstantiateMsg {
        min_bet: None,
        max_bet: None,
        max_total: None,
        supported_denoms: Some(vec!["token".to_string()]),
        admin: None,
    }
}

/// The block randomness of the chain's mock environment.
fn mock_random() -> Vec<u8> {
    vec![
        192, 187, 10, 117, 255, 236, 98, 171, 210, 48, 141, 6, 209, 165, 145, 142, 134, 246, 230, 106,
        200, 7, 69, 80, 86, 52, 227, 13, 121, 195, 105, 249,
    ]
}

/// A bet of 200 token on `result`, with the 200 token sent for it, after instantiation.
fn play(genesis: &Genesis, result: GameResult) -> roulette::round::Round {
    let bets = vec![Bet { amount: Coin::new(200, "token"), result }];
    handle_game_result(&genesis.config, &bets, &vec![Coin::new(200, "token")], &Some(mock_random())).unwrap()
}

#[test]
fn new_game_loser() {
    let genesis = instantiate("creator".to_string(), &mock_random(), test_msg());
    let res = play(&genesis, GameResult::Black);
    // no payout, so no bank message
    assert_eq!(res.payouts.len(), 0)
}

#[test]
fn new_game_winner() {
    let genesis = instantiate("creator".to_string(), &mock_random(), test_msg());
    let res = play(&genesis, GameResult::Line { nums: (1, 2) });
    // one payout to send
    assert_eq!(res.payouts.len(), 1);
    assert_eq!(res.payouts[0].denom, "token");
    assert_eq!(res.payouts[0].amount, 200 * 18);
}

#[test]
fn change_admin() {
    let genesis = instantiate("creator".to_string(), &mock_random(), test_msg());
    let mut admin = genesis.admin;
    let res = roulette::ledger::change_admin(&mut admin, &"creator".to_string(), "creator2".to_string());
    assert!(res.is_ok());

    let res = withdraw_as_admin(&admin, "creator2".to_string(), Coin::new(200, "token"));
    assert!(res.is_ok());
}

#[test]
fn change_admin_fail() {
    let genesis = instantiate("creator".to_string(), &mock_random(), test_msg());
    let mut admin = genesis.admin;
    let res = roulette::ledger::change_admin(&mut admin, &"creator2".to_string(), "creator2".to_string());
    assert!(res.is_err());
    assert_eq!(admin, "creator");
}

#[test]
fn admin_withdraw() {
    let genesis = instantiate("creator".to_string(), &mock_random(), test_msg());
    let res = play(&genesis, GameResult::Line { nums: (1, 2) });
    assert_eq!(res.payouts.len(), 1);

    let (to, coin) = roulette::ledger::admin_withdraw(&genesis.admin, "creator".to_string(), Coin::new(200, "token")).unwrap();
    assert_eq!(to, "creator");
    assert_eq!(coin.denom, "token");
    assert_eq!(coin.amount, 200);

    let res = roulette::ledger::admin_withdraw(&genesis.admin, "creator2".to_string(), Coin::new(200, "token"));
    assert!(res.is_err());
}

#[test]
fn admin_withdraw_goes_to_admin_only() {
    let admin = "creator".to_string();
    let (to, coin) = withdraw_as_admin(&admin, "creator".to_string(), Coin::new(200, "token")).unwrap();
    assert_eq!(to, "creator");
    assert_eq!(coin.amount, 200);
    assert_eq!(
        withdraw_as_admin(&admin, "creator2".to_string(), Coin::new(200, "token")).unwrap_err(),
        ContractError::Unauthorized
    );
    assert_eq!(ContractError::Unauthorized.message(), "You no take candle");
    assert!(authorize_admin(&admin, &"creator".to_string()).is_ok());
}

#[test]
fn requests_take_consecutive_slots() {
    let mut queue = RequestQueue::new();
    let (slot, req) =
        try_submit_deposit(&mut queue, "alice".to_string(), &vec![Coin::new(3, "uscrt"), Coin::new(4, "token")]).unwrap();
    assert_eq!(slot, 0);
    assert_eq!(req.reqtype, RequestType::DEPOSIT);
    assert_eq!(req.amount, 7);
    assert_eq!(req.from, "alice");
    assert!(req.to.is_none());
    let (slot, req) =
        try_submit_transfer(&mut queue, "alice".to_string(), "bob".to_string(), 5, "rent".to_string()).unwrap();
    assert_eq!(slot, 1);
    assert_eq!(req.reqtype, RequestType::TRANSFER);
    assert_eq!(req.to, Some("bob".to_string()));
    assert_eq!(req.memo, Some("rent".to_string()));
    let (slot, req) = try_submit_withdraw(&mut queue, "bob".to_string(), 2).unwrap();
    assert_eq!(slot, 2);
    assert_eq!(req.reqtype, RequestType::WITHDRAW);
    assert_eq!(queue, RequestQueue { len: 3, seqno: 0 });
}

#[test]
fn zero_requests_are_refused_and_take_no_slot() {
    let mut queue = RequestQueue::new();
    assert_eq!(
        try_submit_deposit(&mut queue, "alice".to_string(), &vec![]).unwrap_err(),
        ContractError::NoDepositFunds
    );
    assert_eq!(
        try_submit_transfer(&mut queue, "alice".to_string(), "bob".to_string(), 0, String::new()).unwrap_err(),
        ContractError::NoTransferFunds
    );
    assert_eq!(
        try_submit_withdraw(&mut queue, "alice".to_string(), 0).unwrap_err(),
        ContractError::NoTransferFunds
    );
    assert_eq!(queue, RequestQueue { len: 0, seqno: 0 });
}

#[test]
fn responses_commit_in_order_and_once() {
    let mut queue = RequestQueue::new();
    try_submit_withdraw(&mut queue, "bob".to_string(), 2).unwrap();
    try_submit_withdraw(&mut queue, "bob".to_string(), 3).unwrap();
    assert_eq!(try_commit_response(&mut queue, &response(1)), Err(ContractError::ResponseOutOfOrder));
    assert_eq!(try_commit_response(&mut queue, &response(0)), Ok(0));
    assert_eq!(try_commit_response(&mut queue, &response(0)), Err(ContractError::ResponseOutOfOrder));
    assert_eq!(try_commit_response(&mut queue, &response(1)), Ok(1));
    assert_eq!(try_commit_response(&mut queue, &response(2)), Err(ContractError::ResponseBeyondRequests));
    assert_eq!(queue, RequestQueue { len: 2, seqno: 2 });
}

#[test]
fn checkpoints_never_go_back() {
    let old = CheckPoint { checkpoint: vec![], seqno: 5, resp_seqno: 4 };
    let newer = CheckPoint {
        checkpoint: vec![AddressBalance { balance: 9, address: "alice".to_string() }],
        seqno: 6,
        resp_seqno: 6,
    };
    let stored = try_write_checkpoint(&old, newer).unwrap();
    assert_eq!(stored.seqno, 6);
    assert_eq!(stored.checkpoint.len(), 1);
    let same = CheckPoint { checkpoint: vec![], seqno: 5, resp_seqno: 5 };
    assert!(try_write_checkpoint(&old, same).is_ok());
    let older = CheckPoint { checkpoint: vec![], seqno: 4, resp_seqno: 4 };
    assert_eq!(try_write_checkpoint(&old, older).unwrap_err(), ContractError::CheckpointTooOld);
}

#[test]
fn hash_chain_advances_one_link_at_a_time() {
    let store = State { owner: "creator".to_string(), key: vec![1, 2], current_hash: vec![3], counter: 7 };
    let mac = vec![9u8, 9];
    let next = vec![4u8];
    let updated = try_apply_update(&store, 8, &next, &mac, &mac, &next).unwrap();
    assert_eq!(updated.counter, 8);
    assert_eq!(updated.current_hash, next);
    assert_eq!(updated.key, vec![1, 2]);
    assert_eq!(
        try_apply_update(&store, 8, &next, &vec![0], &mac, &next).unwrap_err(),
        ContractError::MacMismatch
    );
    assert_eq!(
        try_apply_update(&store, 9, &next, &mac, &mac, &next).unwrap_err(),
        ContractError::CounterNotNext
    );
    assert_eq!(
        try_apply_update(&store, 8, &vec![5], &mac, &mac, &next).unwrap_err(),
        ContractError::HashMismatch
    );
}

#[test]
fn instantiate_starts_empty() {
    let entropy = vec![5u8, 6, 7];
    let genesis = instantiate("creator".to_string(), &entropy, test_msg());
    assert_eq!(genesis.state.owner, "creator");
    assert_eq!(genesis.state.key, entropy);
    assert_eq!(genesis.state.current_hash, entropy);
    assert_eq!(genesis.state.counter, 0);
    assert_eq!(genesis.queue, RequestQueue { len: 0, seqno: 0 });
    assert!(genesis.checkpoint.checkpoint.is_empty());
    assert_eq!(genesis.checkpoint.seqno, 0);
    assert_eq!(genesis.aead_key.len(), 32);
    assert_ne!(genesis.aead_key, entropy);
    let again = instantiate("creator".to_string(), &entropy, test_msg());
    assert_eq!(again.aead_key, genesis.aead_key);
}

#[test]
fn aead_key_is_the_first_block_of_the_seeded_generator() {
    let entropy = vec![42u8; 32];
    let genesis = instantiate("creator".to_string(), &entropy, test_msg());
    let mut prng = ContractPrng::new(&[1u8; 16], &entropy);
    assert_eq!(genesis.aead_key, prng.rand_bytes().to_vec());
}

#[test]
fn cipher_round_trip_holds() {
    assert!(roulette::setup::cipher_self_test(&vec![0u8; 32], &vec![0u8; 12]));
    assert!(roulette::setup::cipher_self_test(&vec![9u8; 32], &vec![3u8; 12]));
}

#[test]
fn funds_total_detects_overflow() {
    assert_eq!(checked_funds_total(&vec![Coin::new(3, "a"), Coin::new(4, "b")]), Some(7));
    assert_eq!(checked_funds_total(&vec![]), Some(0));
    assert_eq!(checked_funds_total(&vec![Coin::new(u128::MAX, "a"), Coin::new(1, "b")]), None);
}

#[test]
fn instantiate_records_admin_and_table() {
    let genesis = instantiate("creator".to_string(), &mock_random(), test_msg());
    assert_eq!(genesis.admin, "creator");
    assert_eq!(genesis.config.supported_denoms, vec!["token".to_string()]);
    assert_eq!(genesis.config.min_bet, roulette::setup::DEFAULT_MIN_BET);
    assert_eq!(genesis.config.max_bet, u64::MAX);
    assert_eq!(genesis.config.max_total, u64::MAX);

    let msg = InstantiateMsg {
        min_bet: Some(10),
        max_bet: Some(100),
        max_total: Some(500),
        supported_denoms: None,
        admin: Some("boss".to_string()),
    };
    let genesis = instantiate("creator".to_string(), &mock_random(), msg);
    assert_eq!(genesis.admin, "boss");
    assert_eq!(genesis.state.owner, "creator");
    assert_eq!(genesis.config.min_bet, 10);
    assert_eq!(genesis.config.max_bet, 100);
    assert_eq!(genesis.config.max_total, 500);
    assert_eq!(genesis.config.supported_denoms, vec!["uscrt".to_string()]);
}

#[test]
fn roll_is_the_generators_first_word() {
    let genesis = instantiate("creator".to_string(), &mock_random(), test_msg());
    let round = play(&genesis, GameResult::Black);
    assert_eq!(round.roll, ContractPrng::new(&mock_random(), &[]).next_u32() % 37);
    assert_eq!(round.roll, 1);
}

#[test]
fn an_accepted_update_cannot_be_replayed() {
    let store = State { owner: "creator".to_string(), key: vec![1], current_hash: vec![3], counter: 0 };
    let mac = vec![7u8];
    let next = vec![4u8];
    let updated = try_apply_update(&store, 1, &next, &mac, &mac, &next).unwrap();
    assert_eq!(updated.counter, 1);
    assert_eq!(
        try_apply_update(&updated, 1, &next, &mac, &mac, &next).unwrap_err(),
        ContractError::CounterNotNext
    );
    // a wrong MAC is refused even at the largest counter
    let full = State { owner: "creator".to_string(), key: vec![1], current_hash: vec![3], counter: u128::MAX };
    assert_eq!(try_apply_update(&full, 0, &next, &vec![0], &mac, &next).unwrap_err(), ContractError::MacMismatch);
}
