use vstd::prelude::*;

use crate::coins::{
    bet_error, bet_sums_fit, bets_ok_until, bets_use, calculate_sum_coins_of_bets, check_coins_match_input,
    coins_use, denom_total, lemma_bets_use_step, lemma_coins_use_push, lemma_coins_use_update, distinct_denoms, find_denom, fund_error, funds_ok_until, amount_of, tallies,
    validate_amounts, copy_bet, copy_coins, copy_config, Bet, Coin, Config,
};
use crate::entropy::{prng_first_word, prng_word};
use crate::error::ContractError;
use crate::game::{
    covers, includes, lemma_same_bet_alike, payout_multiple, return_winning_numbers, same_bet, valid_bet,
    GameResult,
};

verus! {

/// A winning bet and what it returns.
#[derive(Clone, Copy, Debug)]
pub struct Winning {
    pub result: GameResult,
    pub payout: u128,
}

/// The outcome of a spin: the number drawn, the winning bets and the coins to pay out.
#[derive(Clone, Debug)]
pub struct Round {
    pub roll: u32,
    pub winnings: Vec<Winning>,
    pub payouts: Vec<Coin>,
}

// ---------------------------------------------------------------------------
// The model of a spin's payouts
// ---------------------------------------------------------------------------

/// What bet `b` returns when it wins.
pub open spec fn payout_of(b: Bet) -> int {
    b.amount.amount * payout_multiple(b.result)
}

/// The bets that win when the ball lands on `roll`, in their order.
pub open spec fn winning_bets(bets: Seq<Bet>, roll: u32) -> Seq<Bet> {
    bets.filter(wins_on(roll))
}

/// The test that a bet wins when the ball lands on `roll`.
pub open spec fn wins_on(roll: u32) -> spec_fn(Bet) -> bool {
    |b: Bet| covers(b.result, roll)
}

/// The sum of what the bets of `ws` in denomination `d` return.
pub open spec fn winnings_total(ws: Seq<Bet>, d: Seq<char>) -> int
    decreases ws.len(),
{
    if ws.len() == 0 {
        0
    } else {
        winnings_total(ws.drop_last(), d) + (if ws.last().amount.denom@ == d {
            payout_of(ws.last())
        } else {
            0
        })
    }
}

/// Every bet can be placed on the table.
pub open spec fn all_valid(bets: Seq<Bet>) -> bool {
    forall|j: int| 0 <= j < bets.len() ==> valid_bet(#[trigger] bets[j].result)
}

/// The payouts of a spin on `roll` fit in 128 bits, denomination by denomination.
pub open spec fn payouts_fit(bets: Seq<Bet>, roll: u32) -> bool {
    forall|d: Seq<char>| #[trigger] winnings_total(winning_bets(bets, roll), d) <= u128::MAX
}

/// `payouts` holds, once per denomination, what the winning bets `ws` of that denomination return.
pub open spec fn pays(payouts: Seq<Coin>, ws: Seq<Bet>) -> bool {
    &&& distinct_denoms(payouts)
    &&& forall|i: int|
        0 <= i < payouts.len() ==> (#[trigger] payouts[i]).amount == winnings_total(
            ws,
            payouts[i].denom@,
        )
    &&& forall|d: Seq<char>| coins_use(payouts, d) <==> bets_use(ws, d)
}

/// `winnings` lists the winning bets `ws`, in order, with what each returns.
pub open spec fn lists_winnings(winnings: Seq<Winning>, ws: Seq<Bet>) -> bool {
    &&& winnings.len() == ws.len()
    &&& forall|i: int|
        0 <= i < ws.len() ==> (#[trigger] winnings[i]).result == ws[i].result && winnings[i].payout
            == payout_of(ws[i])
}

proof fn lemma_payout_nonneg(b: Bet)
    ensures
        payout_of(b) >= 0,
{
    let a = b.amount.amount as int;
    let m = payout_multiple(b.result) as int;
    assert(a * m >= 0) by (nonlinear_arith)
        requires
            a >= 0,
            m >= 0,
    ;
}

proof fn lemma_winnings_total_step(ws: Seq<Bet>, i: int, d: Seq<char>)
    requires
        0 <= i < ws.len(),
    ensures
        winnings_total(ws.take(i + 1), d) == winnings_total(ws.take(i), d) + (if ws[i].amount.denom@
            == d {
            payout_of(ws[i])
        } else {
            0
        }),
{
    assert(ws.take(i + 1).drop_last() =~= ws.take(i));
    assert(ws.take(i + 1).last() == ws[i]);
}

proof fn lemma_winnings_total_prefix(ws: Seq<Bet>, k: int, d: Seq<char>)
    requires
        0 <= k <= ws.len(),
    ensures
        winnings_total(ws.take(k), d) <= winnings_total(ws, d),
    decreases ws.len(),
{
    if k == ws.len() {
        assert(ws.take(k) =~= ws);
    } else {
        assert(ws.drop_last().take(k) =~= ws.take(k));
        lemma_winnings_total_prefix(ws.drop_last(), k, d);
        lemma_payout_nonneg(ws.last());
    }
}

proof fn lemma_winnings_total_unused(ws: Seq<Bet>, d: Seq<char>)
    requires
        !bets_use(ws, d),
    ensures
        winnings_total(ws, d) == 0,
    decreases ws.len(),
{
    if ws.len() > 0 {
        assert(!bets_use(ws.drop_last(), d)) by {
            if bets_use(ws.drop_last(), d) {
                let j = choose|j: int|
                    0 <= j < ws.drop_last().len() && (#[trigger] ws.drop_last()[j]).amount.denom@ == d;
                assert(ws[j] == ws.drop_last()[j]);
            }
        }
        assert(ws[ws.len() - 1] == ws.last());
        lemma_winnings_total_unused(ws.drop_last(), d);
    }
}

// ---------------------------------------------------------------------------
// Settling a spin
// ---------------------------------------------------------------------------

/// Whether `winners` holds a bet the same as `g`.
fn includes_bet(winners: &Vec<GameResult>, g: &GameResult) -> (r: bool)
    ensures
        r == includes(winners@, *g),
{
    let n = winners.len();
    let mut i: usize = 0;
    while i < n
        invariant
            n == winners.len(),
            0 <= i <= n,
            forall|j: int| 0 <= j < i ==> !same_bet(#[trigger] winners@[j], *g),
        decreases n - i,
    {
        if winners[i] == *g {
            return true;
        }
        i = i + 1;
    }
    false
}

/// The bets of `bets` that `winners`, the winning bets of `roll`, holds.
fn select_winning_bets(bets: &Vec<Bet>, winners: &Vec<GameResult>, roll: u32) -> (ws: Vec<Bet>)
    requires
        all_valid(bets@),
        forall|i: int|
            0 <= i < winners.len() ==> valid_bet(#[trigger] winners@[i]) && covers(winners@[i], roll),
        forall|g: GameResult| valid_bet(g) && covers(g, roll) ==> includes(winners@, g),
    ensures
        ws@ == winning_bets(bets@, roll),
{
    let mut ws: Vec<Bet> = Vec::new();
    let n = bets.len();
    let mut i: usize = 0;
    assert(bets@.take(0) =~= Seq::<Bet>::empty());
    while i < n
        invariant
            n == bets.len(),
            0 <= i <= n,
            all_valid(bets@),
            forall|i: int|
                0 <= i < winners.len() ==> valid_bet(#[trigger] winners@[i]) && covers(winners@[i], roll),
            forall|g: GameResult| valid_bet(g) && covers(g, roll) ==> includes(winners@, g),
            ws@ == bets@.take(i as int).filter(wins_on(roll)),
        decreases n - i,
    {
        let bet = &bets[i];
        let wins = includes_bet(winners, &bet.result);
        proof {
            assert(valid_bet(bets@[i as int].result));
            if wins {
                let j = choose|j: int| 0 <= j < winners@.len() && #[trigger] same_bet(winners@[j], bet.result);
                lemma_same_bet_alike(winners@[j], bet.result, roll);
            }
            assert(*bet == bets@[i as int]);
            if covers(bet.result, roll) {
                assert(valid_bet(bet.result) && covers(bet.result, roll));
                assert(includes(winners@, bet.result));
            }
            assert(wins == covers(bet.result, roll));
            assert(bets@.take(i + 1).drop_last() =~= bets@.take(i as int));
            assert(bets@.take(i + 1).last() == bets@[i as int]);
            reveal_with_fuel(Seq::<Bet>::filter, 1);
            assert(bets@.take(i + 1).filter(wins_on(roll)) == if wins {
                bets@.take(i as int).filter(wins_on(roll)).push(bets@[i as int])
            } else {
                bets@.take(i as int).filter(wins_on(roll))
            });
        }
        if wins {
            ws.push(copy_bet(bet));
        }
        i = i + 1;
    }
    assert(bets@.take(n as int) =~= bets@);
    ws
}

/// What each winning bet returns, and the total per denomination.
fn tally_payouts(ws: &Vec<Bet>) -> (r: Option<(Vec<Winning>, Vec<Coin>)>)
    ensures
        r is Some <==> forall|d: Seq<char>| #[trigger] winnings_total(ws@, d) <= u128::MAX,
        r matches Some(t) ==> lists_winnings(t.0@, ws@) && pays(t.1@, ws@),
{
    let mut winnings: Vec<Winning> = Vec::new();
    let mut payouts: Vec<Coin> = Vec::new();
    let n = ws.len();
    let mut i: usize = 0;
    assert(ws@.take(0) =~= Seq::<Bet>::empty());
    while i < n
        invariant
            n == ws.len(),
            0 <= i <= n,
            forall|d: Seq<char>| #[trigger] winnings_total(ws@.take(i as int), d) <= u128::MAX,
            lists_winnings(winnings@, ws@.take(i as int)),
            pays(payouts@, ws@.take(i as int)),
        decreases n - i,
    {
        let win_bet = &ws[i];
        let ghost old_payouts = payouts@;
        let ghost prefix = ws@.take(i as int);
        let ghost next = ws@.take(i + 1);
        let ghost d0 = win_bet.amount.denom@;
        proof {
            assert(*win_bet == ws@[i as int]);
            assert forall|d: Seq<char>| #[trigger] winnings_total(next, d) == winnings_total(prefix, d) + (
            if d0 == d {
                payout_of(*win_bet)
            } else {
                0
            }) by {
                lemma_winnings_total_step(ws@, i as int, d);
            }
            lemma_winnings_total_prefix(ws@, i + 1, d0);
            lemma_payout_nonneg(*win_bet);
            if !bets_use(prefix, d0) {
                lemma_winnings_total_unused(prefix, d0);
            } else {
                let j = choose|j: int| 0 <= j < prefix.len() && (#[trigger] prefix[j]).amount.denom@ == d0;
                assert(coins_use(old_payouts, d0));
                let k = choose|k: int| 0 <= k < old_payouts.len() && (#[trigger] old_payouts[k]).denom@ == d0;
                assert(old_payouts[k].amount == winnings_total(prefix, d0));
            }
            lemma_bets_use_step(ws@, i as int);
        }
        let payout_amount = match win_bet.amount.amount.checked_mul(win_bet.result.payout() as u128) {
            Some(p) => p,
            None => {
                proof {
                    assert(winnings_total(ws@, d0) > u128::MAX);
                }
                return None;
            },
        };
        winnings.push(Winning { result: win_bet.result, payout: payout_amount });
        match find_denom(&payouts, &win_bet.amount.denom) {
            None => {
                proof {
                    if bets_use(prefix, d0) {
                        assert(coins_use(old_payouts, d0));
                    }
                    lemma_winnings_total_unused(prefix, d0);
                }
                payouts.push(Coin { denom: win_bet.amount.denom.clone(), amount: payout_amount });
                proof {
                    assert forall|d: Seq<char>| #[trigger] winnings_total(next, d) <= u128::MAX by {
                        if d != d0 {
                            assert(winnings_total(next, d) == winnings_total(prefix, d));
                        }
                    }
                    lemma_coins_use_push(old_payouts, payouts@[old_payouts.len() as int]);
                }
            },
            Some(idx) => {
                proof {
                    assert(old_payouts[idx as int].amount == winnings_total(prefix, d0));
                }
                let total = match payouts[idx].amount.checked_add(payout_amount) {
                    Some(t) => t,
                    None => {
                        proof {
                            assert(winnings_total(ws@, d0) > u128::MAX);
                        }
                        return None;
                    },
                };
                let entry = Coin { denom: win_bet.amount.denom.clone(), amount: total };
                payouts.set(idx, entry);
                proof {
                    assert forall|d: Seq<char>| #[trigger] winnings_total(next, d) <= u128::MAX by {
                        if d != d0 {
                            assert(winnings_total(next, d) == winnings_total(prefix, d));
                        }
                    }
                    lemma_coins_use_update(old_payouts, idx as int, payouts@[idx as int]);
                }
            },
        }
        proof {
            assert forall|k: int| 0 <= k < next.len() implies (#[trigger] winnings@[k]).result == next[k].result
                && winnings@[k].payout == payout_of(next[k]) by {
                if k < i {
                    assert(next[k] == prefix[k]);
                }
            }
        }
        i = i + 1;
    }
    assert(ws@.take(n as int) =~= ws@);
    Some((winnings, payouts))
}

/// Settles a spin that landed on `roll`: the winning bets, in order, with what
/// each returns, and the total to pay out per denomination.
///
/// `None` when some denomination's payout does not fit in 128 bits.
pub fn settle_bets(bets: &Vec<Bet>, roll: u32) -> (r: Option<(Vec<Winning>, Vec<Coin>)>)
    requires
        roll <= 36,
        all_valid(bets@),
    ensures
        r is Some <==> payouts_fit(bets@, roll),
        r matches Some(t) ==> lists_winnings(t.0@, winning_bets(bets@, roll)) && pays(
            t.1@,
            winning_bets(bets@, roll),
        ),
{
    let winners = return_winning_numbers(roll);
    let winning = select_winning_bets(bets, &winners, roll);
    tally_payouts(&winning)
}

/// Why a round is refused before the wheel spins, if it is.
///
/// In order: the first bet the table refuses, the first fund it refuses, funds
/// that differ from the sum of the bets of their denomination, and a bet that
/// cannot be placed on the table.
pub open spec fn round_error(config: Config, bets: Seq<Bet>, funds: Seq<Coin>) -> Option<ContractError> {
    if !bets_ok_until(bets, config, bets.len() as int) {
        Some(bet_error(config, bets[first_refused_bet(bets, config)]).unwrap())
    } else if !funds_ok_until(funds, config, funds.len() as int) {
        Some(fund_error(config, funds[first_refused_fund(funds, config)]).unwrap())
    } else if !(forall|i: int|
        0 <= i < funds.len() ==> denom_total(bets, (#[trigger] funds[i]).denom@) == funds[i].amount) {
        Some(ContractError::FundsMismatch)
    } else if !all_valid(bets) {
        Some(ContractError::InvalidBet)
    } else {
        None
    }
}

/// The index of the first bet the table refuses.
pub open spec fn first_refused_bet(bets: Seq<Bet>, config: Config) -> int {
    choose|k: int| 0 <= k < bets.len() && bets_ok_until(bets, config, k) && bet_error(config, bets[k]) is Some
}

/// The index of the first fund the table refuses.
pub open spec fn first_refused_fund(funds: Seq<Coin>, config: Config) -> int {
    choose|k: int|
        0 <= k < funds.len() && funds_ok_until(funds, config, k) && fund_error(config, funds[k]) is Some
}

proof fn lemma_first_refused_bet(bets: Seq<Bet>, config: Config, k: int)
    requires
        0 <= k < bets.len(),
        bets_ok_until(bets, config, k),
        bet_error(config, bets[k]) is Some,
    ensures
        first_refused_bet(bets, config) == k,
{
    let f = first_refused_bet(bets, config);
    if f < k {
        assert(bet_error(config, bets[f]) is None);
    } else if f > k {
        assert(bet_error(config, bets[k]) is None);
    }
}

proof fn lemma_first_refused_fund(funds: Seq<Coin>, config: Config, k: int)
    requires
        0 <= k < funds.len(),
        funds_ok_until(funds, config, k),
        fund_error(config, funds[k]) is Some,
    ensures
        first_refused_fund(funds, config) == k,
{
    let f = first_refused_fund(funds, config);
    if f < k {
        assert(fund_error(config, funds[f]) is None);
    } else if f > k {
        assert(fund_error(config, funds[k]) is None);
    }
}

/// The stakes tallied per denomination give back each denomination's total.
proof fn lemma_tally_amount(sums: Seq<Coin>, bets: Seq<Bet>, d: Seq<char>)
    requires
        tallies(sums, bets),
    ensures
        amount_of(sums, d) == denom_total(bets, d),
{
    if coins_use(sums, d) {
        let i = choose|i: int| 0 <= i < sums.len() && (#[trigger] sums[i]).denom@ == d;
        assert forall|j: int| 0 <= j < i implies (#[trigger] sums[j]).denom@ != d by {
            assert(sums[j].denom@ != sums[i].denom@);
        }
        crate::coins::lemma_amount_of_first(sums, i, d);
    } else {
        assert forall|j: int| 0 <= j < sums.len() implies (#[trigger] sums[j]).denom@ != d by {
            if sums[j].denom@ == d {
                assert(coins_use(sums, d));
            }
        }
        crate::coins::lemma_amount_of_absent(sums, d);
        crate::coins::lemma_denom_total_unused(bets, d);
    }
}

/// Whether every bet can be placed on the table.
fn bets_are_valid(bets: &Vec<Bet>) -> (r: bool)
    ensures
        r == all_valid(bets@),
{
    let n = bets.len();
    let mut i: usize = 0;
    while i < n
        invariant
            n == bets.len(),
            0 <= i <= n,
            forall|j: int| 0 <= j < i ==> valid_bet(#[trigger] bets@[j].result),
        decreases n - i,
    {
        if !bets[i].result.validate() {
            return false;
        }
        i = i + 1;
    }
    true
}

/// The number the wheel lands on for the block randomness `seed`: the first
/// word of a `ContractPrng` seeded with `seed` and no further entropy, modulo 37.
pub open spec fn drawn_number(seed: Seq<u8>) -> u32 {
    (prng_word(seed, Seq::empty()) % 37) as u32
}

/// A round passes the table's checks only when every fund sent equals, to the
/// unit, the sum of the stakes of the bets in its denomination: a fund above
/// or below that sum is refused with `FundsMismatch` once the bets and the
/// funds are each within the table's limits.
pub proof fn lemma_funds_must_match_bets(config: Config, bets: Seq<Bet>, funds: Seq<Coin>, i: int)
    requires
        0 <= i < funds.len(),
    ensures
        round_error(config, bets, funds) is None ==> denom_total(bets, funds[i].denom@) == funds[i].amount,
        bets_ok_until(bets, config, bets.len() as int) && funds_ok_until(funds, config, funds.len() as int)
            && denom_total(bets, funds[i].denom@) != funds[i].amount ==> round_error(config, bets, funds)
            == Some(ContractError::FundsMismatch),
{
}

/// The number drawn depends on the block randomness alone: the bets, the
/// funds, the table and the sender play no part in it (`handle_game_result`
/// reports `drawn_number(random)` whatever they are), equal randomness draws
/// the same number, and every number drawn is on the wheel.
pub proof fn lemma_roll_depends_on_randomness_alone(seed1: Seq<u8>, seed2: Seq<u8>)
    requires
        seed1 == seed2,
    ensures
        drawn_number(seed1) == drawn_number(seed2),
        drawn_number(seed1) <= 36,
{
}

/// Plays a round of roulette: checks the bets and the funds sent against the
/// table, spins the wheel from the block's randomness, and settles the spin.
///
/// A round that passes the table's checks and has randomness succeeds exactly
/// when the payouts of the number drawn fit in 128 bits.
pub fn handle_game_result(config: &Config, bets: &Vec<Bet>, funds: &Vec<Coin>, random: &Option<Vec<u8>>) -> (r: Result<
    Round,
    ContractError,
>)
    requires
        bet_sums_fit(bets@, *config),
    ensures
        round_error(*config, bets@, funds@) matches Some(e) ==> r == Err::<Round, ContractError>(e),
        round_error(*config, bets@, funds@) is None && random is None ==> r == Err::<Round, ContractError>(
            ContractError::RandomUnavailable,
        ),
        round_error(*config, bets@, funds@) is None && random is Some ==> (r is Ok <==> payouts_fit(
            bets@,
            drawn_number(random->Some_0@),
        )),
        round_error(*config, bets@, funds@) is None && random is Some && !payouts_fit(
            bets@,
            drawn_number(random->Some_0@),
        ) ==> r == Err::<Round, ContractError>(ContractError::PayoutOverflow),
        r matches Ok(round) ==> {
            &&& random is Some
            &&& round.roll == drawn_number(random->Some_0@)
            &&& round.roll <= 36
            &&& payouts_fit(bets@, round.roll)
            &&& lists_winnings(round.winnings@, winning_bets(bets@, round.roll))
            &&& pays(round.payouts@, winning_bets(bets@, round.roll))
        },
        r is Ok ==> bets_ok_until(bets@, *config, bets.len() as int) && funds_ok_until(
            funds@,
            *config,
            funds.len() as int,
        ) && all_valid(bets@),
        r is Ok ==> forall|i: int|
            0 <= i < funds.len() ==> denom_total(bets@, (#[trigger] funds@[i]).denom@) == funds@[i].amount,
{
    let sums = match calculate_sum_coins_of_bets(bets, config) {
        Ok(s) => s,
        Err(e) => {
            proof {
                let k = choose|k: int|
                    0 <= k < bets.len() && bets_ok_until(bets@, *config, k) && #[trigger] bet_error(
                        *config,
                        bets@[k],
                    ) == Some(e);
                lemma_first_refused_bet(bets@, *config, k);
            }
            return Err(e);
        },
    };
    let table = copy_config(config);
    proof {
        crate::coins::lemma_same_config(*config, table);
    }
    match validate_amounts(funds, table) {
        Ok(()) => {},
        Err(e) => {
            proof {
                let k = choose|k: int|
                    0 <= k < funds.len() && funds_ok_until(funds@, table, k) && #[trigger] fund_error(
                        table,
                        funds@[k],
                    ) == Some(e);
                assert(fund_error(*config, funds@[k]) == Some(e));
                lemma_first_refused_fund(funds@, *config, k);
            }
            return Err(e);
        },
    }
    proof {
        assert forall|d: Seq<char>| amount_of(sums@, d) == denom_total(bets@, d) by {
            lemma_tally_amount(sums@, bets@, d);
        }
    }
    if !check_coins_match_input(sums, copy_coins(funds)) {
        return Err(ContractError::FundsMismatch);
    }
    if !bets_are_valid(bets) {
        return Err(ContractError::InvalidBet);
    }
    let seed = match random {
        Some(r) => r,
        None => {
            return Err(ContractError::RandomUnavailable);
        },
    };
    let no_entropy: Vec<u8> = Vec::new();
    let roll = prng_first_word(seed.as_slice(), no_entropy.as_slice()) % 37;
    match settle_bets(bets, roll) {
        Some((winnings, payouts)) => Ok(Round { roll, winnings, payouts }),
        None => Err(ContractError::PayoutOverflow),
    }
}

/// A spin that no bet wins pays nothing, and a spin pays out in exactly the
/// denominations of its winning bets.
pub proof fn lemma_payouts_follow_winners(payouts: Seq<Coin>, bets: Seq<Bet>, roll: u32)
    requires
        pays(payouts, winning_bets(bets, roll)),
    ensures
        winning_bets(bets, roll).len() == 0 ==> payouts.len() == 0,
        forall|d: Seq<char>| coins_use(payouts, d) <==> bets_use(winning_bets(bets, roll), d),
{
    if winning_bets(bets, roll).len() == 0 && payouts.len() > 0 {
        assert(coins_use(payouts, payouts[0].denom@));
    }
}

/// A bet belongs to the winning bets of a spin exactly when it wins on the number drawn.
pub proof fn lemma_winning_bets_are_the_winners(bets: Seq<Bet>, roll: u32, b: Bet)
    ensures
        winning_bets(bets, roll).contains(b) <==> (bets.contains(b) && covers(b.result, roll)),
{
    if winning_bets(bets, roll).contains(b) {
        bets.lemma_filter_contains_rev(wins_on(roll), b);
        let i = choose|i: int| 0 <= i < winning_bets(bets, roll).len() && winning_bets(bets, roll)[i] == b;
        bets.lemma_filter_pred(wins_on(roll), i);
    }
    if bets.contains(b) && covers(b.result, roll) {
        let i = choose|i: int| 0 <= i < bets.len() && bets[i] == b;
        bets.lemma_filter_contains(wins_on(roll), i);
    }
}

} // verus!
