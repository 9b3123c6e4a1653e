use vstd::prelude::*;

use crate::error::ContractError;
use crate::game::GameResult;

verus! {

/// An amount of one denomination.
#[derive(Clone, Debug)]
pub struct Coin {
    pub denom: String,
    pub amount: u128,
}

/// A stake placed on one bet.
#[derive(Clone, Debug)]
pub struct Bet {
    pub amount: Coin,
    pub result: GameResult,
}

/// The limits of the table.
#[derive(Clone, Debug)]
pub struct Config {
    pub min_bet: u64,
    pub max_bet: u64,
    pub max_total: u64,
    pub supported_denoms: Vec<String>,
}

impl Coin {
    /// A coin of `amount` units of `denom`.
    pub fn new(amount: u128, denom: &str) -> (c: Coin)
        ensures
            c.denom@ == denom@,
            c.amount == amount,
    {
        Coin { denom: denom.to_owned(), amount }
    }
}

// ---------------------------------------------------------------------------
// The model: denominations, limits and totals
// ---------------------------------------------------------------------------

/// The table takes denomination `d`.
pub open spec fn supports(config: Config, d: Seq<char>) -> bool {
    exists|i: int|
        0 <= i < config.supported_denoms.len() && (#[trigger] config.supported_denoms@[i])@ == d
}

/// Why a single bet is refused, if it is; the stake is read as its low 64 bits.
pub open spec fn bet_error(config: Config, b: Bet) -> Option<ContractError> {
    if !supports(config, b.amount.denom@) {
        Some(ContractError::DenomUnsupported)
    } else if (b.amount.amount as u64) > config.max_bet {
        Some(ContractError::BetAboveMaximum)
    } else if (b.amount.amount as u64) < config.min_bet {
        Some(ContractError::BetBelowMinimum)
    } else {
        None
    }
}

/// Why a single fund sent with the bets is refused, if it is.
pub open spec fn fund_error(config: Config, c: Coin) -> Option<ContractError> {
    if c.amount > config.max_total {
        Some(ContractError::BetAboveMaximum)
    } else if c.amount < config.min_bet {
        Some(ContractError::BetBelowMinimum)
    } else if !supports(config, c.denom@) {
        Some(ContractError::DenomUnsupported)
    } else {
        None
    }
}

/// The first `k` bets are all accepted.
pub open spec fn bets_ok_until(bets: Seq<Bet>, config: Config, k: int) -> bool {
    forall|j: int| 0 <= j < k ==> #[trigger] bet_error(config, bets[j]) is None
}

/// The first `k` funds are all accepted.
pub open spec fn funds_ok_until(funds: Seq<Coin>, config: Config, k: int) -> bool {
    forall|j: int| 0 <= j < k ==> #[trigger] fund_error(config, funds[j]) is None
}

/// The sum of the stakes of `bets` in denomination `d`.
pub open spec fn denom_total(bets: Seq<Bet>, d: Seq<char>) -> int
    decreases bets.len(),
{
    if bets.len() == 0 {
        0
    } else {
        denom_total(bets.drop_last(), d) + (if bets.last().amount.denom@ == d {
            bets.last().amount.amount as int
        } else {
            0
        })
    }
}

/// Some bet is staked in denomination `d`.
pub open spec fn bets_use(bets: Seq<Bet>, d: Seq<char>) -> bool {
    exists|j: int| 0 <= j < bets.len() && (#[trigger] bets[j]).amount.denom@ == d
}

/// Some coin of `coins` is of denomination `d`.
pub open spec fn coins_use(coins: Seq<Coin>, d: Seq<char>) -> bool {
    exists|j: int| 0 <= j < coins.len() && (#[trigger] coins[j]).denom@ == d
}

/// No denomination occurs twice in `coins`.
pub open spec fn distinct_denoms(coins: Seq<Coin>) -> bool {
    forall|i: int, j: int|
        0 <= i < j < coins.len() ==> (#[trigger] coins[i]).denom@ != (#[trigger] coins[j]).denom@
}

/// The amount `coins` holds of denomination `d`: that of its first coin of `d`, or zero.
pub open spec fn amount_of(coins: Seq<Coin>, d: Seq<char>) -> int
    decreases coins.len(),
{
    if coins.len() == 0 {
        0
    } else if coins[0].denom@ == d {
        coins[0].amount as int
    } else {
        amount_of(coins.drop_first(), d)
    }
}

/// `sums` holds, once per denomination, the total stake of `bets` in that denomination.
pub open spec fn tallies(sums: Seq<Coin>, bets: Seq<Bet>) -> bool {
    &&& distinct_denoms(sums)
    &&& forall|i: int|
        0 <= i < sums.len() ==> (#[trigger] sums[i]).amount == denom_total(bets, sums[i].denom@)
    &&& forall|d: Seq<char>| coins_use(sums, d) <==> bets_use(bets, d)
}

/// Summing the bets cannot overflow before the first refused bet.
pub open spec fn bet_sums_fit(bets: Seq<Bet>, config: Config) -> bool {
    forall|k: int, d: Seq<char>|
        0 <= k <= bets.len() && bets_ok_until(bets, config, k) ==> #[trigger] denom_total(
            bets.take(k),
            d,
        ) <= u128::MAX
}

/// One more bet adds its denomination to those the bets use.
pub(crate) proof fn lemma_bets_use_step(bets: Seq<Bet>, i: int)
    requires
        0 <= i < bets.len(),
    ensures
        forall|d: Seq<char>|
            #[trigger] bets_use(bets.take(i + 1), d) <==> (bets_use(bets.take(i), d) || d
                == bets[i].amount.denom@),
{
    let prefix = bets.take(i);
    let next = bets.take(i + 1);
    assert forall|d: Seq<char>| #[trigger] bets_use(next, d) <==> (bets_use(prefix, d) || d == bets[i].amount.denom@) by {
        if bets_use(next, d) {
            let j = choose|j: int| 0 <= j < next.len() && (#[trigger] next[j]).amount.denom@ == d;
            if j < i {
                assert(prefix[j] == next[j]);
            }
        }
        if bets_use(prefix, d) {
            let j = choose|j: int| 0 <= j < prefix.len() && (#[trigger] prefix[j]).amount.denom@ == d;
            assert(prefix[j] == next[j]);
        }
        if d == bets[i].amount.denom@ {
            assert(next[i] == bets[i]);
        }
    }
}

/// Appending a coin adds its denomination to those the coins use.
pub(crate) proof fn lemma_coins_use_push(s: Seq<Coin>, c: Coin)
    ensures
        forall|d: Seq<char>| #[trigger] coins_use(s.push(c), d) <==> (coins_use(s, d) || d == c.denom@),
{
    let t = s.push(c);
    assert forall|d: Seq<char>| #[trigger] coins_use(t, d) <==> (coins_use(s, d) || d == c.denom@) by {
        if coins_use(t, d) {
            let j = choose|j: int| 0 <= j < t.len() && (#[trigger] t[j]).denom@ == d;
            if j < s.len() {
                assert(s[j] == t[j]);
            }
        }
        if coins_use(s, d) {
            let j = choose|j: int| 0 <= j < s.len() && (#[trigger] s[j]).denom@ == d;
            assert(s[j] == t[j]);
        }
        if d == c.denom@ {
            assert(t[s.len() as int] == c);
        }
    }
}

/// Replacing a coin by one of the same denomination keeps the denominations used.
pub(crate) proof fn lemma_coins_use_update(s: Seq<Coin>, i: int, c: Coin)
    requires
        0 <= i < s.len(),
        c.denom@ == s[i].denom@,
    ensures
        forall|d: Seq<char>| #[trigger] coins_use(s.update(i, c), d) <==> coins_use(s, d),
{
    let t = s.update(i, c);
    assert forall|d: Seq<char>| #[trigger] coins_use(t, d) <==> coins_use(s, d) by {
        if coins_use(t, d) {
            let j = choose|j: int| 0 <= j < t.len() && (#[trigger] t[j]).denom@ == d;
            assert(t[j].denom@ == s[j].denom@);
        }
        if coins_use(s, d) {
            let j = choose|j: int| 0 <= j < s.len() && (#[trigger] s[j]).denom@ == d;
            assert(t[j].denom@ == s[j].denom@);
        }
    }
}

pub(crate) proof fn lemma_denom_total_unused(bets: Seq<Bet>, d: Seq<char>)
    requires
        !bets_use(bets, d),
    ensures
        denom_total(bets, d) == 0,
    decreases bets.len(),
{
    if bets.len() > 0 {
        assert(!bets_use(bets.drop_last(), d)) by {
            if bets_use(bets.drop_last(), d) {
                let j = choose|j: int|
                    0 <= j < bets.drop_last().len() && (#[trigger] bets.drop_last()[j]).amount.denom@
                        == d;
                assert(bets[j] == bets.drop_last()[j]);
            }
        }
        assert(bets[bets.len() - 1] == bets.last());
        lemma_denom_total_unused(bets.drop_last(), d);
    }
}

pub(crate) proof fn lemma_amount_of_first(coins: Seq<Coin>, i: int, d: Seq<char>)
    requires
        0 <= i < coins.len(),
        coins[i].denom@ == d,
        forall|j: int| 0 <= j < i ==> (#[trigger] coins[j]).denom@ != d,
    ensures
        amount_of(coins, d) == coins[i].amount,
    decreases i,
{
    if i > 0 {
        assert forall|j: int| 0 <= j < i - 1 implies (#[trigger] coins.drop_first()[j]).denom@ != d by {
            assert(coins.drop_first()[j] == coins[j + 1]);
        }
        lemma_amount_of_first(coins.drop_first(), i - 1, d);
    }
}

pub(crate) proof fn lemma_amount_of_absent(coins: Seq<Coin>, d: Seq<char>)
    requires
        forall|j: int| 0 <= j < coins.len() ==> (#[trigger] coins[j]).denom@ != d,
    ensures
        amount_of(coins, d) == 0,
    decreases coins.len(),
{
    if coins.len() > 0 {
        assert(coins[0].denom@ != d);
        assert forall|j: int| 0 <= j < coins.len() - 1 implies (#[trigger] coins.drop_first()[j]).denom@
            != d by {
            assert(coins.drop_first()[j] == coins[j + 1]);
        }
        lemma_amount_of_absent(coins.drop_first(), d);
    }
}

/// A bet is accepted exactly when the table takes its denomination and the low
/// 64 bits of its stake lie between the minimum and the maximum, both included.
pub proof fn lemma_bet_within_limits(config: Config, b: Bet)
    ensures
        bet_error(config, b) is None <==> (supports(config, b.amount.denom@) && config.min_bet <= (
        b.amount.amount as u64) && (b.amount.amount as u64) <= config.max_bet),
        !supports(config, b.amount.denom@) ==> bet_error(config, b) == Some(ContractError::DenomUnsupported),
        supports(config, b.amount.denom@) && (b.amount.amount as u64) < config.min_bet
            && (b.amount.amount as u64) <= config.max_bet ==> bet_error(config, b) == Some(
            ContractError::BetBelowMinimum,
        ),
        supports(config, b.amount.denom@) && (b.amount.amount as u64) > config.max_bet ==> bet_error(
            config,
            b,
        ) == Some(ContractError::BetAboveMaximum),
{
}

/// A fund is accepted exactly when it lies between the minimum bet and the
/// maximum total, both included, and the table takes its denomination.
pub proof fn lemma_fund_within_limits(config: Config, c: Coin)
    ensures
        fund_error(config, c) is None <==> (config.min_bet <= c.amount && c.amount <= config.max_total
            && supports(config, c.denom@)),
{
}

/// A copy of `b`.
pub fn copy_bet(b: &Bet) -> (c: Bet)
    ensures
        c == *b,
{
    Bet { amount: Coin { denom: b.amount.denom.clone(), amount: b.amount.amount }, result: b.result }
}

/// A copy of `config`.
pub fn copy_config(config: &Config) -> (c: Config)
    ensures
        c.min_bet == config.min_bet,
        c.max_bet == config.max_bet,
        c.max_total == config.max_total,
        c.supported_denoms@ == config.supported_denoms@,
{
    let mut denoms: Vec<String> = Vec::new();
    let n = config.supported_denoms.len();
    let mut i: usize = 0;
    while i < n
        invariant
            n == config.supported_denoms.len(),
            0 <= i <= n,
            denoms@ == config.supported_denoms@.take(i as int),
        decreases n - i,
    {
        denoms.push(config.supported_denoms[i].clone());
        assert(denoms@ =~= config.supported_denoms@.take(i + 1));
        i = i + 1;
    }
    assert(config.supported_denoms@.take(n as int) =~= config.supported_denoms@);
    Config {
        min_bet: config.min_bet,
        max_bet: config.max_bet,
        max_total: config.max_total,
        supported_denoms: denoms,
    }
}

/// Two configurations with the same limits and denominations judge alike.
pub(crate) proof fn lemma_same_config(a: Config, b: Config)
    requires
        a.min_bet == b.min_bet,
        a.max_bet == b.max_bet,
        a.max_total == b.max_total,
        a.supported_denoms@ == b.supported_denoms@,
    ensures
        forall|d: Seq<char>| #[trigger] supports(a, d) == supports(b, d),
        forall|c: Coin| #[trigger] fund_error(a, c) == fund_error(b, c),
        forall|fs: Seq<Coin>, k: int| #[trigger] funds_ok_until(fs, a, k) == funds_ok_until(fs, b, k),
{
    assert forall|d: Seq<char>| #[trigger] supports(a, d) == supports(b, d) by {
        if supports(a, d) {
            let i = choose|i: int| 0 <= i < a.supported_denoms.len() && (#[trigger] a.supported_denoms@[i])@ == d;
            assert(b.supported_denoms@[i] == a.supported_denoms@[i]);
        }
        if supports(b, d) {
            let i = choose|i: int| 0 <= i < b.supported_denoms.len() && (#[trigger] b.supported_denoms@[i])@ == d;
            assert(b.supported_denoms@[i] == a.supported_denoms@[i]);
        }
    }
    assert forall|c: Coin| #[trigger] fund_error(a, c) == fund_error(b, c) by {
        assert(supports(a, c.denom@) == supports(b, c.denom@));
    }
    assert forall|fs: Seq<Coin>, k: int| #[trigger] funds_ok_until(fs, a, k) == funds_ok_until(fs, b, k) by {
        if funds_ok_until(fs, a, k) {
            assert forall|j: int| 0 <= j < k implies #[trigger] fund_error(b, fs[j]) is None by {
                assert(fund_error(a, fs[j]) is None);
            }
        }
        if funds_ok_until(fs, b, k) {
            assert forall|j: int| 0 <= j < k implies #[trigger] fund_error(a, fs[j]) is None by {
                assert(fund_error(b, fs[j]) is None);
            }
        }
    }
}

/// A copy of `coins`.
pub fn copy_coins(coins: &Vec<Coin>) -> (c: Vec<Coin>)
    ensures
        c@ == coins@,
{
    let mut c: Vec<Coin> = Vec::new();
    let n = coins.len();
    let mut i: usize = 0;
    while i < n
        invariant
            n == coins.len(),
            0 <= i <= n,
            c@ == coins@.take(i as int),
        decreases n - i,
    {
        c.push(Coin { denom: coins[i].denom.clone(), amount: coins[i].amount });
        assert(c@ =~= coins@.take(i + 1));
        i = i + 1;
    }
    assert(coins@.take(n as int) =~= coins@);
    c
}

// ---------------------------------------------------------------------------
// Looking up denominations
// ---------------------------------------------------------------------------

/// Whether the table takes denomination `denom`.
pub fn is_supported(config: &Config, denom: &String) -> (r: bool)
    ensures
        r == supports(*config, denom@),
{
    let n = config.supported_denoms.len();
    let mut i: usize = 0;
    while i < n
        invariant
            n == config.supported_denoms.len(),
            0 <= i <= n,
            forall|j: int| 0 <= j < i ==> (#[trigger] config.supported_denoms@[j])@ != denom@,
        decreases n - i,
    {
        if config.supported_denoms[i] == *denom {
            assert((config.supported_denoms@[i as int])@ == denom@);
            return true;
        }
        i = i + 1;
    }
    false
}

/// The index of the first coin of denomination `denom`, if there is one.
pub fn find_denom(coins: &Vec<Coin>, denom: &String) -> (r: Option<usize>)
    ensures
        r matches Some(i) ==> i < coins.len() && coins@[i as int].denom@ == denom@ && forall|j: int|
            0 <= j < i ==> (#[trigger] coins@[j]).denom@ != denom@,
        r is None ==> forall|j: int| 0 <= j < coins.len() ==> (#[trigger] coins@[j]).denom@ != denom@,
{
    let n = coins.len();
    let mut i: usize = 0;
    while i < n
        invariant
            n == coins.len(),
            0 <= i <= n,
            forall|j: int| 0 <= j < i ==> (#[trigger] coins@[j]).denom@ != denom@,
        decreases n - i,
    {
        if coins[i].denom == *denom {
            return Some(i);
        }
        i = i + 1;
    }
    None
}

/// The amount `coins` holds of denomination `denom`: that of its first coin of `denom`, or zero.
pub fn lookup_amount(coins: &Vec<Coin>, denom: &String) -> (a: u128)
    ensures
        a == amount_of(coins@, denom@),
{
    match find_denom(coins, denom) {
        Some(i) => {
            proof {
                lemma_amount_of_first(coins@, i as int, denom@);
            }
            coins[i].amount
        },
        None => {
            proof {
                lemma_amount_of_absent(coins@, denom@);
            }
            0
        },
    }
}

// ---------------------------------------------------------------------------
// Checking bets against the table and the funds sent
// ---------------------------------------------------------------------------

proof fn lemma_denom_total_step(bets: Seq<Bet>, i: int, d: Seq<char>)
    requires
        0 <= i < bets.len(),
    ensures
        denom_total(bets.take(i + 1), d) == denom_total(bets.take(i), d) + (if bets[i].amount.denom@
            == d {
            bets[i].amount.amount as int
        } else {
            0
        }),
{
    assert(bets.take(i + 1).drop_last() =~= bets.take(i));
    assert(bets.take(i + 1).last() == bets[i]);
}

/// The total stake of `bets` in each denomination, refusing the first bet the table does not take.
///
/// A bet is refused when its denomination is not supported, or when the low 64
/// bits of its stake are above `max_bet` or below `min_bet`, in that order.
/// On success the result holds one coin per denomination used by the bets.
pub fn calculate_sum_coins_of_bets(bets: &Vec<Bet>, config: &Config) -> (r: Result<
    Vec<Coin>,
    ContractError,
>)
    requires
        bet_sums_fit(bets@, *config),
    ensures
        r is Ok <==> bets_ok_until(bets@, *config, bets.len() as int),
        r matches Ok(sums) ==> tallies(sums@, bets@),
        r matches Err(e) ==> exists|k: int|
            0 <= k < bets.len() && bets_ok_until(bets@, *config, k) && #[trigger] bet_error(
                *config,
                bets@[k],
            ) == Some(e),
{
    let mut coins: Vec<Coin> = Vec::new();
    let n = bets.len();
    let mut i: usize = 0;
    assert(bets@.take(0) =~= Seq::<Bet>::empty());
    while i < n
        invariant
            n == bets.len(),
            0 <= i <= n,
            bet_sums_fit(bets@, *config),
            bets_ok_until(bets@, *config, i as int),
            tallies(coins@, bets@.take(i as int)),
        decreases n - i,
    {
        let b = &bets[i];
        let bet_amount = b.amount.amount as u64;
        if !is_supported(config, &b.amount.denom) {
            assert(bet_error(*config, bets@[i as int]) == Some(ContractError::DenomUnsupported));
            return Err(ContractError::DenomUnsupported);
        }
        if bet_amount > config.max_bet {
            assert(bet_error(*config, bets@[i as int]) == Some(ContractError::BetAboveMaximum));
            return Err(ContractError::BetAboveMaximum);
        }
        if bet_amount < config.min_bet {
            assert(bet_error(*config, bets@[i as int]) == Some(ContractError::BetBelowMinimum));
            return Err(ContractError::BetBelowMinimum);
        }
        assert(bets_ok_until(bets@, *config, i + 1));
        let ghost old_coins = coins@;
        let ghost prefix = bets@.take(i as int);
        let ghost next = bets@.take(i + 1);
        let ghost d0 = b.amount.denom@;
        proof {
            assert forall|d: Seq<char>| #[trigger] denom_total(next, d) == denom_total(prefix, d) + (
            if d0 == d {
                b.amount.amount as int
            } else {
                0
            }) by {
                lemma_denom_total_step(bets@, i as int, d);
            }
            assert(denom_total(next, d0) <= u128::MAX);
            lemma_bets_use_step(bets@, i as int);
        }
        match find_denom(&coins, &b.amount.denom) {
            None => {
                proof {
                    if bets_use(prefix, d0) {
                        assert(coins_use(old_coins, d0));
                    }
                    lemma_denom_total_unused(prefix, d0);
                }
                coins.push(Coin { denom: b.amount.denom.clone(), amount: b.amount.amount });
                proof {
                    lemma_coins_use_push(old_coins, coins@[old_coins.len() as int]);
                }
            },
            Some(idx) => {
                proof {
                    assert(old_coins[idx as int].amount == denom_total(prefix, d0));
                }
                let total = coins[idx].amount + b.amount.amount;
                let entry = Coin { denom: b.amount.denom.clone(), amount: total };
                coins.set(idx, entry);
                proof {
                    lemma_coins_use_update(old_coins, idx as int, coins@[idx as int]);
                }
            },
        }
        i = i + 1;
    }
    assert(bets@.take(n as int) =~= bets@);
    Ok(coins)
}

/// Checks each fund sent with the bets against the table, refusing the first one it does not take.
///
/// A fund is refused when it is above `max_total`, below `min_bet`, or of an
/// unsupported denomination, in that order.
pub fn validate_amounts(sent_funds: &Vec<Coin>, config: Config) -> (r: Result<(), ContractError>)
    ensures
        r is Ok <==> funds_ok_until(sent_funds@, config, sent_funds.len() as int),
        r matches Err(e) ==> exists|k: int|
            0 <= k < sent_funds.len() && funds_ok_until(sent_funds@, config, k) && #[trigger] fund_error(
                config,
                sent_funds@[k],
            ) == Some(e),
{
    let max_total = config.max_total as u128;
    let min_bet = config.min_bet as u128;
    let n = sent_funds.len();
    let mut i: usize = 0;
    while i < n
        invariant
            n == sent_funds.len(),
            0 <= i <= n,
            max_total == config.max_total,
            min_bet == config.min_bet,
            funds_ok_until(sent_funds@, config, i as int),
        decreases n - i,
    {
        let funds = &sent_funds[i];
        if funds.amount > max_total {
            assert(fund_error(config, sent_funds@[i as int]) == Some(ContractError::BetAboveMaximum));
            return Err(ContractError::BetAboveMaximum);
        }
        if funds.amount < min_bet {
            assert(fund_error(config, sent_funds@[i as int]) == Some(ContractError::BetBelowMinimum));
            return Err(ContractError::BetBelowMinimum);
        }
        if !is_supported(&config, &funds.denom) {
            assert(fund_error(config, sent_funds@[i as int]) == Some(ContractError::DenomUnsupported));
            return Err(ContractError::DenomUnsupported);
        }
        i = i + 1;
    }
    Ok(())
}

/// Every fund sent equals the amount `coins` holds of its denomination (zero if none).
///
/// Denominations of `coins` that no fund names are not checked.
pub fn check_coins_match_input(coins: Vec<Coin>, sent_funds: Vec<Coin>) -> (r: bool)
    ensures
        r <==> forall|i: int|
            0 <= i < sent_funds.len() ==> amount_of(coins@, (#[trigger] sent_funds@[i]).denom@)
                == sent_funds@[i].amount,
{
    let n = sent_funds.len();
    let mut i: usize = 0;
    while i < n
        invariant
            n == sent_funds.len(),
            0 <= i <= n,
            forall|j: int|
                0 <= j < i ==> amount_of(coins@, (#[trigger] sent_funds@[j]).denom@)
                    == sent_funds@[j].amount,
        decreases n - i,
    {
        if lookup_amount(&coins, &sent_funds[i].denom) != sent_funds[i].amount {
            return false;
        }
        i = i + 1;
    }
    true
}

/// Whether summing the stakes of `bets` stays within 128 bits up to the first
/// bet the table refuses, which `calculate_sum_coins_of_bets` requires.
pub fn bet_sums_fit_check(bets: &Vec<Bet>, config: &Config) -> (r: bool)
    ensures
        r == bet_sums_fit(bets@, *config),
{
    let mut coins: Vec<Coin> = Vec::new();
    let n = bets.len();
    let mut i: usize = 0;
    assert(bets@.take(0) =~= Seq::<Bet>::empty());
    while i < n
        invariant
            n == bets.len(),
            0 <= i <= n,
            bets_ok_until(bets@, *config, i as int),
            tallies(coins@, bets@.take(i as int)),
            forall|k: int, d: Seq<char>|
                0 <= k <= i ==> #[trigger] denom_total(bets@.take(k), d) <= u128::MAX,
        decreases n - i,
    {
        let b = &bets[i];
        let bet_amount = b.amount.amount as u64;
        if !is_supported(config, &b.amount.denom) || bet_amount > config.max_bet || bet_amount
            < config.min_bet {
            proof {
                assert(bet_error(*config, bets@[i as int]) is Some);
                assert forall|k: int, d: Seq<char>|
                    0 <= k <= bets.len() && bets_ok_until(bets@, *config, k) implies #[trigger] denom_total(
                    bets@.take(k),
                    d,
                ) <= u128::MAX by {
                    if k > i {
                        assert(bet_error(*config, bets@[i as int]) is None);
                    }
                }
            }
            return true;
        }
        let ghost old_coins = coins@;
        let ghost prefix = bets@.take(i as int);
        let ghost next = bets@.take(i + 1);
        let ghost d0 = b.amount.denom@;
        proof {
            assert(bets_ok_until(bets@, *config, i + 1));
            assert forall|d: Seq<char>| #[trigger] denom_total(next, d) == denom_total(prefix, d) + (
            if d0 == d {
                b.amount.amount as int
            } else {
                0
            }) by {
                lemma_denom_total_step(bets@, i as int, d);
            }
            lemma_bets_use_step(bets@, i as int);
        }
        match find_denom(&coins, &b.amount.denom) {
            None => {
                proof {
                    if bets_use(prefix, d0) {
                        assert(coins_use(old_coins, d0));
                    }
                    lemma_denom_total_unused(prefix, d0);
                }
                coins.push(Coin { denom: b.amount.denom.clone(), amount: b.amount.amount });
                proof {
                    lemma_coins_use_push(old_coins, coins@[old_coins.len() as int]);
                }
            },
            Some(idx) => {
                proof {
                    assert(old_coins[idx as int].amount == denom_total(prefix, d0));
                }
                let total = match coins[idx].amount.checked_add(b.amount.amount) {
                    Some(t) => t,
                    None => {
                        proof {
                            assert(denom_total(bets@.take(i + 1), d0) > u128::MAX);
                        }
                        return false;
                    },
                };
                let entry = Coin { denom: b.amount.denom.clone(), amount: total };
                coins.set(idx, entry);
                proof {
                    lemma_coins_use_update(old_coins, idx as int, coins@[idx as int]);
                }
            },
        }
        proof {
            assert forall|k: int, d: Seq<char>| 0 <= k <= i + 1 implies #[trigger] denom_total(bets@.take(k), d)
                <= u128::MAX by {
                if k == i + 1 {
                    if d != d0 {
                        assert(denom_total(next, d) == denom_total(prefix, d));
                    }
                }
            }
        }
        i = i + 1;
    }
    proof {
        assert forall|k: int, d: Seq<char>|
            0 <= k <= bets.len() && bets_ok_until(bets@, *config, k) implies #[trigger] denom_total(
            bets@.take(k),
            d,
        ) <= u128::MAX by {}
    }
    true
}

} // verus!
