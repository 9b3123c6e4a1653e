use vstd::prelude::*;

use crate::coins::Coin;
use crate::error::ContractError;

verus! {

/// The kind of a queued request.
#[allow(non_camel_case_types, clippy::upper_case_acronyms)]
#[derive(Clone, Copy, Debug, PartialEq, Eq, Structural)]
pub enum RequestType {
    DEPOSIT,
    TRANSFER,
    WITHDRAW,
}

/// A request queued for the off-chain enclave to process.
#[derive(Clone, Debug)]
pub struct Request {
    pub reqtype: RequestType,
    pub from: String,
    pub to: Option<String>,
    pub amount: u128,
    pub memo: Option<String>,
}

/// The enclave's answer to one queued request.
#[derive(Clone, Debug)]
pub struct ResponseState {
    pub seqno: u128,
    pub status: bool,
    pub amount: u128,
    pub response: String,
}

/// The balance of one address in a checkpoint.
#[derive(Clone, Debug)]
pub struct AddressBalance {
    pub balance: u128,
    pub address: String,
}

/// A snapshot of all balances, with the request and response numbers it covers.
#[derive(Clone, Debug)]
pub struct CheckPoint {
    pub checkpoint: Vec<AddressBalance>,
    pub seqno: u128,
    pub resp_seqno: u128,
}

/// The hash chain kept by the contract.
#[derive(Clone, Debug)]
pub struct State {
    pub owner: String,
    pub key: Vec<u8>,
    pub current_hash: Vec<u8>,
    pub counter: u128,
}

/// The two counters of the request queue: how many requests were submitted,
/// and the number of the next request whose response is expected.
#[derive(Clone, Copy, Debug, PartialEq, Eq, Structural)]
pub struct RequestQueue {
    pub len: u128,
    pub seqno: u128,
}

impl RequestQueue {
    /// Responses never run ahead of requests.
    pub open spec fn wf(self) -> bool {
        self.seqno <= self.len
    }

    /// An empty queue.
    pub fn new() -> (q: RequestQueue)
        ensures
            q.len == 0,
            q.seqno == 0,
            q.wf(),
    {
        RequestQueue { len: 0, seqno: 0 }
    }

    /// Reserves the next request slot, returning its number.
    pub fn push_slot(&mut self) -> (slot: u128)
        requires
            old(self).len < u128::MAX,
        ensures
            slot == old(self).len,
            final(self).len == old(self).len + 1,
            final(self).seqno == old(self).seqno,
    {
        let slot = self.len;
        self.len = slot + 1;
        slot
    }
}

/// The queue after one more request was submitted.
pub open spec fn pushed(q: RequestQueue) -> RequestQueue {
    RequestQueue { len: (q.len + 1) as u128, seqno: q.seqno }
}

/// The request a deposit queues.
pub open spec fn deposit_of(sender: String, amount: u128) -> Request {
    Request { reqtype: RequestType::DEPOSIT, from: sender, to: None, amount: amount, memo: None }
}

/// The request a transfer queues.
pub open spec fn transfer_of(sender: String, to: String, amount: u128, memo: String) -> Request {
    Request {
        reqtype: RequestType::TRANSFER,
        from: sender,
        to: Some(to),
        amount: amount,
        memo: Some(memo),
    }
}

/// The request a withdrawal queues.
pub open spec fn withdraw_of(sender: String, amount: u128) -> Request {
    Request { reqtype: RequestType::WITHDRAW, from: sender, to: None, amount: amount, memo: None }
}

/// What committing a response numbered `response_seqno` does to queue `q`.
pub open spec fn commit_outcome(q: RequestQueue, response_seqno: u128) -> Result<RequestQueue, ContractError> {
    if response_seqno != q.seqno {
        Err(ContractError::ResponseOutOfOrder)
    } else if response_seqno >= q.len {
        Err(ContractError::ResponseBeyondRequests)
    } else {
        Ok(RequestQueue { len: q.len, seqno: (q.seqno + 1) as u128 })
    }
}

/// The sum of the amounts of `coins`.
pub open spec fn coins_total(coins: Seq<Coin>) -> int
    decreases coins.len(),
{
    if coins.len() == 0 {
        0
    } else {
        coins_total(coins.drop_last()) + coins.last().amount
    }
}

/// A total of coins is never negative.
pub proof fn lemma_coins_total_nonneg(coins: Seq<Coin>)
    ensures
        coins_total(coins) >= 0,
    decreases coins.len(),
{
    if coins.len() > 0 {
        lemma_coins_total_nonneg(coins.drop_last());
    }
}

proof fn lemma_coins_total_prefix(coins: Seq<Coin>, k: int)
    requires
        0 <= k <= coins.len(),
    ensures
        coins_total(coins.take(k)) <= coins_total(coins),
    decreases coins.len(),
{
    if k == coins.len() {
        assert(coins.take(k) =~= coins);
    } else {
        assert(coins.drop_last().take(k) =~= coins.take(k));
        lemma_coins_total_prefix(coins.drop_last(), k);
    }
}

/// The total amount of `funds`.
fn sum_funds(funds: &Vec<Coin>) -> (total: u128)
    requires
        coins_total(funds@) <= u128::MAX,
    ensures
        total == coins_total(funds@),
{
    let mut amount: u128 = 0;
    let n = funds.len();
    let mut i: usize = 0;
    assert(funds@.take(0) =~= Seq::<Coin>::empty());
    while i < n
        invariant
            n == funds.len(),
            0 <= i <= n,
            coins_total(funds@) <= u128::MAX,
            amount == coins_total(funds@.take(i as int)),
        decreases n - i,
    {
        proof {
            assert(funds@.take(i + 1).drop_last() =~= funds@.take(i as int));
            lemma_coins_total_prefix(funds@, i + 1);
        }
        amount = amount + funds[i].amount;
        i = i + 1;
    }
    assert(funds@.take(n as int) =~= funds@);
    amount
}

/// The total amount of `funds`, or `None` when it does not fit in 128 bits.
pub fn checked_funds_total(funds: &Vec<Coin>) -> (r: Option<u128>)
    ensures
        r is Some <==> coins_total(funds@) <= u128::MAX,
        r matches Some(t) ==> t == coins_total(funds@),
{
    let mut amount: u128 = 0;
    let n = funds.len();
    let mut i: usize = 0;
    assert(funds@.take(0) =~= Seq::<Coin>::empty());
    while i < n
        invariant
            n == funds.len(),
            0 <= i <= n,
            amount == coins_total(funds@.take(i as int)),
        decreases n - i,
    {
        proof {
            assert(funds@.take(i + 1).drop_last() =~= funds@.take(i as int));
            lemma_coins_total_prefix(funds@, i + 1);
        }
        amount = match amount.checked_add(funds[i].amount) {
            Some(a) => a,
            None => {
                return None;
            },
        };
        i = i + 1;
    }
    assert(funds@.take(n as int) =~= funds@);
    Some(amount)
}

/// Queues a deposit of all the funds sent by `sender`.
///
/// Refused when the funds add up to zero; otherwise the request takes the next
/// slot of the queue, whose number is returned with it.
pub fn try_submit_deposit(queue: &mut RequestQueue, sender: String, funds: &Vec<Coin>) -> (r: Result<
    (u128, Request),
    ContractError,
>)
    requires
        coins_total(funds@) <= u128::MAX,
        coins_total(funds@) > 0 ==> old(queue).len < u128::MAX,
    ensures
        coins_total(funds@) == 0 ==> r == Err::<(u128, Request), ContractError>(ContractError::NoDepositFunds)
            && *final(queue) == *old(queue),
        coins_total(funds@) > 0 ==> r == Ok::<(u128, Request), ContractError>(
            (old(queue).len, deposit_of(sender, coins_total(funds@) as u128)),
        ) && *final(queue) == pushed(*old(queue)),
        r matches Ok((slot, req)) ==> (slot == old(queue).len && req.from == sender && req.to is None
            && req.amount == coins_total(funds@) && req.memo is None && req.reqtype == RequestType::DEPOSIT),
{
    let amount = sum_funds(funds);
    if amount == 0 {
        return Err(ContractError::NoDepositFunds);
    }
    let request = Request {
        reqtype: RequestType::DEPOSIT,
        from: sender,
        to: None,
        amount: amount,
        memo: None,
    };
    let slot = queue.push_slot();
    Ok((slot, request))
}

/// Queues a transfer of `amount` from `sender` to `to`.
///
/// Refused when `amount` is zero; otherwise the request takes the next slot
/// of the queue, whose number is returned with it.
pub fn try_submit_transfer(
    queue: &mut RequestQueue,
    sender: String,
    to: String,
    amount: u128,
    memo: String,
) -> (r: Result<(u128, Request), ContractError>)
    requires
        amount > 0 ==> old(queue).len < u128::MAX,
    ensures
        amount == 0 ==> r == Err::<(u128, Request), ContractError>(ContractError::NoTransferFunds)
            && *final(queue) == *old(queue),
        amount > 0 ==> r == Ok::<(u128, Request), ContractError>(
            (old(queue).len, transfer_of(sender, to, amount, memo)),
        ) && *final(queue) == pushed(*old(queue)),
        r matches Ok((slot, req)) ==> (slot == old(queue).len && req.from == sender && req.to == Some(to)
            && req.amount == amount && req.memo == Some(memo) && req.reqtype == RequestType::TRANSFER),
{
    if amount == 0 {
        return Err(ContractError::NoTransferFunds);
    }
    let request = Request {
        reqtype: RequestType::TRANSFER,
        from: sender,
        to: Some(to),
        amount: amount,
        memo: Some(memo),
    };
    let slot = queue.push_slot();
    Ok((slot, request))
}

/// Queues a withdrawal of `amount` by `sender`.
///
/// Refused when `amount` is zero; otherwise the request takes the next slot
/// of the queue, whose number is returned with it.
pub fn try_submit_withdraw(queue: &mut RequestQueue, sender: String, amount: u128) -> (r: Result<
    (u128, Request),
    ContractError,
>)
    requires
        amount > 0 ==> old(queue).len < u128::MAX,
    ensures
        amount == 0 ==> r == Err::<(u128, Request), ContractError>(ContractError::NoTransferFunds)
            && *final(queue) == *old(queue),
        amount > 0 ==> r == Ok::<(u128, Request), ContractError>(
            (old(queue).len, withdraw_of(sender, amount)),
        ) && *final(queue) == pushed(*old(queue)),
        r matches Ok((slot, req)) ==> (slot == old(queue).len && req.from == sender && req.to is None
            && req.amount == amount && req.memo is None && req.reqtype == RequestType::WITHDRAW),
{
    if amount == 0 {
        return Err(ContractError::NoTransferFunds);
    }
    let request = Request {
        reqtype: RequestType::WITHDRAW,
        from: sender,
        to: None,
        amount: amount,
        memo: None,
    };
    let slot = queue.push_slot();
    Ok((slot, request))
}

/// Commits the enclave's response to the next request in the queue.
///
/// Responses are taken strictly in order: the response must carry the number
/// of the next expected request, and that request must have been submitted.
/// On success the queue moves on by one and the number of the request the
/// response answers is returned.
pub fn try_commit_response(queue: &mut RequestQueue, response: &ResponseState) -> (r: Result<
    u128,
    ContractError,
>)
    ensures
        commit_outcome(*old(queue), response.seqno) matches Err(e) ==> r == Err::<u128, ContractError>(e)
            && *final(queue) == *old(queue),
        commit_outcome(*old(queue), response.seqno) matches Ok(q) ==> r == Ok::<u128, ContractError>(
            response.seqno,
        ) && *final(queue) == q,
{
    let seqno = queue.seqno;
    let req_len = queue.len;
    if response.seqno != seqno {
        return Err(ContractError::ResponseOutOfOrder);
    }
    if response.seqno >= req_len {
        return Err(ContractError::ResponseBeyondRequests);
    }
    let new_seqno = response.seqno + 1;
    queue.seqno = new_seqno;
    Ok(response.seqno)
}

/// Replaces the stored checkpoint with `new_checkpoint`, unless it is older.
pub fn try_write_checkpoint(old_checkpoint: &CheckPoint, new_checkpoint: CheckPoint) -> (r: Result<
    CheckPoint,
    ContractError,
>)
    ensures
        old_checkpoint.seqno > new_checkpoint.seqno ==> r == Err::<CheckPoint, ContractError>(
            ContractError::CheckpointTooOld,
        ),
        old_checkpoint.seqno <= new_checkpoint.seqno ==> r == Ok::<CheckPoint, ContractError>(
            new_checkpoint,
        ),
{
    if old_checkpoint.seqno > new_checkpoint.seqno {
        return Err(ContractError::CheckpointTooOld);
    }
    Ok(new_checkpoint)
}

/// Whether two byte strings are equal.
pub fn bytes_equal(a: &Vec<u8>, b: &Vec<u8>) -> (r: bool)
    ensures
        r == (a@ == b@),
{
    if a.len() != b.len() {
        return false;
    }
    let n = a.len();
    let mut i: usize = 0;
    while i < n
        invariant
            n == a.len(),
            n == b.len(),
            0 <= i <= n,
            forall|j: int| 0 <= j < i ==> a@[j] == b@[j],
        decreases n - i,
    {
        if a[i] != b[i] {
            return false;
        }
        i = i + 1;
    }
    assert(a@ =~= b@);
    true
}

/// A copy of `bytes`.
pub fn copy_bytes(bytes: &Vec<u8>) -> (c: Vec<u8>)
    ensures
        c@ == bytes@,
{
    let mut c: Vec<u8> = Vec::new();
    let n = bytes.len();
    let mut i: usize = 0;
    while i < n
        invariant
            n == bytes.len(),
            0 <= i <= n,
            c@ == bytes@.take(i as int),
        decreases n - i,
    {
        c.push(bytes[i]);
        assert(c@ =~= bytes@.take(i + 1));
        i = i + 1;
    }
    assert(bytes@.take(n as int) =~= bytes@);
    c
}

/// Why an update of the hash chain is refused, if it is.
pub open spec fn update_error(
    counter: u128,
    new_counter: u128,
    new_hash: Seq<u8>,
    current_mac: Seq<u8>,
    expected_mac: Seq<u8>,
    expected_hash: Seq<u8>,
) -> Option<ContractError> {
    if expected_mac != current_mac {
        Some(ContractError::MacMismatch)
    } else if new_counter != counter + 1 {
        Some(ContractError::CounterNotNext)
    } else if expected_hash != new_hash {
        Some(ContractError::HashMismatch)
    } else {
        None
    }
}

/// Advances the hash chain by one link.
///
/// `expected_mac` is the MAC of the stored hash under the stored key, and
/// `expected_hash` the chain's hash for `new_counter` after the stored hash;
/// the caller computes both. The update is refused, in this order, when
/// `current_mac` differs from `expected_mac`, when `new_counter` is not the
/// stored counter plus one, or when `new_hash` differs from `expected_hash`.
pub fn try_apply_update(
    store: &State,
    new_counter: u128,
    new_hash: &Vec<u8>,
    current_mac: &Vec<u8>,
    expected_mac: &Vec<u8>,
    expected_hash: &Vec<u8>,
) -> (r: Result<State, ContractError>)
    requires
        expected_mac@ == current_mac@ ==> store.counter < u128::MAX,
    ensures
        update_error(store.counter, new_counter, new_hash@, current_mac@, expected_mac@, expected_hash@) matches Some(e)
            ==> r == Err::<State, ContractError>(e),
        update_error(store.counter, new_counter, new_hash@, current_mac@, expected_mac@, expected_hash@) is None
            ==> (r matches Ok(s) && s.owner == store.owner && s.key@ == store.key@ && s.current_hash@
            == new_hash@ && s.counter == new_counter),
        r is Ok ==> (current_mac@ == expected_mac@ && new_counter == store.counter + 1 && new_hash@
            == expected_hash@),
{
    if !bytes_equal(expected_mac, current_mac) {
        return Err(ContractError::MacMismatch);
    }
    if new_counter != store.counter + 1 {
        return Err(ContractError::CounterNotNext);
    }
    if !bytes_equal(expected_hash, new_hash) {
        return Err(ContractError::HashMismatch);
    }
    Ok(State {
        owner: store.owner.clone(),
        key: copy_bytes(&store.key),
        current_hash: copy_bytes(new_hash),
        counter: new_counter,
    })
}

/// An update is accepted exactly when the MAC passed in is the expected one,
/// the new counter is the stored counter plus one, and the new hash is,
/// byte for byte, the expected one.
pub proof fn lemma_update_accepted_exactly(
    counter: u128,
    new_counter: u128,
    new_hash: Seq<u8>,
    current_mac: Seq<u8>,
    expected_mac: Seq<u8>,
    expected_hash: Seq<u8>,
)
    ensures
        update_error(counter, new_counter, new_hash, current_mac, expected_mac, expected_hash) is None
            <==> (current_mac == expected_mac && new_counter == counter + 1 && new_hash == expected_hash),
        current_mac == expected_mac && new_counter == counter + 1 && new_hash != expected_hash
            ==> update_error(counter, new_counter, new_hash, current_mac, expected_mac, expected_hash)
            == Some(ContractError::HashMismatch),
{
}

/// A queued request is from its sender: a deposit and a withdrawal go to no
/// one and carry no memo, a transfer goes to its recipient with its memo, and
/// each carries the amount asked for.
pub proof fn lemma_requests_record_sender(sender: String, to: String, amount: u128, memo: String)
    ensures
        deposit_of(sender, amount).from == sender && deposit_of(sender, amount).to is None
            && deposit_of(sender, amount).amount == amount && deposit_of(sender, amount).reqtype
            == RequestType::DEPOSIT,
        transfer_of(sender, to, amount, memo).from == sender && transfer_of(sender, to, amount, memo).to
            == Some(to) && transfer_of(sender, to, amount, memo).amount == amount && transfer_of(
            sender,
            to,
            amount,
            memo,
        ).memo == Some(memo) && transfer_of(sender, to, amount, memo).reqtype == RequestType::TRANSFER,
        withdraw_of(sender, amount).from == sender && withdraw_of(sender, amount).to is None
            && withdraw_of(sender, amount).amount == amount && withdraw_of(sender, amount).reqtype
            == RequestType::WITHDRAW,
{
}

/// An accepted update cannot be replayed: with the same arguments against the
/// updated chain it is refused, since the counter has already moved on; and
/// each accepted update moves the counter up by exactly one.
pub proof fn lemma_update_not_replayable(
    counter: u128,
    new_counter: u128,
    new_hash: Seq<u8>,
    current_mac: Seq<u8>,
    expected_mac: Seq<u8>,
    expected_hash: Seq<u8>,
)
    requires
        update_error(counter, new_counter, new_hash, current_mac, expected_mac, expected_hash) is None,
    ensures
        new_counter == counter + 1,
        update_error(new_counter, new_counter, new_hash, current_mac, expected_mac, expected_hash)
            == Some(ContractError::CounterNotNext),
{
}

/// Lets `sender` through only when it is the administrator.
pub fn authorize_admin(admin: &String, sender: &String) -> (r: Result<(), ContractError>)
    ensures
        r is Ok <==> admin@ == sender@,
        r matches Err(e) ==> e == ContractError::Unauthorized,
{
    if *admin != *sender {
        return Err(ContractError::Unauthorized);
    }
    Ok(())
}

/// The administrator withdraws `coin`: the coin is to be sent to the sender.
pub fn admin_withdraw(admin: &String, sender: String, coin: Coin) -> (r: Result<
    (String, Coin),
    ContractError,
>)
    ensures
        admin@ != sender@ ==> r == Err::<(String, Coin), ContractError>(ContractError::Unauthorized),
        admin@ == sender@ ==> r == Ok::<(String, Coin), ContractError>((sender, coin)),
{
    authorize_admin(admin, &sender)?;
    Ok((sender, coin))
}

/// The administrator hands the role to `new_admin`.
pub fn change_admin(admin: &mut String, sender: &String, new_admin: String) -> (r: Result<
    (),
    ContractError,
>)
    ensures
        old(admin)@ != sender@ ==> r == Err::<(), ContractError>(ContractError::Unauthorized)
            && *final(admin) == *old(admin),
        old(admin)@ == sender@ ==> r is Ok && *final(admin) == new_admin,
{
    authorize_admin(admin, sender)?;
    *admin = new_admin;
    Ok(())
}

// ---------------------------------------------------------------------------
// Laws of the request queue
// ---------------------------------------------------------------------------

/// Submitting a request and committing a response both keep responses from
/// running ahead of requests.
pub proof fn lemma_queue_stays_wf(q: RequestQueue, response_seqno: u128)
    requires
        q.wf(),
    ensures
        q.len < u128::MAX ==> pushed(q).wf(),
        commit_outcome(q, response_seqno) matches Ok(next) ==> next.wf(),
{
}

/// Responses are committed strictly in order, each once: a response is
/// accepted only for the next expected request, the queue then expects the
/// one after it, and the same response is refused if committed again.
pub proof fn lemma_commit_in_order(q: RequestQueue, response_seqno: u128)
    requires
        q.wf(),
    ensures
        commit_outcome(q, response_seqno) is Ok <==> (response_seqno == q.seqno && q.seqno < q.len),
        commit_outcome(q, response_seqno) matches Ok(next) ==> next.seqno == response_seqno + 1
            && next.len == q.len && commit_outcome(next, response_seqno) is Err,
{
}

/// Every submitted request can be answered: after a request is submitted to
/// a queue whose responses have caught up, its response is accepted.
pub proof fn lemma_submitted_request_answerable(q: RequestQueue)
    requires
        q.wf(),
        q.seqno == q.len,
        q.len < u128::MAX,
    ensures
        commit_outcome(pushed(q), q.len) is Ok,
{
}

} // verus!
