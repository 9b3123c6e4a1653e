use vstd::prelude::*;

use crate::cipher::{aes256gcm_decrypt, aes256gcm_encrypt};
use crate::coins::Config;
use crate::entropy::{prng_block, prng_first_blocks};
use crate::msg::InstantiateMsg;
use crate::ledger::{bytes_equal, copy_bytes, CheckPoint, RequestQueue, State};

verus! {

/// Everything the contract stores when it is instantiated.
#[derive(Clone, Debug)]
pub struct Genesis {
    pub admin: String,
    pub config: Config,
    pub state: State,
    pub checkpoint: CheckPoint,
    pub queue: RequestQueue,
    pub aead_key: Vec<u8>,
}

/// The smallest stake a table takes when its message names none.
pub const DEFAULT_MIN_BET: u64 = 1;

/// The largest single stake a table takes when its message names none.
pub const DEFAULT_MAX_BET: u64 = 0xffff_ffff_ffff_ffff;

/// The largest fund a table takes when its message names none.
pub const DEFAULT_MAX_TOTAL: u64 = 0xffff_ffff_ffff_ffff;

/// The seed of the generator that draws the AEAD key; `entropy` is added to it.
pub open spec fn key_seed() -> Seq<u8> {
    seq![1u8, 1u8, 1u8, 1u8, 1u8, 1u8, 1u8, 1u8, 1u8, 1u8, 1u8, 1u8, 1u8, 1u8, 1u8, 1u8]
}

/// A limit of the message, or `default` when it names none.
pub open spec fn limit_or(limit: Option<u64>, default: u64) -> u64 {
    match limit {
        Some(v) => v,
        None => default,
    }
}

/// The first `n` bytes of `bytes`.
fn prefix_bytes(bytes: &Vec<u8>, n: usize) -> (p: Vec<u8>)
    requires
        n <= bytes.len(),
    ensures
        p@ == bytes@.take(n as int),
{
    let mut p: Vec<u8> = Vec::new();
    let mut i: usize = 0;
    while i < n
        invariant
            n <= bytes.len(),
            0 <= i <= n,
            p@ == bytes@.take(i as int),
        decreases n - i,
    {
        p.push(bytes[i]);
        assert(p@ =~= bytes@.take(i + 1));
        i = i + 1;
    }
    p
}

/// Seals the test message "plaintext message" under `key` and `nonce`, opens
/// it again, and tells whether what opened is the message; it always is.
pub fn cipher_self_test(key: &Vec<u8>, nonce: &Vec<u8>) -> (ok: bool)
    requires
        key@.len() == 32,
        nonce@.len() == 12,
    ensures
        ok,
{
    // "plaintext message"
    let message: Vec<u8> = vec![
        112, 108, 97, 105, 110, 116, 101, 120, 116, 32, 109, 101, 115, 115, 97, 103, 101,
    ];
    let ciphertext = aes256gcm_encrypt(key.as_slice(), nonce.as_slice(), message.as_slice()).unwrap();
    let plaintext = aes256gcm_decrypt(key.as_slice(), nonce.as_slice(), ciphertext.as_slice()).unwrap();
    bytes_equal(&plaintext, &message)
}

/// Sets up the contract for `sender` from the block's randomness `entropy`
/// and the instantiation message `msg`.
///
/// The administrator is the message's `admin`, or else the sender. The table
/// takes the message's limits and denominations; a limit it leaves out is
/// `DEFAULT_MIN_BET`, `DEFAULT_MAX_BET` or `DEFAULT_MAX_TOTAL`, and without
/// denominations the table takes `uscrt` alone. The hash chain starts at
/// `entropy` with counter zero, the request queue and the checkpoint start
/// empty, and the AEAD key is the first block of a generator seeded with
/// `key_seed()` and `entropy`; the key is checked by sealing and opening a
/// test message with it, which cannot fail.
pub fn instantiate(sender: String, entropy: &Vec<u8>, msg: InstantiateMsg) -> (g: Genesis)
    ensures
        g.admin == (match msg.admin {
            Some(a) => a,
            None => sender,
        }),
        g.config.min_bet == limit_or(msg.min_bet, DEFAULT_MIN_BET),
        g.config.max_bet == limit_or(msg.max_bet, DEFAULT_MAX_BET),
        g.config.max_total == limit_or(msg.max_total, DEFAULT_MAX_TOTAL),
        msg.supported_denoms matches Some(d) ==> g.config.supported_denoms@ == d@,
        msg.supported_denoms is None ==> g.config.supported_denoms@.len() == 1
            && g.config.supported_denoms@[0]@ == "uscrt"@,
        g.state.owner == sender,
        g.state.key@ == entropy@,
        g.state.current_hash@ == entropy@,
        g.state.counter == 0,
        g.checkpoint.checkpoint@.len() == 0,
        g.checkpoint.seqno == 0,
        g.checkpoint.resp_seqno == 0,
        g.queue.len == 0,
        g.queue.seqno == 0,
        g.aead_key@ == prng_block(key_seed(), entropy@, 0),
        g.aead_key@.len() == 32,
{
    let admin = match msg.admin {
        Some(a) => a,
        None => sender.clone(),
    };
    let supported_denoms = match msg.supported_denoms {
        Some(d) => d,
        None => vec![String::from_str("uscrt")],
    };
    let config = Config {
        min_bet: match msg.min_bet {
            Some(v) => v,
            None => DEFAULT_MIN_BET,
        },
        max_bet: match msg.max_bet {
            Some(v) => v,
            None => DEFAULT_MAX_BET,
        },
        max_total: match msg.max_total {
            Some(v) => v,
            None => DEFAULT_MAX_TOTAL,
        },
        supported_denoms,
    };
    let state = State {
        owner: sender,
        key: copy_bytes(entropy),
        current_hash: copy_bytes(entropy),
        counter: 0,
    };
    let checkpoint = CheckPoint { checkpoint: Vec::new(), seqno: 0, resp_seqno: 0 };

    let seed: Vec<u8> = vec![1, 1, 1, 1, 1, 1, 1, 1, 1, 1, 1, 1, 1, 1, 1, 1];
    assert(seed@ =~= key_seed());
    let (key, rnd_bytes) = prng_first_blocks(seed.as_slice(), entropy.as_slice());
    let nonce = prefix_bytes(&rnd_bytes, 12);

    let sound = cipher_self_test(&key, &nonce);
    assert(sound);

    Genesis { admin, config, state, checkpoint, queue: RequestQueue::new(), aead_key: key }
}

} // verus!
