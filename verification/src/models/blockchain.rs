//! Canonical hashes of transactions and blocks, the validity rules built on
//! them, and the chain with its pool of pending transactions.

use crate::crypto::{
    fits_pem_reader, is_digest_text, rsa_sha256_verifies, sha256_hex, sha_hash,
    verify_rsa_sha256, MAX_PEM_LEN,
};
use crate::encoding::{
    decimal, decimal_holds_no_other, decimal_is_injective, decode_hex, hex_decoded, push_decimal,
};
use crate::node::{
    block_views, contains_transaction, transaction_views, Block, BlockView, Transaction,
    TransactionView,
};
use vstd::prelude::*;
use vstd::string::StringExecFns;

verus! {

/// The separator between the fields of a hashed text.
pub open spec fn bar() -> Seq<char> {
    seq!['|']
}

/// The text that a transaction's hash is taken of: timestamp, sender,
/// receiver, amount and fee, in this order, separated by `|`.
pub open spec fn transaction_text(t: TransactionView) -> Seq<char> {
    decimal(t.timestamp) + bar() + t.sender + bar() + t.receiver + bar() + decimal(t.amount)
        + bar() + decimal(t.fee)
}

/// The canonical hash of a transaction.
pub open spec fn transaction_hash(t: TransactionView) -> Seq<char> {
    sha256_hex(transaction_text(t))
}

/// The canonical hashes of `transactions`, in order, with `|` between
/// neighbours; empty for no transactions.
pub open spec fn joined_hashes(transactions: Seq<TransactionView>) -> Seq<char>
    decreases transactions.len(),
{
    if transactions.len() == 0 {
        Seq::empty()
    } else if transactions.len() == 1 {
        transaction_hash(transactions[0])
    } else {
        joined_hashes(transactions.drop_last()) + bar() + transaction_hash(transactions.last())
    }
}

/// The text that stands for a block before a nonce is chosen: id, previous
/// hash and the joined hashes of its transactions, separated by `|`.
pub open spec fn block_text(b: BlockView) -> Seq<char> {
    decimal(b.id) + bar() + b.prev_hash + bar() + joined_hashes(b.transactions)
}

/// The hash of a block before a nonce is chosen.
pub open spec fn block_base_hash(b: BlockView) -> Seq<char> {
    sha256_hex(block_text(b))
}

/// The hash that the nonce `nonce` gives on top of the pre-nonce hash `base`:
/// the digest of `base` followed at once by the nonce in decimal.
pub open spec fn sealed_hash(base: Seq<char>, nonce: int) -> Seq<char> {
    sha256_hex(base + decimal(nonce))
}

/// The canonical hash of a block under the nonce `nonce`.
pub open spec fn block_hash(b: BlockView, nonce: int) -> Seq<char> {
    sealed_hash(block_base_hash(b), nonce)
}

/// The hash that `nonce` gives on top of the pre-nonce hash `base`.
pub fn seal_hash(base: &str, nonce: i32) -> (hash: String)
    ensures
        hash@ == sealed_hash(base@, nonce as int),
        is_digest_text(hash@),
{
    let mut text = String::new();
    text.append(base);
    push_decimal(&mut text, nonce as i64);
    assert(text@ =~= base@ + decimal(nonce as int));
    sha_hash(text.as_str())
}

impl Transaction {
    /// The canonical hash of this transaction, whatever its `hash` field says.
    pub fn compute_hash(&self) -> (hash: String)
        ensures
            hash@ == transaction_hash(self@),
            is_digest_text(hash@),
    {
        let mut text = String::new();
        push_decimal(&mut text, self.timestamp as i64);
        text.push('|');
        text.append(self.sender.as_str());
        text.push('|');
        text.append(self.receiver.as_str());
        text.push('|');
        push_decimal(&mut text, self.amount as i64);
        text.push('|');
        push_decimal(&mut text, self.fee as i64);
        assert(text@ =~= transaction_text(self@));
        sha_hash(text.as_str())
    }
}

impl Block {
    /// The hash of this block before a nonce is chosen.
    pub fn base_hash(&self) -> (hash: String)
        ensures
            hash@ == block_base_hash(self@),
            is_digest_text(hash@),
    {
        let mut text = String::new();
        push_decimal(&mut text, self.id as i64);
        text.push('|');
        text.append(self.prev_hash.as_str());
        text.push('|');
        let ghost head = text@;
        let ghost views = self@.transactions;
        let mut i: usize = 0;
        while i < self.transactions.len()
            invariant
                i <= self.transactions.len(),
                views == self@.transactions,
                text@ == head + joined_hashes(views.take(i as int)),
            decreases self.transactions.len() - i,
        {
            if i > 0 {
                text.push('|');
            }
            let hash = self.transactions[i].compute_hash();
            text.append(hash.as_str());
            proof {
                assert(views.take(i + 1).drop_last() =~= views.take(i as int));
                assert(views.take(i + 1).last() == self.transactions@[i as int]@);
                assert(text@ =~= head + joined_hashes(views.take(i + 1)));
            }
            i += 1;
        }
        assert(views.take(i as int) =~= views);
        assert(text@ =~= block_text(self@));
        sha_hash(text.as_str())
    }

    /// The canonical hash of this block under the nonce `nonce`, whatever
    /// its `hash` and `nonce` fields say.
    pub fn compute_hash(&self, nonce: i32) -> (hash: String)
        ensures
            hash@ == block_hash(self@, nonce as int),
            is_digest_text(hash@),
    {
        let base = self.base_hash();
        seal_hash(base.as_str(), nonce)
    }
}

/// Whether the signature of `t` stands: sender and signature are hex
/// strings, the sender's bytes are a key text of a length that OpenSSL's
/// reader takes, and under that key the signature is accepted for the text
/// of the `hash` field.
pub open spec fn signature_valid(t: TransactionView) -> bool {
    match (hex_decoded(t.sender), hex_decoded(t.signature)) {
        (Some(key), Some(signature)) => fits_pem_reader(key) && rsa_sha256_verifies(
            key,
            t.hash,
            signature,
        ),
        _ => false,
    }
}

/// Whether a transaction is valid: amount and fee are not negative, sender
/// and receiver differ, the `hash` field is the canonical hash, and the
/// signature stands.
pub open spec fn transaction_valid(t: TransactionView) -> bool {
    &&& t.amount >= 0
    &&& t.fee >= 0
    &&& t.sender != t.receiver
    &&& t.hash == transaction_hash(t)
    &&& signature_valid(t)
}

impl Transaction {
    /// Check if the transaction is valid. The `hash` field of a valid
    /// transaction has the form of a digest.
    pub fn check_transaction_validity(&self) -> (valid: bool)
        ensures
            valid == transaction_valid(self@),
            valid ==> is_digest_text(self@.hash),
    {
        if self.amount < 0 {
            return false;
        }
        if self.fee < 0 {
            return false;
        }
        if self.sender == self.receiver {
            return false;
        }
        let hash = self.compute_hash();
        if !(self.hash == hash) {
            return false;
        }
        self.verify_signature()
    }

    /// Whether the signature stands; any failure to decode the key or the
    /// signature, or to verify, counts as a signature that does not stand.
    fn verify_signature(&self) -> (valid: bool)
        ensures
            valid == signature_valid(self@),
    {
        let key = match decode_hex(self.sender.as_str()) {
            Ok(bytes) => bytes,
            Err(_) => {
                return false;
            },
        };
        let signature = match decode_hex(self.signature.as_str()) {
            Ok(bytes) => bytes,
            Err(_) => {
                return false;
            },
        };
        if key.len() > MAX_PEM_LEN {
            return false;
        }
        match verify_rsa_sha256(key.as_slice(), self.hash.as_str(), signature.as_slice()) {
            Ok(accepted) => accepted,
            Err(_) => false,
        }
    }
}

/// A transaction with a negative amount, a negative fee, or the sender as
/// its receiver is not valid, whatever its hash and signature.
pub proof fn malformed_transaction_is_invalid(t: TransactionView)
    requires
        t.amount < 0 || t.fee < 0 || t.sender == t.receiver,
    ensures
        !transaction_valid(t),
{
}

/// Changing the `hash` field of a valid transaction makes it invalid.
pub proof fn changed_hash_is_invalid(t: TransactionView, hash: Seq<char>)
    requires
        transaction_valid(t),
        hash != t.hash,
    ensures
        !transaction_valid(TransactionView { hash, ..t }),
{
    let changed = TransactionView { hash, ..t };
    assert(transaction_text(changed) == transaction_text(t));
}

/// Texts that agree and begin alike agree in what follows.
proof fn lemma_rest_is_told(head: Seq<char>, first: Seq<char>, second: Seq<char>)
    requires
        head + first == head + second,
    ensures
        first == second,
{
    let one = head + first;
    let other = head + second;
    assert(one.len() == other.len());
    assert forall|i: int| 0 <= i < first.len() implies first[i] == second[i] by {
        assert(one[head.len() + i] == first[i]);
        assert(other[head.len() + i] == second[i]);
    }
    assert(first =~= second);
}

/// Two texts without a separator, each followed by a separator and more,
/// agree part by part where the whole agrees.
proof fn lemma_split_at_bar(
    first: Seq<char>,
    first_rest: Seq<char>,
    second: Seq<char>,
    second_rest: Seq<char>,
)
    requires
        first + bar() + first_rest == second + bar() + second_rest,
        !first.contains('|'),
        !second.contains('|'),
    ensures
        first == second,
        first_rest == second_rest,
{
    let one = first + bar() + first_rest;
    let other = second + bar() + second_rest;
    assert(one[first.len() as int] == '|');
    assert(other[second.len() as int] == '|');
    if first.len() < second.len() {
        assert(other[first.len() as int] == second[first.len() as int]);
    }
    if second.len() < first.len() {
        assert(one[second.len() as int] == first[second.len() as int]);
    }
    assert forall|i: int| 0 <= i < first.len() implies first[i] == second[i] by {
        assert(one[i] == first[i]);
        assert(other[i] == second[i]);
    }
    assert(first =~= second);
    assert(one.len() == other.len());
    assert forall|i: int| 0 <= i < first_rest.len() implies first_rest[i] == second_rest[i] by {
        assert(one[first.len() + 1 + i] == first_rest[i]);
        assert(other[second.len() + 1 + i] == second_rest[i]);
    }
    assert(first_rest =~= second_rest);
}

/// Changing the amount or the fee of a transaction changes the text that
/// is hashed.
pub proof fn changed_sum_shows_in_text(t: TransactionView, amount: int, fee: int)
    requires
        amount != t.amount || fee != t.fee,
    ensures
        transaction_text(TransactionView { amount, fee, ..t }) != transaction_text(t),
{
    let changed = TransactionView { amount, fee, ..t };
    let head = decimal(t.timestamp) + bar() + t.sender + bar() + t.receiver + bar();
    let was = decimal(t.amount) + bar() + decimal(t.fee);
    let now = decimal(amount) + bar() + decimal(fee);
    assert(transaction_text(t) =~= head + was);
    assert(transaction_text(changed) =~= head + now);
    if transaction_text(changed) == transaction_text(t) {
        lemma_rest_is_told(head, now, was);
        decimal_holds_no_other(amount, '|');
        decimal_holds_no_other(t.amount, '|');
        lemma_split_at_bar(decimal(amount), decimal(fee), decimal(t.amount), decimal(t.fee));
        decimal_is_injective(amount, t.amount);
        decimal_is_injective(fee, t.fee);
    }
}

/// Changing the amount or the fee of a valid transaction makes it invalid,
/// unless the changed text and the first text, which differ, have the same
/// SHA-256 digest.
pub proof fn changed_sum_is_invalid(t: TransactionView, amount: int, fee: int)
    requires
        transaction_valid(t),
        amount != t.amount || fee != t.fee,
    ensures
        (!transaction_valid(TransactionView { amount, fee, ..t }) || {
            &&& transaction_text(TransactionView { amount, fee, ..t }) != transaction_text(t)
            &&& sha256_hex(transaction_text(TransactionView { amount, fee, ..t })) == sha256_hex(
                transaction_text(t),
            )
        }),
{
    changed_sum_shows_in_text(t, amount, fee);
}

/// Whether the timestamps of `transactions` rise strictly from each
/// transaction to the next.
pub open spec fn timestamps_rise(transactions: Seq<TransactionView>) -> bool {
    forall|i: int|
        0 < i < transactions.len() ==> transactions[i - 1].timestamp < (
        #[trigger] transactions[i]).timestamp
}

/// Whether a block is valid by itself: its id is not negative, its `hash`
/// field is its canonical hash under its `nonce` field, the timestamps of its
/// transactions rise strictly, and each transaction is valid.
pub open spec fn block_valid(b: BlockView) -> bool {
    &&& b.id >= 0
    &&& b.hash == block_hash(b, b.nonce)
    &&& timestamps_rise(b.transactions)
    &&& forall|i: int|
        0 <= i < b.transactions.len() ==> transaction_valid(#[trigger] b.transactions[i])
}

impl Block {
    /// Check if the block is valid. The `hash` field of a valid block has
    /// the form of a digest.
    pub fn check_block_validity(&self) -> (valid: bool)
        ensures
            valid == block_valid(self@),
            valid ==> is_digest_text(self@.hash),
    {
        if self.id < 0 {
            return false;
        }
        let hash = self.compute_hash(self.nonce);
        if !(self.hash == hash) {
            return false;
        }
        let ghost views = self@.transactions;
        let mut i: usize = 0;
        while i < self.transactions.len()
            invariant
                i <= self.transactions.len(),
                views == self@.transactions,
                forall|k: int|
                    0 < k < i ==> views[k - 1].timestamp < (#[trigger] views[k]).timestamp,
                forall|k: int| 0 <= k < i ==> transaction_valid(#[trigger] views[k]),
            decreases self.transactions.len() - i,
        {
            let transaction = &self.transactions[i];
            assert(transaction@ == views[i as int]);
            if i > 0 {
                assert(self.transactions@[i - 1]@ == views[i - 1]);
                if self.transactions[i - 1].timestamp >= transaction.timestamp {
                    return false;
                }
            }
            if !transaction.check_transaction_validity() {
                return false;
            }
            i += 1;
        }
        true
    }
}

/// How many `'0'` characters `hash` begins with.
pub open spec fn leading_zeros(hash: Seq<char>) -> nat
    decreases hash.len(),
{
    if hash.len() > 0 && hash[0] == '0' {
        1 + leading_zeros(hash.drop_first())
    } else {
        0
    }
}

/// Whether `hash` qualifies under `difficulty`: it begins with at least that
/// many `'0'` characters.
pub open spec fn meets_difficulty(hash: Seq<char>, difficulty: int) -> bool {
    leading_zeros(hash) >= difficulty
}

/// A run of `n` zeros at the start of `hash` counts at least `n`, and exactly
/// `n` where the run ends there.
proof fn lemma_leading_zeros(hash: Seq<char>, n: int)
    requires
        0 <= n <= hash.len(),
        forall|k: int| 0 <= k < n ==> hash[k] == '0',
    ensures
        leading_zeros(hash) >= n,
        (n == hash.len() || hash[n] != '0') ==> leading_zeros(hash) == n,
    decreases n,
{
    if n > 0 {
        let rest = hash.drop_first();
        assert forall|k: int| 0 <= k < n - 1 implies rest[k] == '0' by {
            assert(rest[k] == hash[k + 1]);
        }
        if n < hash.len() {
            assert(rest[n - 1] == hash[n]);
        }
        lemma_leading_zeros(rest, n - 1);
    }
}

/// Check if the hash has the required number of leading zeros.
pub fn check_hash_validity(hash: &String, difficulty: i32) -> (ok: bool)
    ensures
        ok == meets_difficulty(hash@, difficulty as int),
{
    if difficulty <= 0 {
        return true;
    }
    let text = hash.as_str();
    let len: usize = text.unicode_len();
    let wanted: usize = difficulty as usize;
    let mut count: usize = 0;
    while count < len && count < wanted && text.get_char(count) == '0'
        invariant
            len == text@.len(),
            count <= len,
            count <= wanted,
            forall|k: int| 0 <= k < count ==> text@[k] == '0',
        decreases len - count,
    {
        count += 1;
    }
    proof {
        lemma_leading_zeros(text@, count as int);
    }
    count >= wanted
}

/// What a node holds of the ledger: the chain, the pool of transactions that
/// wait for a block, and the difficulty it mines under.
#[derive(Debug, PartialEq, Eq)]
pub struct Blockchain {
    pub transactions: Vec<Transaction>,
    pub chain: Vec<Block>,
    pub difficulty: i32,
}

/// The ledger state as a mathematical value.
pub struct BlockchainView {
    pub transactions: Seq<TransactionView>,
    pub chain: Seq<BlockView>,
    pub difficulty: int,
}

impl View for Blockchain {
    type V = BlockchainView;

    open spec fn view(&self) -> BlockchainView {
        BlockchainView {
            transactions: transaction_views(self.transactions@),
            chain: block_views(self.chain@),
            difficulty: self.difficulty as int,
        }
    }
}

/// The difficulty that a new ledger mines under.
pub const DEFAULT_DIFFICULTY: i32 = 4;

/// The hash of the last block of `chain`; empty for an empty chain.
pub open spec fn tail_hash(chain: Seq<BlockView>) -> Seq<char> {
    if chain.len() == 0 {
        Seq::empty()
    } else {
        chain.last().hash
    }
}

/// Whether `timestamp` is later than that of the last block of `chain`;
/// any timestamp will do after an empty chain.
pub open spec fn later_than_tail(chain: Seq<BlockView>, timestamp: int) -> bool {
    chain.len() > 0 ==> chain.last().timestamp < timestamp
}

/// Whether the block at `i` sits rightly in `chain`: its id is `i`, its
/// `prev_hash` is the hash of the block before it (empty for the first), its
/// timestamp exceeds that of the block before it (the first block's may be
/// any), and it is valid by itself.
pub open spec fn link_valid(chain: Seq<BlockView>, i: int) -> bool {
    &&& chain[i].id == i
    &&& chain[i].prev_hash == tail_hash(chain.take(i))
    &&& later_than_tail(chain.take(i), chain[i].timestamp)
    &&& block_valid(chain[i])
}

/// Whether every block of `chain` bears its place as its id.
pub open spec fn ids_in_place(chain: Seq<BlockView>) -> bool {
    forall|i: int| 0 <= i < chain.len() ==> (#[trigger] chain[i]).id == i
}

/// Whether a chain is valid: every block sits rightly in it.
pub open spec fn chain_valid(chain: Seq<BlockView>) -> bool {
    forall|i: int| 0 <= i < chain.len() ==> #[trigger] link_valid(chain, i)
}

impl Blockchain {
    /// An empty ledger: no block, no pending transaction, default difficulty.
    pub fn new() -> (ledger: Blockchain)
        ensures
            ledger@.chain == Seq::<BlockView>::empty(),
            ledger@.transactions == Seq::<TransactionView>::empty(),
            ledger@.difficulty == DEFAULT_DIFFICULTY,
    {
        let ledger = Blockchain {
            transactions: Vec::new(),
            chain: Vec::new(),
            difficulty: DEFAULT_DIFFICULTY,
        };
        assert(ledger@.chain =~= Seq::<BlockView>::empty());
        assert(ledger@.transactions =~= Seq::<TransactionView>::empty());
        ledger
    }

    /// Check if the chain is valid.
    pub fn check_blockchain_validity(&self) -> (valid: bool)
        ensures
            valid == chain_valid(self@.chain),
    {
        let ghost views = self@.chain;
        let mut i: usize = 0;
        while i < self.chain.len()
            invariant
                i <= self.chain.len(),
                views == self@.chain,
                forall|k: int| 0 <= k < i ==> #[trigger] link_valid(views, k),
            decreases self.chain.len() - i,
        {
            let block = &self.chain[i];
            assert(block@ == views[i as int]);
            proof {
                if i > 0 {
                    assert(views.take(i as int).last() == views[i - 1]);
                    assert(self.chain@[i - 1]@ == views[i - 1]);
                }
            }
            if block.id < 0 || block.id as usize != i {
                assert(!link_valid(views, i as int));
                return false;
            }
            if i == 0 {
                if !block.prev_hash.as_str().is_empty() {
                    assert(!link_valid(views, i as int));
                    return false;
                }
            } else {
                let before = &self.chain[i - 1];
                if !(block.prev_hash == before.hash) {
                    assert(!link_valid(views, i as int));
                    return false;
                }
                if block.timestamp <= before.timestamp {
                    assert(!link_valid(views, i as int));
                    return false;
                }
            }
            if !block.check_block_validity() {
                assert(!link_valid(views, i as int));
                return false;
            }
            assert(link_valid(views, i as int)) by {
                if i == 0 {
                    assert(block.prev_hash@ =~= Seq::<char>::empty());
                }
            }
            i += 1;
        }
        true
    }
}

/// A chain with one more block is valid exactly when the chain is valid and
/// the block continues it: the next id, the tail's hash as `prev_hash`, a
/// later timestamp than the tail's, and validity by itself.
pub proof fn chain_valid_push(chain: Seq<BlockView>, block: BlockView)
    ensures
        (chain_valid(chain.push(block)) <==> {
            &&& chain_valid(chain)
            &&& block.id == chain.len()
            &&& block.prev_hash == tail_hash(chain)
            &&& later_than_tail(chain, block.timestamp)
            &&& block_valid(block)
        }),
{
    let longer = chain.push(block);
    let n = chain.len() as int;
    assert(longer.take(n) =~= chain);
    assert forall|i: int| 0 <= i < n implies link_valid(longer, i) == link_valid(chain, i) by {
        assert(longer.take(i) =~= chain.take(i));
    }
    if chain_valid(longer) {
        assert(link_valid(longer, n));
        assert forall|i: int| 0 <= i < n implies #[trigger] link_valid(chain, i) by {
            assert(link_valid(longer, i));
        }
    }
    if chain_valid(chain) && block.id == n && block.prev_hash == tail_hash(chain)
        && later_than_tail(chain, block.timestamp) && block_valid(block) {
        assert forall|i: int| 0 <= i < longer.len() implies #[trigger] link_valid(longer, i) by {
            if i < n {
                assert(link_valid(chain, i));
            }
        }
    }
}

/// Cutting a valid chain short leaves a valid chain.
pub proof fn chain_valid_take(chain: Seq<BlockView>, len: int)
    requires
        chain_valid(chain),
        0 <= len <= chain.len(),
    ensures
        chain_valid(chain.take(len)),
{
    let shorter = chain.take(len);
    assert forall|i: int| 0 <= i < shorter.len() implies #[trigger] link_valid(shorter, i) by {
        assert(link_valid(chain, i));
        assert(shorter.take(i) =~= chain.take(i));
    }
}

/// Cutting a chain short and appending a block whose `prev_hash` is not the
/// hash of the new tail gives a chain that is not valid.
pub proof fn mismatched_link_breaks_chain(chain: Seq<BlockView>, len: int, block: BlockView)
    requires
        0 <= len <= chain.len(),
        block.prev_hash != tail_hash(chain.take(len)),
    ensures
        !chain_valid(chain.take(len).push(block)),
{
    chain_valid_push(chain.take(len), block);
}

/// The block that an empty chain is taken to stand on: id -1 and an empty
/// hash, so that the first block gets id 0 and an empty `prev_hash`.
pub open spec fn ground(difficulty: int) -> BlockView {
    BlockView {
        id: -1,
        timestamp: 0,
        nonce: 0,
        prev_hash: Seq::empty(),
        hash: Seq::empty(),
        difficulty,
        transactions: Seq::empty(),
    }
}

/// The pool `pool` without the transactions that occur in `listed`.
pub open spec fn pool_without(pool: Seq<TransactionView>, listed: Seq<TransactionView>) -> Seq<
    TransactionView,
> {
    pool.filter(|t: TransactionView| !listed.contains(t))
}

/// A copy of `pool` without the transactions that occur in `listed`.
pub fn without_listed(pool: &Vec<Transaction>, listed: &Vec<Transaction>) -> (kept: Vec<
    Transaction,
>)
    ensures
        transaction_views(kept@) == pool_without(
            transaction_views(pool@),
            transaction_views(listed@),
        ),
{
    let ghost views = transaction_views(pool@);
    let ghost held = transaction_views(listed@);
    let ghost keep = |t: TransactionView| !held.contains(t);
    let mut kept: Vec<Transaction> = Vec::new();
    let mut i: usize = 0;
    proof {
        reveal(Seq::filter);
        assert(views.take(0).filter(keep) =~= Seq::<TransactionView>::empty());
        assert(transaction_views(kept@) =~= Seq::<TransactionView>::empty());
    }
    while i < pool.len()
        invariant
            i <= pool.len(),
            views == transaction_views(pool@),
            held == transaction_views(listed@),
            keep == (|t: TransactionView| !held.contains(t)),
            transaction_views(kept@) == views.take(i as int).filter(keep),
        decreases pool.len() - i,
    {
        let transaction = &pool[i];
        proof {
            assert(views.take(i + 1) =~= views.take(i as int).push(transaction@));
            views.take(i as int).lemma_filter_push(transaction@, keep);
        }
        if !contains_transaction(listed, transaction) {
            let ghost before = kept@;
            kept.push(transaction.clone());
            assert(transaction_views(kept@) =~= transaction_views(before).push(transaction@));
        }
        i += 1;
    }
    assert(views.take(i as int) =~= views);
    kept
}

/// The block that the next block of `chain` stands on: its last block, or
/// the ground block under `difficulty` where it has none.
pub open spec fn tip_of(chain: Seq<BlockView>, difficulty: int) -> BlockView {
    if chain.len() == 0 {
        ground(difficulty)
    } else {
        chain.last()
    }
}

impl Blockchain {
    /// A copy of the block that the next block stands on.
    pub fn last_block(&self) -> (tip: Block)
        ensures
            tip@ == tip_of(self@.chain, self@.difficulty),
    {
        if self.chain.len() == 0 {
            let tip = Block {
                id: -1,
                timestamp: 0,
                nonce: 0,
                prev_hash: String::new(),
                hash: String::new(),
                difficulty: self.difficulty,
                transactions: Vec::new(),
            };
            assert(tip@.transactions =~= Seq::<TransactionView>::empty());
            tip
        } else {
            assert(self@.chain.last() == self.chain@[self.chain.len() - 1]@);
            self.chain[self.chain.len() - 1].clone()
        }
    }

    /// Takes a block that this node has mined: the block joins the end of
    /// the chain, and the pool loses the transactions that the block holds.
    pub fn add_mined_block(&mut self, block: Block)
        ensures
            final(self)@.chain == old(self)@.chain.push(block@),
            final(self)@.transactions == pool_without(
                old(self)@.transactions,
                block@.transactions,
            ),
            final(self)@.difficulty == old(self)@.difficulty,
    {
        let pool = without_listed(&self.transactions, &block.transactions);
        let ghost before = self.chain@;
        self.transactions = pool;
        self.chain.push(block);
        assert(block_views(self.chain@) =~= block_views(before).push(block@));
    }
}

/// What is left of a pool are the transactions that the pool held and that
/// are not listed, in the order in which the pool held them.
pub proof fn pool_without_keeps_the_unlisted(
    pool: Seq<TransactionView>,
    listed: Seq<TransactionView>,
)
    ensures
        forall|t: TransactionView|
            #[trigger] pool_without(pool, listed).contains(t) <==> pool.contains(t)
                && !listed.contains(t),
        pool_without(pool, listed).len() <= pool.len(),
        pool.no_duplicates() ==> pool_without(pool, listed).no_duplicates(),
    decreases pool.len(),
{
    let keep = |t: TransactionView| !listed.contains(t);
    reveal(Seq::filter);
    if pool.len() > 0 {
        let shorter = pool.drop_last();
        pool_without_keeps_the_unlisted(shorter, listed);
        let kept = pool_without(shorter, listed);
        assert(pool_without(pool, listed) == if keep(pool.last()) {
            kept.push(pool.last())
        } else {
            kept
        });
        assert forall|t: TransactionView| #[trigger]
            pool_without(pool, listed).contains(t) <==> pool.contains(t) && !listed.contains(
                t,
            ) by {
            if pool.contains(t) {
                let at = choose|i: int| 0 <= i < pool.len() && pool[i] == t;
                if at < shorter.len() {
                    assert(shorter[at] == t);
                }
            }
            if shorter.contains(t) {
                let at = choose|i: int| 0 <= i < shorter.len() && shorter[i] == t;
                assert(pool[at] == t);
            }
            if kept.contains(t) && keep(pool.last()) {
                let at = choose|i: int| 0 <= i < kept.len() && kept[i] == t;
                assert(kept.push(pool.last())[at] == t);
            }
            if keep(pool.last()) {
                assert(kept.push(pool.last())[kept.len() as int] == pool.last());
            }
        }
        if pool.no_duplicates() {
            assert forall|i: int, j: int| 0 <= i < j < shorter.len() implies shorter[i]
                != shorter[j] by {
                assert(pool[i] != pool[j]);
            }
            if keep(pool.last()) {
                if kept.contains(pool.last()) {
                    let at = choose|i: int| 0 <= i < shorter.len() && shorter[i] == pool.last();
                    assert(pool[at] == pool[pool.len() - 1]);
                }
            }
        }
    }
}

} // verus!
