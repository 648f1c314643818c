//! The operations by which nodes keep their ledgers in step: taking a
//! peer's chain segment, taking transactions, joining, and signing a
//! transaction on a client's behalf.

use crate::crypto::{fits_pem_reader, rsa_sha256_signature, sign_rsa_sha256, MAX_PEM_LEN};
use crate::encoding::{decode_hex, encode_hex, hex_decoded, hex_encoded};
use crate::models::blockchain::{
    block_valid, chain_valid, chain_valid_take, ids_in_place, later_than_tail, link_valid,
    pool_without, tail_hash, transaction_hash, transaction_valid, without_listed, Blockchain,
    BlockchainView,
};
use crate::node::{
    block_views, clone_blocks, clone_nodes, clone_transactions, contains_transaction, node_views,
    transaction_views, Block, BlockView, JoinNetworkResponse, JoinNetworkResponseView, NodeInfo,
    NodeInfoView, Transaction, TransactionView, UpdateBlockchainResponse,
    UpdateTransactionResponse,
};
use vstd::prelude::*;

verus! {

/// Why a chain segment was refused outright.
#[derive(Clone, Copy, Debug, PartialEq, Eq)]
pub enum SyncError {
    /// The segment ends below the receiver's chain: a shorter chain never
    /// replaces a longer one.
    ShorterChain,
    /// A block's `prev_hash` is not the hash of the block before it.
    BrokenLink,
    /// A block's id is not the one after the id of the block before it.
    WrongId,
    /// A block of the segment is not valid.
    InvalidBlock,
}

impl SyncError {
    /// The words in which the refusal is reported to the sender.
    pub fn message(&self) -> (text: &'static str)
        ensures
            text@ == (match self {
                SyncError::ShorterChain => {
                    "Received blockchain is shorter than current blockchain"@
                },
                SyncError::BrokenLink => "Previous hash does not match in received blockchain"@,
                SyncError::WrongId => "Block id does not follow in received blockchain"@,
                SyncError::InvalidBlock => "Invalid block in received blockchain"@,
            }),
    {
        match self {
            SyncError::ShorterChain => "Received blockchain is shorter than current blockchain",
            SyncError::BrokenLink => "Previous hash does not match in received blockchain",
            SyncError::WrongId => "Block id does not follow in received blockchain",
            SyncError::InvalidBlock => "Invalid block in received blockchain",
        }
    }
}

/// The first fault of `segment` when it is to follow a block whose hash is
/// `prev_hash` and to begin with the id `id`: block after block, first the
/// link to the block before, then the id, which counts on from block to
/// block, then the block's own validity. `None` for a sound segment.
pub open spec fn segment_fault(prev_hash: Seq<char>, id: int, segment: Seq<BlockView>) -> Option<
    SyncError,
>
    decreases segment.len(),
{
    if segment.len() == 0 {
        None
    } else if segment[0].prev_hash != prev_hash {
        Some(SyncError::BrokenLink)
    } else if segment[0].id != id {
        Some(SyncError::WrongId)
    } else if !block_valid(segment[0]) {
        Some(SyncError::InvalidBlock)
    } else {
        segment_fault(segment[0].hash, id + 1, segment.drop_first())
    }
}

/// The answer that a node whose chain is `chain` gives to `segment`.
///
/// An empty segment, or one that starts beyond the end of the chain, is not
/// taken, and the answer tells the chain's length so that the sender can
/// start earlier. A segment that ends below the end of the chain is refused
/// as shorter. Otherwise the segment is to replace the chain from the id of
/// its first block on: it is refused at its first fault, and taken where it
/// has none; the answer then tells the new length, which is above the old.
pub open spec fn update_reply(chain: Seq<BlockView>, segment: Seq<BlockView>) -> Result<
    UpdateBlockchainResponse,
    SyncError,
> {
    if segment.len() == 0 || segment[0].id > chain.len() {
        Ok(UpdateBlockchainResponse { success: false, chain_length: chain.len() as usize })
    } else if segment.last().id < chain.len() {
        Err(SyncError::ShorterChain)
    } else if segment[0].id < 0 {
        Err(SyncError::InvalidBlock)
    } else {
        match segment_fault(tail_hash(chain.take(segment[0].id)), segment[0].id, segment) {
            Some(fault) => Err(fault),
            None => Ok(
                UpdateBlockchainResponse {
                    success: true,
                    chain_length: (segment[0].id + segment.len()) as usize,
                },
            ),
        }
    }
}

/// Whether a node whose chain is `chain` takes `segment`.
pub open spec fn update_accepted(chain: Seq<BlockView>, segment: Seq<BlockView>) -> bool {
    update_reply(chain, segment) matches Ok(reply) && reply.success
}

/// The transactions of the blocks of `segment`, block after block.
pub open spec fn segment_transactions(segment: Seq<BlockView>) -> Seq<TransactionView>
    decreases segment.len(),
{
    if segment.len() == 0 {
        Seq::empty()
    } else {
        segment_transactions(segment.drop_last()) + segment.last().transactions
    }
}

/// The ledger after a node has dealt with `segment`: where the segment is
/// taken, the chain is cut at the id of the segment's first block and goes on
/// with the segment, and the pool loses what the segment holds; where it is
/// not, nothing changes.
pub open spec fn ledger_after_update(
    ledger: BlockchainView,
    segment: Seq<BlockView>,
) -> BlockchainView {
    if update_accepted(ledger.chain, segment) {
        BlockchainView {
            chain: ledger.chain.take(segment[0].id) + segment,
            transactions: pool_without(ledger.transactions, segment_transactions(segment)),
            difficulty: ledger.difficulty,
        }
    } else {
        ledger
    }
}

/// Checks `blocks` one by one, to follow a block whose hash is `prev_hash`
/// and to begin with the id `first_id`.
fn find_segment_fault(prev_hash: &String, first_id: i32, blocks: &Vec<Block>) -> (fault: Option<
    SyncError,
>)
    ensures
        fault == segment_fault(prev_hash@, first_id as int, block_views(blocks@)),
{
    let ghost segment = block_views(blocks@);
    let ghost mut before = prev_hash@;
    let mut i: usize = 0;
    assert(segment.skip(0) =~= segment);
    while i < blocks.len()
        invariant
            i <= blocks.len(),
            segment == block_views(blocks@),
            before == (if i == 0 {
                prev_hash@
            } else {
                segment[i - 1].hash
            }),
            segment_fault(prev_hash@, first_id as int, segment) == segment_fault(
                before,
                first_id + i,
                segment.skip(i as int),
            ),
        decreases blocks.len() - i,
    {
        let block = &blocks[i];
        proof {
            assert(segment.skip(i as int).len() > 0);
            assert(segment.skip(i as int)[0] == block@);
            assert(segment.skip(i as int).drop_first() =~= segment.skip(i + 1));
            if i > 0 {
                assert(segment[i - 1] == blocks@[i - 1]@);
            }
        }
        let linked = if i == 0 {
            block.prev_hash == *prev_hash
        } else {
            block.prev_hash == blocks[i - 1].hash
        };
        if !linked {
            return Some(SyncError::BrokenLink);
        }
        let ahead: i64 = block.id as i64 - first_id as i64;
        if ahead < 0 || ahead as usize != i {
            return Some(SyncError::WrongId);
        }
        if !block.check_block_validity() {
            return Some(SyncError::InvalidBlock);
        }
        proof {
            before = block@.hash;
        }
        i += 1;
    }
    assert(segment.skip(i as int).len() == 0);
    None
}

/// Copies of the transactions of `blocks`, block after block.
fn collect_transactions(blocks: &Vec<Block>) -> (held: Vec<Transaction>)
    ensures
        transaction_views(held@) == segment_transactions(block_views(blocks@)),
{
    let ghost segment = block_views(blocks@);
    let mut held: Vec<Transaction> = Vec::new();
    let mut i: usize = 0;
    assert(segment.take(0).len() == 0);
    assert(transaction_views(held@) =~= Seq::<TransactionView>::empty());
    while i < blocks.len()
        invariant
            i <= blocks.len(),
            segment == block_views(blocks@),
            transaction_views(held@) == segment_transactions(segment.take(i as int)),
        decreases blocks.len() - i,
    {
        let ghost before = held@;
        let mut more = clone_transactions(&blocks[i].transactions);
        let ghost added = more@;
        held.append(&mut more);
        proof {
            assert(segment.take(i + 1).drop_last() =~= segment.take(i as int));
            assert(segment.take(i + 1).last() == blocks@[i as int]@);
            assert(transaction_views(before + added) =~= transaction_views(before)
                + transaction_views(added));
        }
        i += 1;
    }
    assert(segment.take(i as int) =~= segment);
    held
}

impl Blockchain {
    /// Reconciles the chain with a segment that a peer sent.
    ///
    /// The answer is that of `update_reply`. Only a segment that is taken
    /// changes the ledger: the chain is cut at the id of the segment's first
    /// block and goes on with the segment, and the pool loses every
    /// transaction that the segment holds. The caller then tells the miner
    /// to give up its search; the answer stands whether or not the miner
    /// could be told.
    pub fn update_blockchain(&mut self, blocks: Vec<Block>) -> (reply: Result<
        UpdateBlockchainResponse,
        SyncError,
    >)
        ensures
            reply == update_reply(old(self)@.chain, block_views(blocks@)),
            final(self)@ == ledger_after_update(old(self)@, block_views(blocks@)),
    {
        let ghost chain = self@.chain;
        let ghost segment = block_views(blocks@);
        let len: usize = self.chain.len();
        if blocks.len() == 0 {
            return Ok(UpdateBlockchainResponse { success: false, chain_length: len });
        }
        let first_id: i32 = blocks[0].id;
        let last_id: i32 = blocks[blocks.len() - 1].id;
        assert(segment[0] == blocks@[0]@);
        assert(segment.last() == blocks@[blocks.len() - 1]@);
        if first_id > 0 && first_id as usize > len {
            return Ok(UpdateBlockchainResponse { success: false, chain_length: len });
        }
        if last_id < 0 || (last_id as usize) < len {
            return Err(SyncError::ShorterChain);
        }
        if first_id < 0 {
            return Err(SyncError::InvalidBlock);
        }
        let cut: usize = first_id as usize;
        let fault = if cut == 0 {
            let empty = String::new();
            assert(chain.take(0).len() == 0);
            find_segment_fault(&empty, first_id, &blocks)
        } else {
            assert(chain.take(cut as int).last() == self.chain@[cut - 1]@);
            find_segment_fault(&self.chain[cut - 1].hash, first_id, &blocks)
        };
        match fault {
            Some(fault) => {
                return Err(fault);
            },
            None => {},
        }
        let held = collect_transactions(&blocks);
        let pool = without_listed(&self.transactions, &held);
        let mut blocks = blocks;
        self.transactions = pool;
        self.chain.truncate(cut);
        self.chain.append(&mut blocks);
        proof {
            assert(self@.chain =~= chain.take(cut as int) + segment);
        }
        Ok(UpdateBlockchainResponse { success: true, chain_length: self.chain.len() })
    }
}

/// Whether the ids of `segment` count on from `id`, one by one.
pub open spec fn ids_count_from(id: int, segment: Seq<BlockView>) -> bool {
    forall|i: int| 0 <= i < segment.len() ==> (#[trigger] segment[i]).id == id + i
}

/// Whether `segment` is linked from `prev_hash` on: its first block names
/// `prev_hash`, and every later block the hash of the block before it.
pub open spec fn linked_from(prev_hash: Seq<char>, segment: Seq<BlockView>) -> bool {
    forall|i: int|
        0 <= i < segment.len() ==> (#[trigger] segment[i]).prev_hash == (if i == 0 {
            prev_hash
        } else {
            segment[i - 1].hash
        })
}

/// Whether every block of `segment` is valid by itself.
pub open spec fn all_valid(segment: Seq<BlockView>) -> bool {
    forall|i: int| 0 <= i < segment.len() ==> block_valid(#[trigger] segment[i])
}

/// A segment has no fault exactly when it is linked, its ids count on, and
/// all its blocks are valid.
proof fn lemma_sound_segment(prev_hash: Seq<char>, id: int, segment: Seq<BlockView>)
    ensures
        segment_fault(prev_hash, id, segment) is None <==> linked_from(prev_hash, segment)
            && ids_count_from(id, segment) && all_valid(segment),
    decreases segment.len(),
{
    if segment.len() > 0 {
        let rest = segment.drop_first();
        lemma_sound_segment(segment[0].hash, id + 1, rest);
        if linked_from(prev_hash, segment) && ids_count_from(id, segment) && all_valid(segment) {
            assert(block_valid(segment[0]));
            assert(segment[0].prev_hash == prev_hash);
            assert(segment[0].id == id);
            assert forall|i: int| 0 <= i < rest.len() implies block_valid(#[trigger] rest[i]) by {
                assert(rest[i] == segment[i + 1]);
            }
            assert forall|i: int| 0 <= i < rest.len() implies (#[trigger] rest[i]).id == id + 1
                + i by {
                assert(rest[i] == segment[i + 1]);
            }
            assert forall|i: int| 0 <= i < rest.len() implies (#[trigger] rest[i]).prev_hash
                == (if i == 0 {
                segment[0].hash
            } else {
                rest[i - 1].hash
            }) by {
                assert(rest[i] == segment[i + 1]);
                if i > 0 {
                    assert(rest[i - 1] == segment[i]);
                }
            }
        }
        if segment_fault(prev_hash, id, segment) is None {
            assert forall|i: int| 0 <= i < segment.len() implies block_valid(
                #[trigger] segment[i],
            ) by {
                if i > 0 {
                    assert(rest[i - 1] == segment[i]);
                }
            }
            assert forall|i: int| 0 <= i < segment.len() implies (#[trigger] segment[i]).id == id
                + i by {
                if i > 0 {
                    assert(rest[i - 1] == segment[i]);
                }
            }
            assert forall|i: int| 0 <= i < segment.len() implies (#[trigger] segment[i]).prev_hash
                == (if i == 0 {
                prev_hash
            } else {
                segment[i - 1].hash
            }) by {
                if i > 0 {
                    assert(rest[i - 1] == segment[i]);
                    if i > 1 {
                        assert(rest[i - 2] == segment[i - 1]);
                    }
                }
            }
        }
    }
}

/// A segment is taken exactly when it is not empty, starts within the chain
/// or at its end, ends at or beyond the chain's end, is linked from the
/// chain's block before the cut on, bears ids that count on from the cut,
/// and holds valid blocks only.
pub proof fn taken_exactly_when_sound(chain: Seq<BlockView>, segment: Seq<BlockView>)
    ensures
        (update_accepted(chain, segment) <==> {
            &&& segment.len() > 0
            &&& 0 <= segment[0].id <= chain.len()
            &&& segment.last().id >= chain.len()
            &&& linked_from(tail_hash(chain.take(segment[0].id)), segment)
            &&& ids_count_from(segment[0].id, segment)
            &&& all_valid(segment)
        }),
{
    if segment.len() > 0 {
        lemma_sound_segment(tail_hash(chain.take(segment[0].id)), segment[0].id, segment);
    }
}

/// A segment whose last block has an id below the length of the receiver's
/// chain is never taken, and the ledger stays as it was.
pub proof fn shorter_segment_is_refused(ledger: BlockchainView, segment: Seq<BlockView>)
    requires
        segment.len() > 0,
        segment.last().id < ledger.chain.len(),
    ensures
        !update_accepted(ledger.chain, segment),
        ledger_after_update(ledger, segment) == ledger,
{
}

/// A segment with a block that is not valid is never taken, and the ledger
/// stays as it was; unless the segment starts beyond the end of the chain,
/// the answer is an error.
pub proof fn invalid_block_is_refused(ledger: BlockchainView, segment: Seq<BlockView>, i: int)
    requires
        0 <= i < segment.len(),
        !block_valid(segment[i]),
    ensures
        !update_accepted(ledger.chain, segment),
        ledger_after_update(ledger, segment) == ledger,
        segment[0].id <= ledger.chain.len() ==> update_reply(ledger.chain, segment) is Err,
{
    taken_exactly_when_sound(ledger.chain, segment);
    lemma_sound_segment(tail_hash(ledger.chain.take(segment[0].id)), segment[0].id, segment);
}

/// A segment whose ids do not count on from the id of its first block is
/// never taken, and the ledger stays as it was.
pub proof fn miscounted_segment_is_refused(ledger: BlockchainView, segment: Seq<BlockView>, i: int)
    requires
        0 <= i < segment.len(),
        segment[i].id != segment[0].id + i,
    ensures
        !update_accepted(ledger.chain, segment),
        ledger_after_update(ledger, segment) == ledger,
{
    taken_exactly_when_sound(ledger.chain, segment);
}

/// A sound segment behind the blocks it follows: each of its blocks is
/// valid, bears its place as its id, and names the hash of the block
/// before it.
proof fn lemma_spliced_segment(kept: Seq<BlockView>, segment: Seq<BlockView>)
    requires
        linked_from(tail_hash(kept), segment),
        ids_count_from(kept.len() as int, segment),
        all_valid(segment),
    ensures
        forall|i: int|
            kept.len() <= i < kept.len() + segment.len() ==> block_valid(
                #[trigger] (kept + segment)[i],
            ),
        forall|i: int|
            kept.len() <= i < kept.len() + segment.len() ==> (#[trigger] (kept + segment)[i]).id
                == i,
        forall|i: int|
            kept.len() <= i < kept.len() + segment.len() ==> (#[trigger] (kept
                + segment)[i]).prev_hash == tail_hash((kept + segment).take(i)),
{
    let chain = kept + segment;
    let cut = kept.len() as int;
    assert forall|i: int| cut <= i < cut + segment.len() implies block_valid(
        #[trigger] chain[i],
    ) by {
        assert(chain[i] == segment[i - cut]);
    }
    assert forall|i: int| cut <= i < cut + segment.len() implies (#[trigger] chain[i]).id
        == i by {
        assert(chain[i] == segment[i - cut]);
    }
    assert forall|i: int| cut <= i < cut + segment.len() implies (#[trigger] chain[i]).prev_hash
        == tail_hash(chain.take(i)) by {
        assert(chain[i] == segment[i - cut]);
        if i > cut {
            assert(chain.take(i).last() == chain[i - 1]);
            assert(chain[i - 1] == segment[i - cut - 1]);
        } else {
            assert(chain.take(i) =~= kept);
        }
    }
}

/// Where a segment is taken, the chain is what it was up to the cut,
/// followed by the segment, and is longer than it was: its length, where a
/// machine can hold it, is the one that the answer tells. Every block from
/// the cut on is valid, bears
/// its place as its id, and names the hash of the block before it.
pub proof fn taken_segment_is_sound(ledger: BlockchainView, segment: Seq<BlockView>)
    requires
        update_accepted(ledger.chain, segment),
    ensures
        ({
            let chain = ledger_after_update(ledger, segment).chain;
            let cut = segment[0].id;
            &&& 0 <= cut <= ledger.chain.len()
            &&& chain == ledger.chain.take(cut) + segment
            &&& chain.take(cut) == ledger.chain.take(cut)
            &&& chain.len() > ledger.chain.len()
            &&& chain.len() <= usize::MAX ==> update_reply(ledger.chain, segment) == Ok::<
                UpdateBlockchainResponse,
                SyncError,
            >(UpdateBlockchainResponse { success: true, chain_length: chain.len() as usize })
            &&& forall|i: int| cut <= i < chain.len() ==> block_valid(#[trigger] chain[i])
            &&& forall|i: int| cut <= i < chain.len() ==> (#[trigger] chain[i]).id == i
            &&& forall|i: int|
                cut <= i < chain.len() ==> (#[trigger] chain[i]).prev_hash == tail_hash(
                    chain.take(i),
                )
        }),
{
    let cut = segment[0].id;
    let kept = ledger.chain.take(cut);
    taken_exactly_when_sound(ledger.chain, segment);
    assert(kept.len() == cut);
    lemma_spliced_segment(kept, segment);
    assert(ledger_after_update(ledger, segment).chain == kept + segment);
    assert((kept + segment).take(cut) =~= kept);
    assert(segment.last() == segment[segment.len() - 1]);
    assert(segment.last().id == cut + segment.len() - 1);
}

/// Whatever segment a node deals with, its chain never gets shorter, and a
/// chain whose blocks bear their places as ids stays such a chain.
pub proof fn update_keeps_length_and_ids(ledger: BlockchainView, segment: Seq<BlockView>)
    ensures
        ledger_after_update(ledger, segment).chain.len() >= ledger.chain.len(),
        ids_in_place(ledger.chain) ==> ids_in_place(ledger_after_update(ledger, segment).chain),
{
    if update_accepted(ledger.chain, segment) {
        taken_segment_is_sound(ledger, segment);
        let chain = ledger_after_update(ledger, segment).chain;
        let cut = segment[0].id;
        if ids_in_place(ledger.chain) {
            assert forall|i: int| 0 <= i < chain.len() implies (#[trigger] chain[i]).id == i by {
                if i < cut {
                    assert(chain[i] == ledger.chain[i]);
                }
            }
        }
    }
}

/// Where a segment is taken by a valid chain, and its timestamps rise from
/// the block before the cut on, the chain is valid afterwards.
pub proof fn taken_segment_keeps_chain_valid(ledger: BlockchainView, segment: Seq<BlockView>)
    requires
        chain_valid(ledger.chain),
        update_accepted(ledger.chain, segment),
        later_than_tail(ledger.chain.take(segment[0].id), segment[0].timestamp),
        forall|i: int|
            0 < i < segment.len() ==> segment[i - 1].timestamp < (#[trigger] segment[i]).timestamp,
    ensures
        chain_valid(ledger_after_update(ledger, segment).chain),
{
    let cut = segment[0].id;
    let kept = ledger.chain.take(cut);
    let chain = kept + segment;
    taken_segment_is_sound(ledger, segment);
    chain_valid_take(ledger.chain, cut);
    assert forall|i: int| 0 <= i < chain.len() implies #[trigger] link_valid(chain, i) by {
        if i < cut {
            assert(link_valid(kept, i));
            assert(chain.take(i) =~= kept.take(i));
            assert(chain[i] == kept[i]);
        } else {
            assert(chain[i] == segment[i - cut]);
            if i > cut {
                assert(chain.take(i).last() == chain[i - 1]);
                assert(chain[i - 1] == segment[i - cut - 1]);
            } else {
                assert(chain.take(i) =~= kept);
            }
        }
    }
}

/// The pool after `t` was handed in: `t` joins the end unless the pool holds
/// it already or it is not valid.
pub open spec fn pool_with(pool: Seq<TransactionView>, t: TransactionView) -> Seq<TransactionView> {
    if pool.contains(t) || !transaction_valid(t) {
        pool
    } else {
        pool.push(t)
    }
}

/// The pool after `transactions` were handed in, one after the other.
pub open spec fn pool_with_all(
    pool: Seq<TransactionView>,
    transactions: Seq<TransactionView>,
) -> Seq<TransactionView>
    decreases transactions.len(),
{
    if transactions.len() == 0 {
        pool
    } else {
        pool_with(pool_with_all(pool, transactions.drop_last()), transactions.last())
    }
}

impl Blockchain {
    /// Takes transactions that a peer handed on: each one that the pool does
    /// not hold yet and that is valid joins the pool, in the order given;
    /// the others are dropped without a word. The answer is always a success.
    pub fn update_transaction(&mut self, transactions: Vec<Transaction>) -> (reply:
        UpdateTransactionResponse)
        ensures
            reply.success,
            final(self)@.transactions == pool_with_all(
                old(self)@.transactions,
                transaction_views(transactions@),
            ),
            final(self)@.chain == old(self)@.chain,
            final(self)@.difficulty == old(self)@.difficulty,
    {
        let ghost pool = self@.transactions;
        let ghost handed = transaction_views(transactions@);
        let mut i: usize = 0;
        assert(handed.take(0).len() == 0);
        while i < transactions.len()
            invariant
                i <= transactions.len(),
                handed == transaction_views(transactions@),
                self@.transactions == pool_with_all(pool, handed.take(i as int)),
                self@.chain == old(self)@.chain,
                self@.difficulty == old(self)@.difficulty,
            decreases transactions.len() - i,
        {
            let transaction = &transactions[i];
            proof {
                assert(handed.take(i + 1).drop_last() =~= handed.take(i as int));
                assert(handed.take(i + 1).last() == transaction@);
            }
            if !contains_transaction(&self.transactions, transaction)
                && transaction.check_transaction_validity() {
                let ghost before = self.transactions@;
                self.transactions.push(transaction.clone());
                assert(transaction_views(self.transactions@) =~= transaction_views(before).push(
                    transaction@,
                ));
            }
            i += 1;
        }
        assert(handed.take(i as int) =~= handed);
        UpdateTransactionResponse { success: true }
    }
}

/// The peers of `peers` whose port is neither `first` nor `second`, in
/// roster order.
pub open spec fn peers_beside(peers: Seq<NodeInfoView>, first: int, second: int) -> Seq<
    NodeInfoView,
> {
    peers.filter(|n: NodeInfoView| n.port != first && n.port != second)
}

/// Copies of the peers whose port is neither `first` nor `second`: those to
/// whom a node passes on what it has learnt, itself and the peer it learnt
/// it from left out.
pub fn other_peers(peers: &Vec<NodeInfo>, first: u32, second: u32) -> (others: Vec<NodeInfo>)
    ensures
        node_views(others@) == peers_beside(node_views(peers@), first as int, second as int),
{
    let ghost views = node_views(peers@);
    let ghost keep = |n: NodeInfoView| n.port != first as int && n.port != second as int;
    let mut others: Vec<NodeInfo> = Vec::new();
    let mut i: usize = 0;
    proof {
        reveal(Seq::filter);
        assert(views.take(0).filter(keep) =~= Seq::<NodeInfoView>::empty());
        assert(node_views(others@) =~= Seq::<NodeInfoView>::empty());
    }
    while i < peers.len()
        invariant
            i <= peers.len(),
            views == node_views(peers@),
            keep == (|n: NodeInfoView| n.port != first as int && n.port != second as int),
            node_views(others@) == views.take(i as int).filter(keep),
        decreases peers.len() - i,
    {
        let peer = &peers[i];
        proof {
            assert(views.take(i + 1) =~= views.take(i as int).push(peer@));
            views.take(i as int).lemma_filter_push(peer@, keep);
        }
        if peer.port != first && peer.port != second {
            let ghost before = others@;
            others.push(peer.clone());
            assert(node_views(others@) =~= node_views(before).push(peer@));
        }
        i += 1;
    }
    assert(views.take(i as int) =~= views);
    others
}

/// Takes transactions that a client handed in: the pool takes them as it
/// takes those of a peer, and the result names, beside the answer, the
/// peers to whom the same transactions are to be passed on: every peer of
/// the roster but the node itself, told by its port `port`.
pub fn update_client_transaction(
    ledger: &mut Blockchain,
    peers: &Vec<NodeInfo>,
    port: u32,
    transactions: Vec<Transaction>,
) -> (outcome: (UpdateTransactionResponse, Vec<NodeInfo>))
    ensures
        outcome.0.success,
        final(ledger)@.transactions == pool_with_all(
            old(ledger)@.transactions,
            transaction_views(transactions@),
        ),
        final(ledger)@.chain == old(ledger)@.chain,
        final(ledger)@.difficulty == old(ledger)@.difficulty,
        node_views(outcome.1@) == peers_beside(node_views(peers@), port as int, port as int),
{
    let reply = ledger.update_transaction(transactions);
    (reply, other_peers(peers, port, port))
}

/// Every valid transaction that was handed in is in the pool afterwards.
proof fn lemma_valid_is_held(
    pool: Seq<TransactionView>,
    transactions: Seq<TransactionView>,
    j: int,
)
    requires
        0 <= j < transactions.len(),
        transaction_valid(transactions[j]),
    ensures
        pool_with_all(pool, transactions).contains(transactions[j]),
    decreases transactions.len(),
{
    let before = pool_with_all(pool, transactions.drop_last());
    let after = pool_with(before, transactions.last());
    if j == transactions.len() - 1 {
        if !before.contains(transactions[j]) {
            assert(after[before.len() as int] == transactions[j]);
        }
    } else {
        lemma_valid_is_held(pool, transactions.drop_last(), j);
        let at = choose|i: int| 0 <= i < before.len() && before[i] == transactions[j];
        assert(after[at] == transactions[j]);
    }
}

/// Transactions of which each is held already or not valid leave the pool
/// as it is.
proof fn lemma_nothing_joins(pool: Seq<TransactionView>, transactions: Seq<TransactionView>)
    requires
        forall|j: int|
            0 <= j < transactions.len() ==> pool.contains(#[trigger] transactions[j])
                || !transaction_valid(transactions[j]),
    ensures
        pool_with_all(pool, transactions) == pool,
    decreases transactions.len(),
{
    if transactions.len() > 0 {
        let shorter = transactions.drop_last();
        assert forall|j: int| 0 <= j < shorter.len() implies pool.contains(#[trigger] shorter[j])
            || !transaction_valid(shorter[j]) by {
            assert(shorter[j] == transactions[j]);
        }
        lemma_nothing_joins(pool, shorter);
        assert(transactions.last() == transactions[transactions.len() - 1]);
    }
}

/// Handing the same transactions in a second time leaves the pool as the
/// first time left it.
pub proof fn handing_in_twice_changes_nothing(
    pool: Seq<TransactionView>,
    transactions: Seq<TransactionView>,
)
    ensures
        pool_with_all(pool_with_all(pool, transactions), transactions) == pool_with_all(
            pool,
            transactions,
        ),
{
    let once = pool_with_all(pool, transactions);
    assert forall|j: int| 0 <= j < transactions.len() implies once.contains(
        #[trigger] transactions[j],
    ) || !transaction_valid(transactions[j]) by {
        if transaction_valid(transactions[j]) {
            lemma_valid_is_held(pool, transactions, j);
        }
    }
    lemma_nothing_joins(once, transactions);
}

/// Handing transactions in keeps all that the pool held, in place, and adds
/// only transactions that were handed in and are valid.
pub proof fn only_valid_transactions_join(
    pool: Seq<TransactionView>,
    transactions: Seq<TransactionView>,
)
    ensures
        pool_with_all(pool, transactions).len() >= pool.len(),
        pool_with_all(pool, transactions).take(pool.len() as int) == pool,
        forall|i: int|
            pool.len() <= i < pool_with_all(pool, transactions).len() ==> transactions.contains(
                #[trigger] pool_with_all(pool, transactions)[i],
            ) && transaction_valid(pool_with_all(pool, transactions)[i]),
    decreases transactions.len(),
{
    let after = pool_with_all(pool, transactions);
    if transactions.len() == 0 {
        assert(after.take(pool.len() as int) =~= pool);
    } else {
        let shorter = transactions.drop_last();
        let before = pool_with_all(pool, shorter);
        only_valid_transactions_join(pool, shorter);
        assert(after.take(pool.len() as int) =~= before.take(pool.len() as int));
        assert forall|i: int| pool.len() <= i < after.len() implies transactions.contains(
            #[trigger] after[i],
        ) && transaction_valid(after[i]) by {
            if i < before.len() {
                let t = before[i];
                let at = choose|k: int| 0 <= k < shorter.len() && shorter[k] == t;
                assert(transactions[at] == t);
            } else {
                assert(after[i] == transactions[transactions.len() - 1]);
            }
        }
    }
}

/// A pool that holds no transaction twice holds none twice after
/// transactions were handed in.
pub proof fn pool_stays_free_of_duplicates(
    pool: Seq<TransactionView>,
    transactions: Seq<TransactionView>,
)
    requires
        pool.no_duplicates(),
    ensures
        pool_with_all(pool, transactions).no_duplicates(),
    decreases transactions.len(),
{
    if transactions.len() > 0 {
        pool_stays_free_of_duplicates(pool, transactions.drop_last());
    }
}

/// Takes a node into the roster and answers it with the roster, the new
/// node at its end, and with the chain and the pool as they stand.
pub fn join_network(peers: &mut Vec<NodeInfo>, ledger: &Blockchain, node: NodeInfo) -> (reply:
    JoinNetworkResponse)
    ensures
        node_views(final(peers)@) == node_views(old(peers)@).push(node@),
        reply@ == (JoinNetworkResponseView {
            nodes: node_views(old(peers)@).push(node@),
            chain: ledger@.chain,
            transactions: ledger@.transactions,
        }),
{
    let ghost before = peers@;
    peers.push(node);
    assert(node_views(peers@) =~= node_views(before).push(node@));
    JoinNetworkResponse {
        nodes: clone_nodes(peers),
        chain: clone_blocks(&ledger.chain),
        transactions: clone_transactions(&ledger.transactions),
    }
}

/// A copy of the roster.
pub fn get_peer_list(peers: &Vec<NodeInfo>) -> (nodes: Vec<NodeInfo>)
    ensures
        node_views(nodes@) == node_views(peers@),
{
    clone_nodes(peers)
}

impl Blockchain {
    /// A copy of the chain.
    pub fn get_blockchain(&self) -> (chain: Vec<Block>)
        ensures
            block_views(chain@) == self@.chain,
    {
        clone_blocks(&self.chain)
    }

    /// A copy of the pool.
    pub fn get_transaction_list(&self) -> (transactions: Vec<Transaction>)
        ensures
            transaction_views(transactions@) == self@.transactions,
    {
        clone_transactions(&self.transactions)
    }
}

/// Why a transaction could not be signed.
#[derive(Clone, Copy, Debug, PartialEq, Eq)]
pub enum SigningError {
    /// The private key is not a hex string.
    KeyNotHex,
    /// The private key cannot be read, or does not sign.
    KeyUnusable,
}

/// The transaction with the given fields, hashed and then signed under the
/// hex-encoded private key `private_key`: its hash is the canonical hash
/// and its signature the hex string of the signature of that hash.
pub open spec fn signed_transaction(
    id: Seq<char>,
    sender: Seq<char>,
    private_key: Seq<char>,
    receiver: Seq<char>,
    amount: int,
    fee: int,
    timestamp: int,
) -> Result<TransactionView, SigningError> {
    let draft = TransactionView {
        id,
        sender,
        receiver,
        amount,
        fee,
        timestamp,
        hash: Seq::empty(),
        signature: Seq::empty(),
    };
    let hash = transaction_hash(draft);
    match hex_decoded(private_key) {
        None => Err(SigningError::KeyNotHex),
        Some(key) => if !fits_pem_reader(key) {
            Err(SigningError::KeyUnusable)
        } else {
            match rsa_sha256_signature(key, hash) {
                None => Err(SigningError::KeyUnusable),
                Some(signature) => Ok(
                    TransactionView { hash, signature: hex_encoded(signature), ..draft },
                ),
            }
        },
    }
}

/// Builds a transaction with the given fields and the time `timestamp`,
/// computes its canonical hash and signs it with the private key. The
/// transaction joins no pool.
pub fn generate_transaction(
    id: String,
    sender: String,
    private_key: &str,
    receiver: String,
    amount: i32,
    fee: i32,
    timestamp: u32,
) -> (made: Result<Transaction, SigningError>)
    ensures
        (match made {
            Ok(t) => signed_transaction(
                id@,
                sender@,
                private_key@,
                receiver@,
                amount as int,
                fee as int,
                timestamp as int,
            ) == Ok::<TransactionView, SigningError>(t@),
            Err(e) => signed_transaction(
                id@,
                sender@,
                private_key@,
                receiver@,
                amount as int,
                fee as int,
                timestamp as int,
            ) == Err::<TransactionView, SigningError>(e),
        }),
{
    let mut transaction = Transaction {
        id,
        sender,
        receiver,
        amount,
        fee,
        timestamp,
        hash: String::new(),
        signature: String::new(),
    };
    assert(transaction@.hash =~= Seq::<char>::empty());
    assert(transaction@.signature =~= Seq::<char>::empty());
    let hash = transaction.compute_hash();
    let key = match decode_hex(private_key) {
        Ok(bytes) => bytes,
        Err(_) => {
            return Err(SigningError::KeyNotHex);
        },
    };
    if key.len() > MAX_PEM_LEN {
        return Err(SigningError::KeyUnusable);
    }
    let signature = match sign_rsa_sha256(key.as_slice(), hash.as_str()) {
        Ok(bytes) => bytes,
        Err(_) => {
            return Err(SigningError::KeyUnusable);
        },
    };
    transaction.hash = hash;
    transaction.signature = encode_hex(signature.as_slice());
    Ok(transaction)
}

} // verus!
