//! The sender's side of chain reconciliation: which part of its chain a
//! node sends to a peer, and how it goes on after the peer's answer.

use crate::models::blockchain::{
    block_valid, chain_valid, link_valid, tail_hash, Blockchain, BlockchainView,
};
use crate::models::network::{
    ledger_after_update, segment_fault, update_accepted, update_reply, SyncError,
};
use crate::node::{block_views, Block, BlockView, UpdateBlockchainResponse};
use vstd::prelude::*;

verus! {

/// The blocks of `chain` from position `from` on; none where the chain ends
/// before.
pub open spec fn chain_from(chain: Seq<BlockView>, from: int) -> Seq<BlockView> {
    if 0 <= from <= chain.len() {
        chain.skip(from)
    } else {
        Seq::empty()
    }
}

impl Blockchain {
    /// Copies of the blocks of the chain from position `from` on; none where
    /// the chain ends before.
    pub fn segment_from(&self, from: usize) -> (blocks: Vec<Block>)
        ensures
            block_views(blocks@) == chain_from(self@.chain, from as int),
    {
        let mut blocks: Vec<Block> = Vec::new();
        let mut i: usize = from;
        while i < self.chain.len()
            invariant
                from <= i,
                from <= self.chain.len() ==> i <= self.chain.len(),
                from > self.chain.len() ==> i == from,
                blocks.len() == i - from,
                forall|k: int| 0 <= k < blocks.len() ==> blocks@[k]@ == self.chain@[from + k]@,
            decreases self.chain.len() - i,
        {
            blocks.push(self.chain[i].clone());
            i += 1;
        }
        proof {
            if from <= self.chain.len() {
                assert(block_views(blocks@) =~= self@.chain.skip(from as int));
            } else {
                assert(block_views(blocks@) =~= Seq::<BlockView>::empty());
            }
        }
        blocks
    }
}

/// What the sender of a chain does after a peer's answer.
#[derive(Clone, Copy, Debug, PartialEq, Eq)]
pub enum PushStep {
    /// The peer took the segment.
    Done,
    /// The peer needs earlier blocks: send the chain from `from` on.
    Resend { from: usize },
    /// The peer refused for good, could not be reached, or asks for nothing
    /// earlier than what it was sent.
    GiveUp,
}

/// How the sender of a chain goes on after a peer has answered a segment
/// that started at position `sent_from` of the sender's chain; `None` stands
/// for a call that failed.
///
/// A peer that did not take the segment and tells a length below
/// `sent_from` is sent the chain from that length on. A peer that found the
/// link at the cut broken holds another branch: it is sent the whole chain,
/// unless that is what it was sent. Every resending starts earlier than the
/// one before, so the exchange ends.
pub open spec fn push_step(
    sent_from: usize,
    reply: Option<Result<UpdateBlockchainResponse, SyncError>>,
) -> PushStep {
    match reply {
        Some(Ok(answer)) => if answer.success {
            PushStep::Done
        } else if answer.chain_length < sent_from {
            PushStep::Resend { from: answer.chain_length }
        } else {
            PushStep::GiveUp
        },
        Some(Err(SyncError::BrokenLink)) => if sent_from > 0 {
            PushStep::Resend { from: 0 }
        } else {
            PushStep::GiveUp
        },
        _ => PushStep::GiveUp,
    }
}

/// Decides how to go on after a peer has answered a segment that started at
/// position `sent_from` of the sender's chain.
pub fn next_push(
    sent_from: usize,
    reply: Option<Result<UpdateBlockchainResponse, SyncError>>,
) -> (step: PushStep)
    ensures
        step == push_step(sent_from, reply),
{
    match reply {
        Some(Ok(answer)) => {
            if answer.success {
                PushStep::Done
            } else if answer.chain_length < sent_from {
                PushStep::Resend { from: answer.chain_length }
            } else {
                PushStep::GiveUp
            }
        },
        Some(Err(SyncError::BrokenLink)) => {
            if sent_from > 0 {
                PushStep::Resend { from: 0 }
            } else {
                PushStep::GiveUp
            }
        },
        _ => PushStep::GiveUp,
    }
}

/// The ledger of a receiver after a sender has pushed its chain `sender` to
/// it, from position `from` on, and has gone on as the answers said, with
/// nobody else changing the receiver's ledger meanwhile.
pub open spec fn ledger_after_push(
    sender: Seq<BlockView>,
    receiver: BlockchainView,
    from: usize,
) -> BlockchainView
    decreases from,
{
    let segment = chain_from(sender, from as int);
    let after = ledger_after_update(receiver, segment);
    match push_step(from, Some(update_reply(receiver.chain, segment))) {
        PushStep::Resend { from: earlier } => ledger_after_push(sender, after, earlier),
        _ => after,
    }
}

/// The blocks of a valid chain from position `from` on have no fault when
/// they follow a block whose hash the first of them names, and a broken
/// link at their start when they do not.
proof fn lemma_tail_of_valid_chain(chain: Seq<BlockView>, from: int, prev_hash: Seq<char>)
    requires
        chain_valid(chain),
        0 <= from < chain.len(),
    ensures
        segment_fault(prev_hash, from, chain.skip(from)) == (if chain[from].prev_hash
            == prev_hash {
            None
        } else {
            Some(SyncError::BrokenLink)
        }),
    decreases chain.len() - from,
{
    let segment = chain.skip(from);
    let rest = chain.skip(from + 1);
    assert(segment.len() > 0);
    assert(segment[0] == chain[from]);
    assert(link_valid(chain, from));
    assert(block_valid(segment[0]));
    assert(segment.drop_first() =~= rest);
    if from + 1 < chain.len() {
        assert(link_valid(chain, from + 1));
        assert(chain.take(from + 1).last() == chain[from]);
        assert(chain[from + 1].prev_hash == chain[from].hash);
        lemma_tail_of_valid_chain(chain, from + 1, chain[from].hash);
        assert(segment_fault(chain[from].hash, from + 1, rest) is None);
    } else {
        assert(rest.len() == 0);
        assert(segment_fault(chain[from].hash, from + 1, rest) is None);
    }
}

/// Where a push of `sender` that starts at position `from` within the
/// receiver's chain `chain` comes to rest: at `from` where the sender's
/// block there names the receiver's block before it, and at the start where
/// it does not.
pub open spec fn push_cut(sender: Seq<BlockView>, chain: Seq<BlockView>, from: int) -> int {
    if sender[from].prev_hash == tail_hash(chain.take(from)) {
        from
    } else {
        0
    }
}

/// A push of a valid chain that starts within the receiver's shorter chain
/// ends with the receiver taking the sender's blocks from the cut on.
proof fn lemma_push_from_within(sender: Seq<BlockView>, receiver: BlockchainView, from: usize)
    requires
        chain_valid(sender),
        receiver.chain.len() < sender.len() <= usize::MAX,
        from <= receiver.chain.len(),
    ensures
        ({
            let rest = sender.skip(push_cut(sender, receiver.chain, from as int));
            &&& update_accepted(receiver.chain, rest)
            &&& ledger_after_push(sender, receiver, from) == ledger_after_update(receiver, rest)
        }),
    decreases from,
{
    let chain = receiver.chain;
    let segment = chain_from(sender, from as int);
    let last = sender.len() - 1;
    assert(segment == sender.skip(from as int));
    assert(segment[0] == sender[from as int]);
    assert(segment.last() == sender[last]);
    assert(link_valid(sender, from as int));
    assert(link_valid(sender, last));
    let before = tail_hash(chain.take(from as int));
    lemma_tail_of_valid_chain(sender, from as int, before);
    if sender[from as int].prev_hash == before {
        assert(update_accepted(chain, segment));
    } else {
        assert(update_reply(chain, segment) == Err::<UpdateBlockchainResponse, SyncError>(
            SyncError::BrokenLink,
        ));
        assert(ledger_after_update(receiver, segment) == receiver);
        if from == 0 {
            assert(chain.take(0).len() == 0);
            assert(sender.take(0).len() == 0);
        } else {
            assert(link_valid(sender, 0));
            assert(chain.take(0).len() == 0);
            assert(sender.take(0).len() == 0);
            assert(push_cut(sender, chain, 0) == 0);
            lemma_push_from_within(sender, receiver, 0);
        }
    }
}

/// A sender whose chain is valid and longer than the receiver's gets its
/// chain taken. Where the sender's chain goes on from the receiver's tip,
/// the receiver's chain grows by the sender's further blocks; where the two
/// have forked, the receiver ends with the sender's whole chain. Either way
/// the receiver's chain is then as long as the sender's and ends with the
/// same block, and the receiver's pool has lost what the blocks it took hold.
pub proof fn longer_valid_chain_is_taken(sender: Seq<BlockView>, receiver: BlockchainView)
    requires
        chain_valid(sender),
        receiver.chain.len() < sender.len() <= usize::MAX,
    ensures
        ({
            let after = ledger_after_push(sender, receiver, (sender.len() - 1) as usize);
            let cut = push_cut(sender, receiver.chain, receiver.chain.len() as int);
            &&& update_accepted(receiver.chain, sender.skip(cut))
            &&& after == ledger_after_update(receiver, sender.skip(cut))
            &&& after.chain == receiver.chain.take(cut) + sender.skip(cut)
            &&& after.chain.len() == sender.len()
            &&& after.chain.last() == sender.last()
            &&& cut == 0 ==> after.chain == sender
        }),
{
    let from = (sender.len() - 1) as usize;
    let chain = receiver.chain;
    let met = chain.len() as usize;
    if from > chain.len() {
        let segment = chain_from(sender, from as int);
        assert(segment[0] == sender[from as int]);
        assert(link_valid(sender, from as int));
        assert(update_reply(chain, segment) == Ok::<UpdateBlockchainResponse, SyncError>(
            UpdateBlockchainResponse { success: false, chain_length: met },
        ));
        assert(ledger_after_update(receiver, segment) == receiver);
    }
    lemma_push_from_within(sender, receiver, met);
    let cut = push_cut(sender, chain, met as int);
    let after = ledger_after_push(sender, receiver, from);
    assert(link_valid(sender, cut));
    assert(sender.skip(cut)[0] == sender[cut]);
    assert(after.chain.last() == sender.skip(cut).last());
    if cut == 0 {
        assert(chain.take(0) + sender.skip(0) =~= sender);
    }
}

} // verus!
