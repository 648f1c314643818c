//! The proof-of-work search: one mining attempt as a state machine whose
//! steps the caller drives, so that it can look for a cancellation signal
//! between two batches of nonces.

use crate::models::blockchain::{
    block_base_hash, block_hash, block_text, block_valid, chain_valid, chain_valid_push,
    check_hash_validity, ids_in_place, later_than_tail, link_valid, meets_difficulty, seal_hash,
    sealed_hash, timestamps_rise, tip_of, transaction_valid,
};
use crate::node::{transaction_views, Block, BlockView, Transaction, TransactionView};
use vstd::prelude::*;

verus! {

/// How many nonces a search tries between two looks at the cancellation
/// signal.
pub const SEARCH_BATCH: u32 = 1000;

/// The states of one mining attempt.
#[derive(Debug)]
pub enum MiningState {
    /// Nothing to mine.
    Idle,
    /// A candidate block is being searched; `nonce` is the next nonce to try.
    Searching { candidate: Block, nonce: i32 },
    /// A nonce was found; `block` is ready to join the chain.
    Found { block: Block },
    /// The attempt was given up; its candidate or block is gone.
    Cancelled,
}

/// A mining state as a mathematical value.
pub enum MiningStateView {
    Idle,
    Searching { candidate: BlockView, nonce: int },
    Found { block: BlockView },
    Cancelled,
}

impl View for MiningState {
    type V = MiningStateView;

    open spec fn view(&self) -> MiningStateView {
        match self {
            MiningState::Idle => MiningStateView::Idle,
            MiningState::Searching { candidate, nonce } => MiningStateView::Searching {
                candidate: candidate@,
                nonce: *nonce as int,
            },
            MiningState::Found { block } => MiningStateView::Found { block: block@ },
            MiningState::Cancelled => MiningStateView::Cancelled,
        }
    }
}

/// What can happen to a mining attempt.
#[derive(Clone, Copy, Debug, PartialEq, Eq)]
pub enum MiningEvent {
    /// Try up to `attempts` further nonces; a block found is stamped `now`.
    Work { attempts: u32, now: u32 },
    /// A cancellation signal has arrived.
    Cancel,
    /// The outcome of the attempt has been dealt with.
    Reset,
}

/// The candidate that a search on top of `last_block` starts from: the next
/// id, the tip's hash as `prev_hash`, the given transactions, and nonce,
/// timestamp and hash still blank.
pub open spec fn candidate_on(
    last_block: BlockView,
    transactions: Seq<TransactionView>,
    difficulty: int,
) -> BlockView {
    BlockView {
        id: last_block.id + 1,
        timestamp: 0,
        nonce: 0,
        prev_hash: last_block.hash,
        hash: Seq::empty(),
        difficulty,
        transactions,
    }
}

/// The candidate `candidate` sealed under `nonce` at the time `now`.
pub open spec fn sealed(candidate: BlockView, nonce: int, now: int) -> BlockView {
    BlockView {
        nonce,
        hash: sealed_hash(block_base_hash(candidate), nonce),
        timestamp: now,
        ..candidate
    }
}

/// The least nonce from `from` up to, not counting, `upto` whose hash on top
/// of `base` qualifies under `difficulty`; `None` where there is none.
pub open spec fn first_hit(base: Seq<char>, difficulty: int, from: int, upto: int) -> Option<int>
    decreases upto - from,
{
    if from >= upto {
        None
    } else if meets_difficulty(sealed_hash(base, from), difficulty) {
        Some(from)
    } else {
        first_hit(base, difficulty, from + 1, upto)
    }
}

/// Where a batch of `attempts` nonces that starts at `nonce` ends: nonces
/// run from zero to the largest `i32`.
pub open spec fn batch_end(nonce: int, attempts: int) -> int {
    if nonce + attempts <= i32::MAX + 1 {
        nonce + attempts
    } else {
        i32::MAX + 1
    }
}

/// The state that follows `state` on `event`.
///
/// A search that works tries the nonces of its batch in rising order and
/// stops at the first whose hash qualifies under the candidate's difficulty;
/// the block is then sealed with that nonce, its hash and the time `now`.
/// When the nonces run out, the attempt counts as cancelled. A cancellation
/// ends a search without a block, and takes back a block that was found
/// but has not joined the chain. A reset brings a finished attempt back to
/// idle. Any other event leaves the state as it is.
pub open spec fn next_state(state: MiningStateView, event: MiningEvent) -> MiningStateView {
    match state {
        MiningStateView::Searching { candidate, nonce } => match event {
            MiningEvent::Work { attempts, now } => work_outcome(
                candidate,
                nonce,
                attempts as int,
                now as int,
            ),
            MiningEvent::Cancel => MiningStateView::Cancelled,
            MiningEvent::Reset => state,
        },
        MiningStateView::Found { .. } => match event {
            MiningEvent::Work { .. } => state,
            MiningEvent::Cancel => MiningStateView::Cancelled,
            MiningEvent::Reset => MiningStateView::Idle,
        },
        MiningStateView::Cancelled => match event {
            MiningEvent::Reset => MiningStateView::Idle,
            _ => state,
        },
        MiningStateView::Idle => state,
    }
}

/// The state after a search of `candidate` has tried one batch of up to
/// `attempts` nonces from `nonce` on.
pub open spec fn work_outcome(
    candidate: BlockView,
    nonce: int,
    attempts: int,
    now: int,
) -> MiningStateView {
    let upto = batch_end(nonce, attempts);
    match first_hit(block_base_hash(candidate), candidate.difficulty, nonce, upto) {
        Some(hit) => MiningStateView::Found { block: sealed(candidate, hit, now) },
        None => if upto > i32::MAX {
            MiningStateView::Cancelled
        } else {
            MiningStateView::Searching { candidate, nonce: upto }
        },
    }
}

/// Opens a mining attempt on top of `last_block`: with no transaction to
/// mine the attempt stays idle, otherwise it searches a candidate that holds
/// `transactions`, from nonce zero on.
pub fn mine_new_block(
    last_block: &Block,
    transactions: Vec<Transaction>,
    difficulty: i32,
) -> (state: MiningState)
    requires
        last_block.id < i32::MAX,
    ensures
        state@ == (if transactions@.len() == 0 {
            MiningStateView::Idle
        } else {
            MiningStateView::Searching {
                candidate: candidate_on(
                    last_block@,
                    transaction_views(transactions@),
                    difficulty as int,
                ),
                nonce: 0,
            }
        }),
{
    if transactions.len() == 0 {
        return MiningState::Idle;
    }
    let candidate = Block {
        id: last_block.id + 1,
        timestamp: 0,
        nonce: 0,
        prev_hash: last_block.hash.clone(),
        hash: String::new(),
        difficulty,
        transactions,
    };
    MiningState::Searching { candidate, nonce: 0 }
}

impl MiningState {
    /// Takes one event and gives the state that follows.
    pub fn advance(self, event: MiningEvent) -> (next: MiningState)
        ensures
            next@ == next_state(self@, event),
    {
        match (self, event) {
            (MiningState::Searching { candidate, nonce }, MiningEvent::Work { attempts, now }) => {
                search(candidate, nonce, attempts, now)
            },
            (MiningState::Searching { .. }, MiningEvent::Cancel) => MiningState::Cancelled,
            (MiningState::Found { .. }, MiningEvent::Cancel) => MiningState::Cancelled,
            (MiningState::Found { .. }, MiningEvent::Reset) => MiningState::Idle,
            (MiningState::Cancelled, MiningEvent::Reset) => MiningState::Idle,
            (state, _) => state,
        }
    }
}

/// Tries the nonces of one batch in rising order.
fn search(candidate: Block, nonce: i32, attempts: u32, now: u32) -> (next: MiningState)
    ensures
        next@ == work_outcome(candidate@, nonce as int, attempts as int, now as int),
{
    let base = candidate.base_hash();
    let end: i64 = if nonce as i64 + attempts as i64 <= i32::MAX as i64 + 1 {
        nonce as i64 + attempts as i64
    } else {
        i32::MAX as i64 + 1
    };
    let ghost upto = batch_end(nonce as int, attempts as int);
    let mut n: i64 = nonce as i64;
    while n < end
        invariant
            end == upto,
            upto == batch_end(nonce as int, attempts as int),
            nonce <= n,
            n <= end,
            end <= i32::MAX + 1,
            base@ == block_base_hash(candidate@),
            first_hit(base@, candidate.difficulty as int, nonce as int, upto) == first_hit(
                base@,
                candidate.difficulty as int,
                n as int,
                upto,
            ),
        decreases end - n,
    {
        let hash = seal_hash(base.as_str(), n as i32);
        if check_hash_validity(&hash, candidate.difficulty) {
            let block = Block {
                id: candidate.id,
                timestamp: now,
                nonce: n as i32,
                prev_hash: candidate.prev_hash,
                hash,
                difficulty: candidate.difficulty,
                transactions: candidate.transactions,
            };
            assert(first_hit(base@, candidate.difficulty as int, n as int, upto) == Some(
                n as int,
            ));
            assert(block@ == sealed(candidate@, n as int, now as int));
            return MiningState::Found { block };
        }
        n += 1;
    }
    if end > i32::MAX as i64 {
        MiningState::Cancelled
    } else {
        MiningState::Searching { candidate, nonce: end as i32 }
    }
}

/// What `first_hit` finds lies in the range, qualifies, and comes before
/// any other nonce of the range that qualifies.
proof fn lemma_first_hit(base: Seq<char>, difficulty: int, from: int, upto: int)
    ensures
        (match first_hit(base, difficulty, from, upto) {
            Some(hit) => {
                &&& from <= hit < upto
                &&& meets_difficulty(sealed_hash(base, hit), difficulty)
                &&& forall|n: int|
                    from <= n < hit ==> !meets_difficulty(
                        #[trigger] sealed_hash(base, n),
                        difficulty,
                    )
            },
            None => forall|n: int|
                from <= n < upto ==> !meets_difficulty(
                    #[trigger] sealed_hash(base, n),
                    difficulty,
                ),
        }),
    decreases upto - from,
{
    if from < upto && !meets_difficulty(sealed_hash(base, from), difficulty) {
        lemma_first_hit(base, difficulty, from + 1, upto);
    }
}

/// A block that a search finds keeps the candidate's id, `prev_hash`,
/// transactions and difficulty; its `hash` field is its canonical hash under
/// its `nonce` field and qualifies under the difficulty; and no nonce that
/// the search passed over on its way qualifies.
pub proof fn found_block_is_sealed(candidate: BlockView, nonce: int, attempts: int, now: int)
    ensures
        (work_outcome(candidate, nonce, attempts, now) matches MiningStateView::Found { block } ==> {
            &&& block.id == candidate.id
            &&& block.prev_hash == candidate.prev_hash
            &&& block.transactions == candidate.transactions
            &&& block.difficulty == candidate.difficulty
            &&& block.timestamp == now
            &&& nonce <= block.nonce <= i32::MAX
            &&& block.nonce < nonce + attempts
            &&& block.hash == block_hash(block, block.nonce)
            &&& meets_difficulty(block.hash, block.difficulty)
            &&& forall|n: int|
                nonce <= n < block.nonce ==> !meets_difficulty(
                    #[trigger] block_hash(candidate, n),
                    candidate.difficulty,
                )
        }),
{
    let base = block_base_hash(candidate);
    let upto = batch_end(nonce, attempts);
    lemma_first_hit(base, candidate.difficulty, nonce, upto);
    if let MiningStateView::Found { block } = work_outcome(candidate, nonce, attempts, now) {
        assert(block_text(block) == block_text(candidate));
        assert forall|n: int| nonce <= n < block.nonce implies !meets_difficulty(
            #[trigger] block_hash(candidate, n),
            candidate.difficulty,
        ) by {
            assert(block_hash(candidate, n) == sealed_hash(base, n));
        }
    }
}

/// A search that ends for want of nonces, or goes on, has found no nonce
/// that qualifies among those it tried.
pub proof fn passed_nonces_fail(candidate: BlockView, nonce: int, attempts: int, now: int)
    ensures
        !(work_outcome(candidate, nonce, attempts, now) is Found) ==> forall|n: int|
            nonce <= n < batch_end(nonce, attempts) ==> !meets_difficulty(
                #[trigger] block_hash(candidate, n),
                candidate.difficulty,
            ),
{
    let base = block_base_hash(candidate);
    lemma_first_hit(base, candidate.difficulty, nonce, batch_end(nonce, attempts));
    assert forall|n: int| #[trigger] block_hash(candidate, n) == sealed_hash(base, n) by {}
}

/// A block found on top of the tip of a valid chain continues it validly,
/// provided that the transactions it was to hold are valid with rising
/// timestamps and that it is stamped later than the tip.
pub proof fn found_block_continues_valid_chain(
    chain: Seq<BlockView>,
    transactions: Seq<TransactionView>,
    difficulty: int,
    nonce: int,
    attempts: int,
    now: int,
)
    requires
        chain_valid(chain),
        forall|i: int| 0 <= i < transactions.len() ==> transaction_valid(#[trigger] transactions[i]),
        timestamps_rise(transactions),
        later_than_tail(chain, now),
    ensures
        (work_outcome(
            candidate_on(tip_of(chain, difficulty), transactions, difficulty),
            nonce,
            attempts,
            now,
        ) matches MiningStateView::Found { block } ==> chain_valid(chain.push(block))),
{
    let candidate = candidate_on(tip_of(chain, difficulty), transactions, difficulty);
    found_block_is_sealed(candidate, nonce, attempts, now);
    if let MiningStateView::Found { block } = work_outcome(candidate, nonce, attempts, now) {
        if chain.len() > 0 {
            assert(link_valid(chain, chain.len() - 1));
        }
        assert(block_valid(block));
        chain_valid_push(chain, block);
    }
}

/// A block found on top of the tip of a chain whose blocks bear their
/// places as ids bears its own place as its id.
pub proof fn found_block_takes_the_next_place(
    chain: Seq<BlockView>,
    transactions: Seq<TransactionView>,
    difficulty: int,
    nonce: int,
    attempts: int,
    now: int,
)
    requires
        ids_in_place(chain),
    ensures
        (work_outcome(
            candidate_on(tip_of(chain, difficulty), transactions, difficulty),
            nonce,
            attempts,
            now,
        ) matches MiningStateView::Found { block } ==> ids_in_place(chain.push(block))),
{
    let candidate = candidate_on(tip_of(chain, difficulty), transactions, difficulty);
    found_block_is_sealed(candidate, nonce, attempts, now);
    if let MiningStateView::Found { block } = work_outcome(candidate, nonce, attempts, now) {
        let longer = chain.push(block);
        if chain.len() > 0 {
            assert(chain[chain.len() - 1].id == chain.len() - 1);
        }
        assert forall|i: int| 0 <= i < longer.len() implies (#[trigger] longer[i]).id == i by {
            if i < chain.len() {
                assert(longer[i] == chain[i]);
            }
        }
    }
}

} // verus!
