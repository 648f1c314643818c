use blockchain::models::blockchain::Blockchain;
use blockchain::models::client::Client;
use blockchain::models::network::{generate_transaction, SyncError};
use blockchain::models::push::{next_push, PushStep};
use blockchain::node::{Block, Transaction, UpdateBlockchainResponse};

fn signed(client: &Client, receiver: &str, amount: i32, fee: i32, timestamp: u32) -> Transaction {
    generate_transaction(
        format!("tx-{}", timestamp),
        client.public_key.clone(),
        &client.private_key,
        receiver.to_string(),
        amount,
        fee,
        timestamp,
    )
    .expect("a signed transaction")
}

fn plain(timestamp: u32) -> Transaction {
    Transaction {
        id: format!("tx-{}", timestamp),
        sender: "alice".to_string(),
        receiver: "bob".to_string(),
        amount: 1,
        fee: 0,
        timestamp,
        hash: String::new(),
        signature: String::new(),
    }
}

fn sealed(id: i32, prev_hash: &str, timestamp: u32, transactions: Vec<Transaction>) -> Block {
    let mut block = Block {
        id,
        timestamp,
        nonce: 3,
        prev_hash: prev_hash.to_string(),
        hash: String::new(),
        difficulty: 0,
        transactions,
    };
    block.hash = block.compute_hash(block.nonce);
    block
}

fn chain(len: usize, salt: u32) -> Vec<Block> {
    let mut blocks: Vec<Block> = Vec::new();
    for id in 0..len {
        let prev = blocks.last().map(|b| b.hash.clone()).unwrap_or_default();
        blocks.push(sealed(id as i32, &prev, salt + id as u32, vec![]));
        blocks[id].nonce = salt as i32;
        blocks[id].hash = blocks[id].compute_hash(salt as i32);
    }
    blocks
}

fn ledger(blocks: Vec<Block>, pool: Vec<Transaction>) -> Blockchain {
    let mut ledger = Blockchain::new();
    ledger.chain = blocks;
    ledger.transactions = pool;
    ledger
}

fn refused(length: usize) -> Result<UpdateBlockchainResponse, SyncError> {
    Ok(UpdateBlockchainResponse { success: false, chain_length: length })
}

fn taken(length: usize) -> Result<UpdateBlockchainResponse, SyncError> {
    Ok(UpdateBlockchainResponse { success: true, chain_length: length })
}

#[test]
fn an_empty_segment_is_not_taken() {
    let mut node = ledger(chain(2, 1), vec![plain(5)]);
    let before = ledger(chain(2, 1), vec![plain(5)]);
    assert_eq!(node.update_blockchain(vec![]), refused(2));
    assert_eq!(node, before);
    let mut empty = Blockchain::new();
    assert_eq!(empty.update_blockchain(vec![]), refused(0));
}

#[test]
fn a_segment_beyond_the_frontier_asks_for_earlier_blocks() {
    let longer = chain(5, 1);
    let mut node = ledger(chain(2, 1), vec![]);
    assert_eq!(node.update_blockchain(longer[3..].to_vec()), refused(2));
    assert_eq!(node.chain, chain(2, 1));
    assert_eq!(node.update_blockchain(longer[4..].to_vec()), refused(2));
    let mut empty = Blockchain::new();
    assert_eq!(empty.update_blockchain(longer[1..].to_vec()), refused(0));
    assert!(empty.chain.is_empty());
}

#[test]
fn a_segment_at_the_frontier_extends_the_chain() {
    let longer = chain(5, 1);
    let mut node = ledger(chain(2, 1), vec![]);
    assert_eq!(node.update_blockchain(longer[2..].to_vec()), taken(5));
    assert_eq!(node.chain, longer);
    let mut empty = Blockchain::new();
    assert_eq!(empty.update_blockchain(longer.clone()), taken(5));
    assert_eq!(empty.chain, longer);
}

#[test]
fn a_segment_below_the_frontier_replaces_the_tail() {
    let ours = chain(3, 1);
    let theirs = chain(4, 2);
    let mut node = ledger(ours.clone(), vec![]);
    assert_eq!(node.update_blockchain(theirs.clone()), taken(4));
    assert_eq!(node.chain, theirs);

    let mut grown = ours.clone();
    let tail = grown[0].hash.clone();
    let second = sealed(1, &tail, 50, vec![]);
    let third = sealed(2, &second.hash, 51, vec![]);
    let fourth = sealed(3, &third.hash, 52, vec![]);
    let mut node = ledger(ours.clone(), vec![]);
    let segment = vec![second.clone(), third.clone(), fourth.clone()];
    assert_eq!(node.update_blockchain(segment), taken(4));
    grown.truncate(1);
    grown.push(second);
    grown.push(third);
    grown.push(fourth);
    assert_eq!(node.chain, grown);
}

#[test]
fn a_chain_of_equal_length_is_refused_as_shorter() {
    let ours = chain(3, 1);
    let theirs = chain(3, 2);
    let mut node = ledger(ours.clone(), vec![]);
    assert_eq!(node.update_blockchain(theirs), Err(SyncError::ShorterChain));
    assert_eq!(node.chain, ours);
    assert_eq!(node.update_blockchain(ours.clone()), Err(SyncError::ShorterChain));
    assert_eq!(node.chain, ours);
}

#[test]
fn a_shorter_segment_is_refused_and_changes_nothing() {
    let ours = chain(3, 1);
    let theirs = chain(2, 2);
    let mut node = ledger(ours.clone(), vec![plain(5)]);
    assert_eq!(node.update_blockchain(theirs.clone()), Err(SyncError::ShorterChain));
    assert_eq!(node, ledger(ours.clone(), vec![plain(5)]));
    assert_eq!(node.update_blockchain(theirs[1..].to_vec()), Err(SyncError::ShorterChain));
    assert_eq!(node.update_blockchain(ours[..1].to_vec()), Err(SyncError::ShorterChain));
    assert_eq!(node.chain, ours);
}

#[test]
fn a_segment_that_ends_with_a_negative_id_is_refused_as_shorter() {
    let mut node = ledger(chain(1, 1), vec![]);
    let blocks = vec![sealed(0, "", 5, vec![]), sealed(-1, "", 6, vec![])];
    assert_eq!(node.update_blockchain(blocks), Err(SyncError::ShorterChain));
    assert_eq!(node.chain, chain(1, 1));
    let mut empty = Blockchain::new();
    assert_eq!(
        empty.update_blockchain(vec![sealed(-1, "", 6, vec![])]),
        Err(SyncError::ShorterChain)
    );
}

#[test]
fn a_segment_that_starts_with_a_negative_id_is_refused_as_invalid() {
    let mut node = ledger(chain(1, 1), vec![]);
    let first = sealed(-1, "", 5, vec![]);
    let second = sealed(1, &first.hash, 6, vec![]);
    assert_eq!(node.update_blockchain(vec![first, second]), Err(SyncError::InvalidBlock));
    assert_eq!(node.chain, chain(1, 1));
}

#[test]
fn a_broken_link_at_the_splice_is_refused() {
    let ours = chain(2, 1);
    let theirs = chain(3, 2);
    let mut node = ledger(ours.clone(), vec![plain(5)]);
    assert_eq!(node.update_blockchain(theirs[2..].to_vec()), Err(SyncError::BrokenLink));
    assert_eq!(node.update_blockchain(theirs[1..].to_vec()), Err(SyncError::BrokenLink));
    assert_eq!(node, ledger(ours, vec![plain(5)]));
}

#[test]
fn a_broken_link_inside_the_segment_is_refused() {
    let mut theirs = chain(3, 2);
    theirs[2] = sealed(2, "elsewhere", 9, vec![]);
    let mut node = ledger(chain(1, 1), vec![]);
    assert_eq!(node.update_blockchain(theirs), Err(SyncError::BrokenLink));
    assert_eq!(node.chain, chain(1, 1));
}

#[test]
fn the_first_block_of_a_whole_chain_needs_an_empty_prev_hash() {
    let mut node = Blockchain::new();
    let first = sealed(0, "something", 5, vec![]);
    assert_eq!(node.update_blockchain(vec![first]), Err(SyncError::BrokenLink));
    assert!(node.chain.is_empty());
}

#[test]
fn an_invalid_block_is_refused_and_changes_nothing() {
    let client = Client::new(50000).expect("a key pair");
    let ours = chain(1, 1);
    let mut bad_hash = sealed(1, &ours[0].hash, 7, vec![]);
    bad_hash.hash = bad_hash.compute_hash(4);
    let mut tampered = signed(&client, "receiver", 100, 1, 10);
    tampered.amount = 1000;
    let bad_transaction = sealed(1, &ours[0].hash, 7, vec![tampered]);
    let mut unsigned = signed(&client, "receiver", 100, 1, 10);
    unsigned.signature = "00".to_string();
    let bad_signature = sealed(1, &ours[0].hash, 7, vec![unsigned]);
    for bad in [bad_hash, bad_transaction, bad_signature] {
        let mut node = ledger(ours.clone(), vec![plain(5)]);
        assert_eq!(node.update_blockchain(vec![bad.clone()]), Err(SyncError::InvalidBlock));
        assert_eq!(node, ledger(ours.clone(), vec![plain(5)]));
        let good = sealed(1, &ours[0].hash, 7, vec![]);
        let mut after = bad.clone();
        after.id = 2;
        after.prev_hash = good.hash.clone();
        after.hash = after.compute_hash(after.nonce);
        if bad.hash != bad.compute_hash(bad.nonce) {
            after.hash = after.compute_hash(4);
        }
        assert_eq!(node.update_blockchain(vec![good, after]), Err(SyncError::InvalidBlock));
        assert_eq!(node, ledger(ours.clone(), vec![plain(5)]));
    }
}

#[test]
fn the_link_is_checked_before_the_block() {
    let ours = chain(1, 1);
    let mut both = sealed(1, "elsewhere", 7, vec![]);
    both.hash = "wrong".to_string();
    let mut node = ledger(ours.clone(), vec![]);
    assert_eq!(node.update_blockchain(vec![both]), Err(SyncError::BrokenLink));
    let mut invalid = sealed(1, &ours[0].hash, 7, vec![]);
    invalid.hash = "wrong".to_string();
    let unlinked = sealed(2, "elsewhere", 8, vec![]);
    assert_eq!(node.update_blockchain(vec![invalid, unlinked]), Err(SyncError::InvalidBlock));
}

#[test]
fn an_invalid_block_beyond_the_frontier_only_asks_for_earlier_blocks() {
    let mut node = ledger(chain(1, 1), vec![]);
    let mut bad = sealed(5, "x", 7, vec![]);
    bad.hash = "wrong".to_string();
    assert_eq!(node.update_blockchain(vec![bad]), refused(1));
    assert_eq!(node.chain, chain(1, 1));
}

#[test]
fn a_taken_segment_clears_its_transactions_from_the_pool() {
    let client = Client::new(50000).expect("a key pair");
    let first = signed(&client, "receiver", 100, 1, 10);
    let second = signed(&client, "receiver", 200, 1, 11);
    let third = signed(&client, "receiver", 300, 1, 12);
    let ours = chain(1, 1);
    let block = sealed(1, &ours[0].hash, 7, vec![first.clone()]);
    let next = sealed(2, &block.hash, 8, vec![third.clone()]);
    let mut node = ledger(ours.clone(), vec![third.clone(), first.clone(), second.clone()]);
    assert_eq!(node.update_blockchain(vec![block.clone(), next.clone()]), taken(3));
    assert_eq!(node.transactions, vec![second.clone()]);
    assert_eq!(node.chain, vec![ours[0].clone(), block, next]);
    assert_eq!(node.difficulty, 4);
}

#[test]
fn a_refused_segment_leaves_the_pool_alone() {
    let client = Client::new(50000).expect("a key pair");
    let first = signed(&client, "receiver", 100, 1, 10);
    let ours = chain(2, 1);
    let block = sealed(1, &ours[0].hash, 7, vec![first.clone()]);
    let mut node = ledger(ours.clone(), vec![first.clone()]);
    assert_eq!(node.update_blockchain(vec![block]), Err(SyncError::ShorterChain));
    assert_eq!(node.transactions, vec![first]);
}

#[test]
fn a_segment_whose_ids_do_not_count_on_is_refused() {
    let first = sealed(0, "", 5, vec![]);
    let fifth = sealed(5, &first.hash, 6, vec![]);
    let mut node = Blockchain::new();
    assert_eq!(
        node.update_blockchain(vec![first.clone(), fifth]),
        Err(SyncError::WrongId)
    );
    assert!(node.chain.is_empty());

    let ours = chain(3, 1);
    let seventh = sealed(7, &first.hash, 6, vec![]);
    let mut node = ledger(ours.clone(), vec![plain(5)]);
    assert_eq!(
        node.update_blockchain(vec![first.clone(), seventh]),
        Err(SyncError::WrongId)
    );
    assert_eq!(node, ledger(ours.clone(), vec![plain(5)]));

    let again = sealed(0, &first.hash, 6, vec![]);
    let third = sealed(3, &again.hash, 7, vec![]);
    assert_eq!(
        node.update_blockchain(vec![first.clone(), again, third]),
        Err(SyncError::WrongId)
    );
    assert_eq!(node.chain, ours);
}

#[test]
fn the_link_is_checked_before_the_id_and_the_id_before_the_block() {
    let ours = chain(1, 1);
    let good = sealed(1, &ours[0].hash, 7, vec![]);
    let unlinked = sealed(5, "elsewhere", 8, vec![]);
    let mut node = ledger(ours.clone(), vec![]);
    assert_eq!(
        node.update_blockchain(vec![good.clone(), unlinked]),
        Err(SyncError::BrokenLink)
    );
    let mut both = sealed(5, &good.hash, 8, vec![]);
    both.hash = "wrong".to_string();
    assert_eq!(node.update_blockchain(vec![good, both]), Err(SyncError::WrongId));
    assert_eq!(node.chain, ours);
}

#[test]
fn a_taken_segment_makes_the_chain_longer_and_keeps_ids_in_place() {
    let ours = chain(3, 1);
    let theirs = chain(4, 2);
    let mut node = ledger(ours.clone(), vec![]);
    assert_eq!(node.update_blockchain(theirs[2..].to_vec()), Err(SyncError::BrokenLink));
    assert_eq!(node.update_blockchain(theirs.clone()), taken(4));
    assert!(node.chain.len() > ours.len());
    for (place, block) in node.chain.iter().enumerate() {
        assert_eq!(block.id as usize, place);
    }
}

#[test]
fn a_segment_is_taken_whatever_its_difficulty_and_timestamps() {
    let first = sealed(0, "", 5, vec![]);
    let mut odd = sealed(1, &first.hash, 1, vec![]);
    odd.difficulty = 64;
    let mut node = Blockchain::new();
    assert_eq!(node.update_blockchain(vec![first.clone(), odd.clone()]), taken(2));
    assert_eq!(node.chain, vec![first, odd]);
    assert!(!node.check_blockchain_validity());
}

#[test]
fn valid_transactions_join_the_pool_once() {
    let client = Client::new(50000).expect("a key pair");
    let first = signed(&client, "receiver", 100, 1, 10);
    let second = signed(&client, "receiver", 200, 1, 11);
    let mut node = Blockchain::new();
    let reply = node.update_transaction(vec![first.clone(), second.clone(), first.clone()]);
    assert!(reply.success);
    assert_eq!(node.transactions, vec![first.clone(), second.clone()]);
    let size = node.transactions.len();
    let again = node.update_transaction(vec![first.clone()]);
    assert!(again.success);
    assert_eq!(node.transactions.len(), size);
    assert_eq!(node.transactions, vec![first.clone(), second.clone()]);
    node.update_transaction(vec![second.clone(), first.clone()]);
    assert_eq!(node.transactions, vec![first, second]);
    assert!(node.chain.is_empty());
    assert_eq!(node.difficulty, 4);
}

#[test]
fn invalid_transactions_are_dropped_without_a_word() {
    let client = Client::new(50000).expect("a key pair");
    let valid = signed(&client, "receiver", 100, 1, 10);
    let mut tampered = valid.clone();
    tampered.amount = 1000;
    let mut node = Blockchain::new();
    let reply = node.update_transaction(vec![valid.clone(), tampered.clone()]);
    assert!(reply.success);
    assert_eq!(node.transactions, vec![valid.clone()]);
    let reply = node.update_transaction(vec![tampered, plain(5)]);
    assert!(reply.success);
    assert_eq!(node.transactions, vec![valid]);
    let reply = node.update_transaction(vec![]);
    assert!(reply.success);
}

#[test]
fn transactions_that_differ_only_in_id_are_both_kept() {
    let client = Client::new(50000).expect("a key pair");
    let first = signed(&client, "receiver", 100, 1, 10);
    let mut twin = first.clone();
    twin.id = "another id".to_string();
    let mut node = Blockchain::new();
    node.update_transaction(vec![first.clone(), twin.clone()]);
    assert_eq!(node.transactions, vec![first, twin]);
}

#[test]
fn the_sender_goes_on_as_the_answer_says() {
    assert_eq!(next_push(4, Some(taken(9))), PushStep::Done);
    assert_eq!(next_push(0, Some(taken(9))), PushStep::Done);
    assert_eq!(next_push(4, Some(refused(2))), PushStep::Resend { from: 2 });
    assert_eq!(next_push(3, Some(refused(2))), PushStep::Resend { from: 2 });
    assert_eq!(next_push(2, Some(refused(2))), PushStep::GiveUp);
    assert_eq!(next_push(0, Some(refused(2))), PushStep::GiveUp);
    assert_eq!(next_push(4, Some(refused(0))), PushStep::Resend { from: 0 });
    assert_eq!(next_push(4, None), PushStep::GiveUp);
}

#[test]
fn a_broken_link_makes_the_sender_start_from_the_beginning() {
    assert_eq!(next_push(4, Some(Err(SyncError::BrokenLink))), PushStep::Resend { from: 0 });
    assert_eq!(next_push(1, Some(Err(SyncError::BrokenLink))), PushStep::Resend { from: 0 });
    assert_eq!(next_push(0, Some(Err(SyncError::BrokenLink))), PushStep::GiveUp);
}

#[test]
fn other_refusals_end_the_exchange() {
    for from in [0, 1, 4] {
        assert_eq!(next_push(from, Some(Err(SyncError::ShorterChain))), PushStep::GiveUp);
        assert_eq!(next_push(from, Some(Err(SyncError::InvalidBlock))), PushStep::GiveUp);
        assert_eq!(next_push(from, Some(Err(SyncError::WrongId))), PushStep::GiveUp);
    }
}

#[test]
fn refusals_are_told_in_words() {
    assert_eq!(
        SyncError::ShorterChain.message(),
        "Received blockchain is shorter than current blockchain"
    );
    assert_eq!(SyncError::InvalidBlock.message(), "Invalid block in received blockchain");
    assert_eq!(SyncError::WrongId.message(), "Block id does not follow in received blockchain");
    assert_eq!(
        SyncError::BrokenLink.message(),
        "Previous hash does not match in received blockchain"
    );
}

#[test]
fn segments_are_copies_of_the_tail() {
    let node = ledger(chain(4, 1), vec![]);
    assert_eq!(node.segment_from(0), chain(4, 1));
    assert_eq!(node.segment_from(3), chain(4, 1)[3..].to_vec());
    assert_eq!(node.segment_from(4), vec![]);
    assert_eq!(node.segment_from(5), vec![]);
    assert_eq!(node.segment_from(usize::MAX), vec![]);
}

#[test]
fn snapshots_are_copies() {
    let node = ledger(chain(2, 1), vec![plain(5), plain(6)]);
    assert_eq!(node.get_blockchain(), chain(2, 1));
    assert_eq!(node.get_transaction_list(), vec![plain(5), plain(6)]);
}

/// Pushes the sender's chain to the receiver as a sender does, and tells
/// how many segments were sent and how the exchange ended.
fn push(sender: &Blockchain, receiver: &mut Blockchain) -> (usize, PushStep) {
    let mut from = sender.chain.len() - 1;
    let mut rounds = 0;
    loop {
        rounds += 1;
        let reply = receiver.update_blockchain(sender.segment_from(from));
        match next_push(from, Some(reply)) {
            PushStep::Resend { from: earlier } => from = earlier,
            end => return (rounds, end),
        }
    }
}

#[test]
fn pushing_a_longer_chain_block_by_block() {
    let ours = chain(5, 1);
    let sender = ledger(ours.clone(), vec![]);
    let mut receiver = ledger(ours[..2].to_vec(), vec![]);
    assert_eq!(push(&sender, &mut receiver), (2, PushStep::Done));
    assert_eq!(receiver.chain, ours);
    let mut follower = ledger(ours[..4].to_vec(), vec![]);
    assert_eq!(push(&sender, &mut follower), (1, PushStep::Done));
    assert_eq!(follower.chain, ours);
    let mut empty = Blockchain::new();
    assert_eq!(push(&sender, &mut empty), (2, PushStep::Done));
    assert_eq!(empty.chain, ours);
}

#[test]
fn a_fork_is_settled_by_the_whole_longer_chain() {
    let ours = chain(1, 1);
    let mut theirs = chain(1, 2);
    let tail = theirs[0].hash.clone();
    theirs.push(sealed(1, &tail, 9, vec![]));
    let sender = ledger(theirs.clone(), vec![]);
    let mut receiver = ledger(ours.clone(), vec![]);
    let reply = receiver.update_blockchain(sender.segment_from(1));
    assert_eq!(reply, Err(SyncError::BrokenLink));
    assert_eq!(receiver.chain, ours);
    assert_eq!(push(&sender, &mut receiver), (2, PushStep::Done));
    assert_eq!(receiver.chain, theirs);
    let back = ledger(ours.clone(), vec![]);
    assert_eq!(push(&back, &mut receiver), (1, PushStep::GiveUp));
    assert_eq!(receiver.chain, theirs);
}

#[test]
fn a_deep_fork_is_settled_in_three_segments() {
    let ours = chain(3, 1);
    let theirs = chain(6, 2);
    let sender = ledger(theirs.clone(), vec![plain(5)]);
    let mut receiver = ledger(ours, vec![plain(5)]);
    assert_eq!(push(&sender, &mut receiver), (3, PushStep::Done));
    assert_eq!(receiver.chain, theirs);
    assert_eq!(receiver.transactions, vec![plain(5)]);
}

#[test]
fn a_chain_that_is_not_longer_is_never_taken() {
    let ours = chain(3, 1);
    for len in 1..=3 {
        let sender = ledger(chain(len, 2), vec![]);
        let mut receiver = ledger(ours.clone(), vec![]);
        let (_, end) = push(&sender, &mut receiver);
        assert_eq!(end, PushStep::GiveUp);
        assert_eq!(receiver.chain, ours);
    }
}
