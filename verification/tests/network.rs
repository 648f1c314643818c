use blockchain::blockchain_network::BlockchainNetwork;
use blockchain::models::client::Client;
use blockchain::models::mining::{mine_new_block, MiningEvent, MiningState, SEARCH_BATCH};
use blockchain::models::network::{
    generate_transaction, get_peer_list, join_network, other_peers, update_client_transaction,
};
use blockchain::models::node::Node;
use blockchain::models::push::{next_push, PushStep};
use blockchain::node::{Block, JoinNetworkResponse, NodeInfo, Transaction};

fn peer(port: u32) -> NodeInfo {
    NodeInfo { id: format!("node-{}", port), ip: "[::1]".to_string(), port }
}

fn signed(client: &Client, receiver: &str, amount: i32, fee: i32, timestamp: u32) -> Transaction {
    generate_transaction(
        format!("tx-{}", timestamp),
        client.public_key.clone(),
        &client.private_key,
        receiver.to_string(),
        amount,
        fee,
        timestamp,
    )
    .expect("a signed transaction")
}

/// Starts a node the way a process does: alone, or by joining through the
/// node at `via`, and then telling the others.
fn start(nodes: &mut Vec<Node>, port: u32, via: Option<usize>) {
    let mut node = Node::new(port);
    match via {
        None => node.start_alone(),
        Some(at) => {
            let peer_port = nodes[at].port;
            let host = &mut nodes[at];
            let reply = join_network(&mut host.peers, &host.blockchain, node.info());
            let tell = node.adopt(reply, peer_port);
            for other in tell {
                let host = nodes.iter_mut().find(|n| n.port == other.port).expect("a listed node");
                join_network(&mut host.peers, &host.blockchain, node.info());
            }
        }
    }
    nodes.push(node);
}

/// Hands transactions to the node at `at` as a client does: the node takes
/// them and passes them on to its peers.
fn submit(nodes: &mut Vec<Node>, at: usize, transactions: Vec<Transaction>) {
    let node = &mut nodes[at];
    let (reply, tell) = update_client_transaction(
        &mut node.blockchain,
        &node.peers,
        node.port,
        transactions.clone(),
    );
    assert!(reply.success);
    for other in tell {
        let host = nodes.iter_mut().find(|n| n.port == other.port).expect("a listed node");
        assert!(host.blockchain.update_transaction(transactions.clone()).success);
    }
}

/// Lets the node at `at` mine its pool into a block and push its chain to
/// its peers.
fn mine(nodes: &mut Vec<Node>, at: usize, now: u32) {
    let ledger = &nodes[at].blockchain;
    let mut state =
        mine_new_block(&ledger.last_block(), ledger.get_transaction_list(), ledger.difficulty);
    let block = loop {
        state = match state {
            MiningState::Found { block } => break block,
            MiningState::Searching { .. } => {
                state.advance(MiningEvent::Work { attempts: SEARCH_BATCH, now })
            }
            other => panic!("the search ended as {:?}", other),
        }
    };
    nodes[at].blockchain.add_mined_block(block);
    let port = nodes[at].port;
    for other in other_peers(&nodes[at].peers, port, port) {
        let mut from = nodes[at].blockchain.chain.len() - 1;
        loop {
            let segment = nodes[at].blockchain.segment_from(from);
            let host = nodes.iter_mut().find(|n| n.port == other.port).expect("a listed node");
            let reply = host.blockchain.update_blockchain(segment);
            match next_push(from, Some(reply)) {
                PushStep::Resend { from: earlier } => from = earlier,
                PushStep::Done | PushStep::GiveUp => break,
            }
        }
    }
}

fn three_nodes() -> Vec<Node> {
    let mut nodes = Vec::new();
    start(&mut nodes, 50000, None);
    start(&mut nodes, 50001, Some(0));
    start(&mut nodes, 50002, Some(1));
    nodes
}

#[test]
fn test_join_network_10_percents() {
    let nodes = three_nodes();
    for node in &nodes {
        let peers = get_peer_list(&node.peers);
        assert_eq!(peers.len(), 3);
        assert!(peers.iter().any(|peer| peer.port == 50000));
        assert!(peers.iter().any(|peer| peer.port == 50001));
        assert!(peers.iter().any(|peer| peer.port == 50002));
    }
}

#[test]
fn test_submit_transaction_10_percents() {
    let mut nodes = three_nodes();
    let client = Client::new(50000).expect("a key pair");
    let transaction = signed(&client, "receiver", 100, 1, 1700000000);
    let mut invalid_transaction = transaction.clone();
    invalid_transaction.amount = 1000;
    submit(&mut nodes, 0, vec![transaction.clone(), invalid_transaction.clone()]);
    for node in &nodes {
        let transactions = node.blockchain.get_transaction_list();
        assert_eq!(transactions.len(), 1);
        assert_eq!(transactions[0], transaction);
    }
}

#[test]
fn test_mine_block_15_percents() {
    let mut nodes = three_nodes();
    let client = Client::new(50000).expect("a key pair");
    let transaction = signed(&client, "receiver", 100, 1, 1700000000);
    submit(&mut nodes, 0, vec![transaction.clone()]);
    mine(&mut nodes, 0, 1700000005);
    for node in &nodes {
        let blockchain = node.blockchain.get_blockchain();
        assert_eq!(blockchain.len(), 1);
        assert_eq!(blockchain[0].transactions, vec![transaction.clone()]);
        assert!(node.blockchain.get_transaction_list().is_empty());
        assert!(node.blockchain.check_blockchain_validity());
    }
}

#[test]
fn test_invalid_block() {
    let mut nodes = three_nodes();
    let client = Client::new(50000).expect("a key pair");
    let transaction = signed(&client, "receiver", 100, 1, 1700000000);
    submit(&mut nodes, 0, vec![transaction.clone()]);
    mine(&mut nodes, 0, 1700000005);

    let blockchain = nodes[0].blockchain.get_blockchain();
    let mut bad_block = blockchain[0].clone();
    bad_block.id = 1;
    bad_block.prev_hash = bad_block.hash.clone();
    bad_block.transactions[0].amount = 1000;

    assert!(nodes[1].blockchain.update_blockchain(vec![bad_block.clone()]).is_err());
    assert!(nodes[2].blockchain.update_blockchain(vec![bad_block.clone()]).is_err());

    for node in &nodes {
        let blockchain = node.blockchain.get_blockchain();
        assert_eq!(blockchain.len(), 1);
        assert_eq!(blockchain[0].transactions[0], transaction);
    }
}

#[test]
fn test_longer_chain_20_percents() {
    let mut nodes = Vec::new();
    start(&mut nodes, 50000, None);
    start(&mut nodes, 50001, Some(0));
    let client = Client::new(50000).expect("a key pair");
    let tx1 = signed(&client, "receiver1", 100, 1, 1700000000);
    let tx2 = signed(&client, "receiver2", 200, 1, 1700000001);
    let tx3 = signed(&client, "receiver3", 50, 2, 1700000002);

    submit(&mut nodes, 0, vec![tx1.clone()]);
    mine(&mut nodes, 0, 1700000005);
    start(&mut nodes, 50002, Some(1));
    submit(&mut nodes, 0, vec![tx2.clone(), tx3.clone()]);
    mine(&mut nodes, 2, 1700000006);

    for node in &nodes {
        let blockchain = node.blockchain.get_blockchain();
        assert_eq!(blockchain.len(), 2);
        assert_eq!(blockchain[0].transactions[0], tx1);
        assert_eq!(blockchain[1].transactions[0], tx2);
        assert_eq!(blockchain[1].transactions[1], tx3);
        assert!(node.blockchain.check_blockchain_validity());
    }
}

#[test]
fn a_late_joiner_catches_up_block_by_block() {
    let mut nodes = Vec::new();
    start(&mut nodes, 50000, None);
    let client = Client::new(50000).expect("a key pair");
    for round in 0..3u32 {
        submit(&mut nodes, 0, vec![signed(&client, "receiver", 1, 0, 10 + round)]);
        mine(&mut nodes, 0, 100 + round);
    }
    let mut late = Node::new(50001);
    late.start_alone();
    nodes[0].peers.push(late.info());
    nodes.push(late);
    submit(&mut nodes, 0, vec![signed(&client, "receiver", 1, 0, 20)]);
    mine(&mut nodes, 0, 200);
    assert_eq!(nodes[0].blockchain.chain.len(), 4);
    assert_eq!(nodes[1].blockchain.chain, nodes[0].blockchain.chain);
}

#[test]
fn test_fork_30_percents() {
    let client = Client::new(50000).expect("a key pair");
    let tx1 = signed(&client, "receiver", 100, 1, 1700000000);
    let tx2 = signed(&client, "receiver2", 200, 2, 1700000001);
    let tx3 = signed(&client, "receiver3", 50, 2, 1700000002);

    // two nodes that do not know of each other mine two different first blocks
    let mut first = Vec::new();
    start(&mut first, 50000, None);
    submit(&mut first, 0, vec![tx1.clone()]);
    mine(&mut first, 0, 1700000005);
    let mut second = Vec::new();
    start(&mut second, 50001, None);
    submit(&mut second, 0, vec![tx2.clone()]);
    mine(&mut second, 0, 1700000005);
    let bc1 = first[0].blockchain.get_blockchain();
    let bc2 = second[0].blockchain.get_blockchain();
    assert_eq!(bc1[0].id, 0);
    assert_eq!(bc2[0].id, 0);
    assert_ne!(bc1[0].hash, bc2[0].hash);

    // two peers are handed one chain each, so that their chains have forked
    let mut nodes = Vec::new();
    start(&mut nodes, 50002, None);
    start(&mut nodes, 50003, Some(0));
    assert!(nodes[0].blockchain.update_blockchain(bc1.clone()).unwrap().success);
    assert!(nodes[1].blockchain.update_blockchain(bc2.clone()).unwrap().success);

    // a further transaction is mined on one branch, and the fork is resolved
    submit(&mut nodes, 1, vec![tx3.clone()]);
    mine(&mut nodes, 1, 1700000010);

    let bc3 = nodes[1].blockchain.get_blockchain();
    let bc4 = nodes[0].blockchain.get_blockchain();
    assert_eq!(bc3, bc4);
    assert_eq!(bc3.len(), 2);
    assert_eq!(bc3[0], bc2[0]);
    assert_eq!(bc3[1].transactions, vec![tx3]);
    assert!(nodes[0].blockchain.transactions.is_empty());
    assert!(nodes[0].blockchain.check_blockchain_validity());

    // the branch that lost is not taken back
    let before = nodes[0].blockchain.get_blockchain();
    assert!(nodes[0].blockchain.update_blockchain(bc1).is_err());
    assert_eq!(nodes[0].blockchain.chain, before);
}

#[test]
fn joining_appends_the_caller_and_answers_with_everything() {
    let mut node = Node::with_id(50000, "seed".to_string());
    node.start_alone();
    node.blockchain.transactions.push(Transaction {
        id: "t".to_string(),
        sender: "a".to_string(),
        receiver: "b".to_string(),
        amount: 1,
        fee: 0,
        timestamp: 1,
        hash: String::new(),
        signature: String::new(),
    });
    let reply = join_network(&mut node.peers, &node.blockchain, peer(50001));
    assert_eq!(node.peers, vec![node.info(), peer(50001)]);
    assert_eq!(reply.nodes, node.peers);
    assert_eq!(reply.chain, node.blockchain.chain);
    assert_eq!(reply.transactions, node.blockchain.transactions);
    let again = join_network(&mut node.peers, &node.blockchain, peer(50001));
    assert_eq!(again.nodes, vec![node.info(), peer(50001), peer(50001)]);
}

#[test]
fn adopting_takes_roster_chain_and_pool() {
    let block = Block {
        id: 0,
        timestamp: 1,
        nonce: 0,
        prev_hash: String::new(),
        hash: "h".to_string(),
        difficulty: 4,
        transactions: vec![],
    };
    let reply = JoinNetworkResponse {
        nodes: vec![peer(50000), peer(50001), peer(50002), peer(50003), peer(50001)],
        chain: vec![block.clone()],
        transactions: vec![],
    };
    let mut node = Node::with_id(50002, "node-50002".to_string());
    node.blockchain.difficulty = 3;
    node.peers.push(peer(7));
    let tell = node.adopt(reply, 50000);
    assert_eq!(tell, vec![peer(50001), peer(50003), peer(50001)]);
    assert_eq!(
        node.peers,
        vec![peer(7), peer(50000), peer(50001), peer(50002), peer(50003), peer(50001)]
    );
    assert_eq!(node.blockchain.chain, vec![block]);
    assert!(node.blockchain.transactions.is_empty());
    assert_eq!(node.blockchain.difficulty, 3);
    assert_eq!(node.port, 50002);
}

#[test]
fn a_client_transaction_is_taken_and_passed_on_to_the_others() {
    let client = Client::new(50000).expect("a key pair");
    let valid = signed(&client, "receiver", 100, 1, 10);
    let mut tampered = valid.clone();
    tampered.fee = 7;
    let mut node = Node::with_id(50000, "n".to_string());
    node.peers = vec![peer(50001), peer(50000), peer(50002)];
    let (reply, tell) = update_client_transaction(
        &mut node.blockchain,
        &node.peers,
        node.port,
        vec![tampered, valid.clone()],
    );
    assert!(reply.success);
    assert_eq!(tell, vec![peer(50001), peer(50002)]);
    assert_eq!(node.blockchain.transactions, vec![valid]);
    assert!(node.blockchain.chain.is_empty());
}

#[test]
fn other_peers_leaves_out_by_port() {
    let peers = vec![peer(1), peer(2), peer(3), peer(2)];
    assert_eq!(other_peers(&peers, 2, 2), vec![peer(1), peer(3)]);
    assert_eq!(other_peers(&peers, 1, 3), vec![peer(2), peer(2)]);
    assert_eq!(other_peers(&peers, 9, 9), peers);
    assert_eq!(other_peers(&vec![], 1, 2), vec![]);
}

#[test]
fn the_plain_network_grows_block_by_block() {
    let mut network = BlockchainNetwork::default();
    assert!(network.nodes.is_empty());
    assert!(network.blockchain.is_empty());
    let block = |id: i32, prev: &str, hash: &str| Block {
        id,
        timestamp: 0,
        nonce: 0,
        prev_hash: prev.to_string(),
        hash: hash.to_string(),
        difficulty: 0,
        transactions: vec![],
    };
    assert!(network.check_block_validity(&block(0, "", "a")));
    assert!(!network.check_block_validity(&block(1, "", "a")));
    assert!(!network.check_block_validity(&block(0, "x", "a")));
    network.add_block_to_blockchain(block(0, "", "a"));
    assert!(network.check_block_validity(&block(1, "a", "b")));
    assert!(!network.check_block_validity(&block(1, "b", "b")));
    assert!(!network.check_block_validity(&block(2, "a", "b")));
    assert!(!network.check_block_validity(&block(0, "a", "b")));
    network.add_block_to_blockchain(block(1, "a", "b"));
    assert_eq!(network.blockchain, vec![block(0, "", "a"), block(1, "a", "b")]);
    network.add_block_to_blockchain(block(i32::MAX, "b", "c"));
    assert!(!network.check_block_validity(&block(i32::MIN, "c", "d")));
}

#[test]
fn the_plain_network_lists_who_joined() {
    let mut network = BlockchainNetwork::default();
    assert_eq!(network.join_network(peer(1)), vec![peer(1)]);
    assert_eq!(network.join_network(peer(2)), vec![peer(1), peer(2)]);
    assert_eq!(network.nodes, vec![peer(1), peer(2)]);
    assert!(network.blockchain.is_empty());
}
