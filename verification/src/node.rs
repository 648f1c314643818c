//! The messages that nodes exchange: transactions, blocks and peer
//! addresses, each with the mathematical view that the rules are stated over.

use vstd::prelude::*;

verus! {

/// A transfer between two parties, hashed and signed by its sender.
#[derive(Debug, PartialEq, Eq)]
pub struct Transaction {
    pub id: String,
    pub sender: String,
    pub receiver: String,
    pub amount: i32,
    pub fee: i32,
    pub timestamp: u32,
    pub hash: String,
    pub signature: String,
}

/// A transaction as a mathematical value.
pub struct TransactionView {
    pub id: Seq<char>,
    pub sender: Seq<char>,
    pub receiver: Seq<char>,
    pub amount: int,
    pub fee: int,
    pub timestamp: int,
    pub hash: Seq<char>,
    pub signature: Seq<char>,
}

impl View for Transaction {
    type V = TransactionView;

    open spec fn view(&self) -> TransactionView {
        TransactionView {
            id: self.id@,
            sender: self.sender@,
            receiver: self.receiver@,
            amount: self.amount as int,
            fee: self.fee as int,
            timestamp: self.timestamp as int,
            hash: self.hash@,
            signature: self.signature@,
        }
    }
}

impl Clone for Transaction {
    fn clone(&self) -> (copy: Transaction)
        ensures
            copy@ == self@,
    {
        Transaction {
            id: self.id.clone(),
            sender: self.sender.clone(),
            receiver: self.receiver.clone(),
            amount: self.amount,
            fee: self.fee,
            timestamp: self.timestamp,
            hash: self.hash.clone(),
            signature: self.signature.clone(),
        }
    }
}

impl Transaction {
    /// Whether two transactions agree in every field.
    pub fn same_as(&self, other: &Transaction) -> (same: bool)
        ensures
            same == (self@ == other@),
    {
        self.id == other.id && self.sender == other.sender && self.receiver == other.receiver
            && self.amount == other.amount && self.fee == other.fee && self.timestamp
            == other.timestamp && self.hash == other.hash && self.signature == other.signature
    }
}

/// The views of a sequence of transactions, in order.
pub open spec fn transaction_views(transactions: Seq<Transaction>) -> Seq<TransactionView> {
    transactions.map_values(|t: Transaction| t@)
}

/// Whether `list` holds a transaction equal to `wanted`.
pub fn contains_transaction(list: &Vec<Transaction>, wanted: &Transaction) -> (found: bool)
    ensures
        found == transaction_views(list@).contains(wanted@),
{
    let mut i: usize = 0;
    while i < list.len()
        invariant
            i <= list.len(),
            forall|k: int| 0 <= k < i ==> list@[k]@ != wanted@,
        decreases list.len() - i,
    {
        if list[i].same_as(wanted) {
            assert(transaction_views(list@)[i as int] == wanted@);
            return true;
        }
        i += 1;
    }
    false
}

/// A copy of `list`, transaction by transaction.
pub fn clone_transactions(list: &Vec<Transaction>) -> (copy: Vec<Transaction>)
    ensures
        transaction_views(copy@) == transaction_views(list@),
{
    let mut copy: Vec<Transaction> = Vec::new();
    let mut i: usize = 0;
    while i < list.len()
        invariant
            i <= list.len(),
            copy.len() == i,
            forall|k: int| 0 <= k < i ==> copy@[k]@ == list@[k]@,
        decreases list.len() - i,
    {
        copy.push(list[i].clone());
        i += 1;
    }
    assert(transaction_views(copy@) =~= transaction_views(list@));
    copy
}

/// A link of the chain: transactions sealed under a proof-of-work hash.
#[derive(Debug, PartialEq, Eq)]
pub struct Block {
    pub id: i32,
    pub timestamp: u32,
    pub nonce: i32,
    pub prev_hash: String,
    pub hash: String,
    pub difficulty: i32,
    pub transactions: Vec<Transaction>,
}

/// A block as a mathematical value.
pub struct BlockView {
    pub id: int,
    pub timestamp: int,
    pub nonce: int,
    pub prev_hash: Seq<char>,
    pub hash: Seq<char>,
    pub difficulty: int,
    pub transactions: Seq<TransactionView>,
}

impl View for Block {
    type V = BlockView;

    open spec fn view(&self) -> BlockView {
        BlockView {
            id: self.id as int,
            timestamp: self.timestamp as int,
            nonce: self.nonce as int,
            prev_hash: self.prev_hash@,
            hash: self.hash@,
            difficulty: self.difficulty as int,
            transactions: transaction_views(self.transactions@),
        }
    }
}

impl Clone for Block {
    fn clone(&self) -> (copy: Block)
        ensures
            copy@ == self@,
    {
        Block {
            id: self.id,
            timestamp: self.timestamp,
            nonce: self.nonce,
            prev_hash: self.prev_hash.clone(),
            hash: self.hash.clone(),
            difficulty: self.difficulty,
            transactions: clone_transactions(&self.transactions),
        }
    }
}

/// The views of a sequence of blocks, in order.
pub open spec fn block_views(blocks: Seq<Block>) -> Seq<BlockView> {
    blocks.map_values(|b: Block| b@)
}

/// A copy of `list`, block by block.
pub fn clone_blocks(list: &Vec<Block>) -> (copy: Vec<Block>)
    ensures
        block_views(copy@) == block_views(list@),
{
    let mut copy: Vec<Block> = Vec::new();
    let mut i: usize = 0;
    while i < list.len()
        invariant
            i <= list.len(),
            copy.len() == i,
            forall|k: int| 0 <= k < i ==> copy@[k]@ == list@[k]@,
        decreases list.len() - i,
    {
        copy.push(list[i].clone());
        i += 1;
    }
    assert(block_views(copy@) =~= block_views(list@));
    copy
}

/// The address under which a node is known to its peers.
#[derive(Debug, PartialEq, Eq)]
pub struct NodeInfo {
    pub id: String,
    pub ip: String,
    pub port: u32,
}

/// A peer address as a mathematical value.
pub struct NodeInfoView {
    pub id: Seq<char>,
    pub ip: Seq<char>,
    pub port: int,
}

impl View for NodeInfo {
    type V = NodeInfoView;

    open spec fn view(&self) -> NodeInfoView {
        NodeInfoView { id: self.id@, ip: self.ip@, port: self.port as int }
    }
}

impl Clone for NodeInfo {
    fn clone(&self) -> (copy: NodeInfo)
        ensures
            copy@ == self@,
    {
        NodeInfo { id: self.id.clone(), ip: self.ip.clone(), port: self.port }
    }
}

/// The views of a sequence of peer addresses, in order.
pub open spec fn node_views(nodes: Seq<NodeInfo>) -> Seq<NodeInfoView> {
    nodes.map_values(|n: NodeInfo| n@)
}

/// A copy of `list`, address by address.
pub fn clone_nodes(list: &Vec<NodeInfo>) -> (copy: Vec<NodeInfo>)
    ensures
        node_views(copy@) == node_views(list@),
{
    let mut copy: Vec<NodeInfo> = Vec::new();
    let mut i: usize = 0;
    while i < list.len()
        invariant
            i <= list.len(),
            copy.len() == i,
            forall|k: int| 0 <= k < i ==> copy@[k]@ == list@[k]@,
        decreases list.len() - i,
    {
        copy.push(list[i].clone());
        i += 1;
    }
    assert(node_views(copy@) =~= node_views(list@));
    copy
}

/// The answer to a node that joins: the roster, the chain and the pool of
/// the node that was asked.
#[derive(Debug, PartialEq, Eq)]
pub struct JoinNetworkResponse {
    pub nodes: Vec<NodeInfo>,
    pub chain: Vec<Block>,
    pub transactions: Vec<Transaction>,
}

/// A joining answer as a mathematical value.
pub struct JoinNetworkResponseView {
    pub nodes: Seq<NodeInfoView>,
    pub chain: Seq<BlockView>,
    pub transactions: Seq<TransactionView>,
}

impl View for JoinNetworkResponse {
    type V = JoinNetworkResponseView;

    open spec fn view(&self) -> JoinNetworkResponseView {
        JoinNetworkResponseView {
            nodes: node_views(self.nodes@),
            chain: block_views(self.chain@),
            transactions: transaction_views(self.transactions@),
        }
    }
}

/// The answer to a chain segment: whether it was taken, and the length of
/// the receiver's chain.
#[derive(Clone, Copy, Debug, PartialEq, Eq)]
pub struct UpdateBlockchainResponse {
    pub success: bool,
    pub chain_length: usize,
}

/// The answer to transactions that were handed in.
#[derive(Clone, Copy, Debug, PartialEq, Eq)]
pub struct UpdateTransactionResponse {
    pub success: bool,
}

} // verus!
