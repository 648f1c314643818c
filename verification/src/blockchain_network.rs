//! The plain form of a network's shared state: a roster and a chain that
//! grows block by block.

use crate::models::blockchain::ground;
use crate::node::{block_views, clone_nodes, node_views, Block, BlockView, NodeInfo, NodeInfoView};
use vstd::prelude::*;

verus! {

/// The list of nodes and the chain.
#[derive(Debug, PartialEq, Eq)]
pub struct BlockchainNetwork {
    pub nodes: Vec<NodeInfo>,
    pub blockchain: Vec<Block>,
}

/// The roster and the chain as a mathematical value.
pub struct BlockchainNetworkView {
    pub nodes: Seq<NodeInfoView>,
    pub blockchain: Seq<BlockView>,
}

impl View for BlockchainNetwork {
    type V = BlockchainNetworkView;

    open spec fn view(&self) -> BlockchainNetworkView {
        BlockchainNetworkView {
            nodes: node_views(self.nodes@),
            blockchain: block_views(self.blockchain@),
        }
    }
}

/// Whether `block` continues `chain`: its id follows that of the last block
/// and its `prev_hash` is the last block's hash. The first block of a chain
/// has id 0 and an empty `prev_hash`.
pub open spec fn continues(chain: Seq<BlockView>, block: BlockView) -> bool {
    let last = if chain.len() == 0 {
        ground(0)
    } else {
        chain.last()
    };
    last.id + 1 == block.id && last.hash == block.prev_hash
}

impl BlockchainNetwork {
    /// Check if the block continues the chain.
    pub fn check_block_validity(&self, block: &Block) -> (valid: bool)
        ensures
            valid == continues(self@.blockchain, block@),
    {
        if self.blockchain.len() == 0 {
            let blank = block.prev_hash.as_str().is_empty();
            assert(blank == (block@.prev_hash =~= Seq::<char>::empty()));
            block.id == 0 && blank
        } else {
            let last = &self.blockchain[self.blockchain.len() - 1];
            assert(self@.blockchain.last() == last@);
            if last.id == i32::MAX {
                return false;
            }
            last.id + 1 == block.id && last.hash == block.prev_hash
        }
    }

    /// Add the block to the end of the chain.
    pub fn add_block_to_blockchain(&mut self, block: Block)
        ensures
            final(self)@.blockchain == old(self)@.blockchain.push(block@),
            final(self)@.nodes == old(self)@.nodes,
    {
        let ghost before = self.blockchain@;
        self.blockchain.push(block);
        assert(block_views(self.blockchain@) =~= block_views(before).push(block@));
    }

    /// Takes a node into the roster and answers with the roster, the new
    /// node at its end.
    pub fn join_network(&mut self, node: NodeInfo) -> (nodes: Vec<NodeInfo>)
        ensures
            final(self)@.nodes == old(self)@.nodes.push(node@),
            final(self)@.blockchain == old(self)@.blockchain,
            node_views(nodes@) == final(self)@.nodes,
    {
        let ghost before = self.nodes@;
        self.nodes.push(node);
        assert(node_views(self.nodes@) =~= node_views(before).push(node@));
        clone_nodes(&self.nodes)
    }
}

impl Default for BlockchainNetwork {
    fn default() -> (network: BlockchainNetwork)
        ensures
            network@.nodes == Seq::<NodeInfoView>::empty(),
            network@.blockchain == Seq::<BlockView>::empty(),
    {
        let network = BlockchainNetwork { nodes: Vec::new(), blockchain: Vec::new() };
        assert(network@.nodes =~= Seq::<NodeInfoView>::empty());
        assert(network@.blockchain =~= Seq::<BlockView>::empty());
        network
    }
}

} // verus!
