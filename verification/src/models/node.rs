//! A node: its identity, its roster of peers and its ledger.

use crate::crypto::random_uuid;
use crate::models::blockchain::{Blockchain, BlockchainView, DEFAULT_DIFFICULTY};
use crate::models::network::{other_peers, peers_beside};
use crate::node::{node_views, JoinNetworkResponse, NodeInfo, NodeInfoView};
use vstd::prelude::*;
use vstd::string::StringExecFns;

verus! {

/// What one node holds: the peers it knows of, its ledger, and the address
/// and id under which it is known.
#[derive(Debug, PartialEq, Eq)]
pub struct Node {
    pub peers: Vec<NodeInfo>,
    pub blockchain: Blockchain,
    pub ip: String,
    pub port: u32,
    pub id: String,
}

/// A node as a mathematical value.
pub struct NodeView {
    pub peers: Seq<NodeInfoView>,
    pub blockchain: BlockchainView,
    pub ip: Seq<char>,
    pub port: int,
    pub id: Seq<char>,
}

impl View for Node {
    type V = NodeView;

    open spec fn view(&self) -> NodeView {
        NodeView {
            peers: node_views(self.peers@),
            blockchain: self.blockchain@,
            ip: self.ip@,
            port: self.port as int,
            id: self.id@,
        }
    }
}

/// A node that has just been made: it knows no peer, its ledger is empty,
/// and it listens on the loopback address.
pub open spec fn fresh_node(port: int, id: Seq<char>) -> NodeView {
    NodeView {
        peers: Seq::empty(),
        blockchain: BlockchainView {
            transactions: Seq::empty(),
            chain: Seq::empty(),
            difficulty: DEFAULT_DIFFICULTY as int,
        },
        ip: "[::1]"@,
        port,
        id,
    }
}

impl Node {
    /// A fresh node on `port` with the id `id`.
    pub fn with_id(port: u32, id: String) -> (node: Node)
        ensures
            node@ == fresh_node(port as int, id@),
    {
        let node = Node {
            peers: Vec::new(),
            blockchain: Blockchain::new(),
            ip: String::from_str("[::1]"),
            port,
            id,
        };
        assert(node@.peers =~= Seq::<NodeInfoView>::empty());
        node
    }

    /// A fresh node on `port` under a random id.
    pub fn new(port: u32) -> (node: Node)
        ensures
            node@ == fresh_node(port as int, node@.id),
    {
        Node::with_id(port, random_uuid())
    }

    /// The address under which this node is known to its peers.
    pub fn info(&self) -> (info: NodeInfo)
        ensures
            info@ == (NodeInfoView { id: self@.id, ip: self@.ip, port: self@.port }),
    {
        NodeInfo { id: self.id.clone(), ip: self.ip.clone(), port: self.port }
    }

    /// Starts a network of one: the node enters itself in its roster.
    pub fn start_alone(&mut self)
        ensures
            final(self)@ == (NodeView {
                peers: old(self)@.peers.push(
                    NodeInfoView { id: old(self)@.id, ip: old(self)@.ip, port: old(self)@.port },
                ),
                ..old(self)@
            }),
    {
        let info = self.info();
        let ghost before = self.peers@;
        self.peers.push(info);
        assert(node_views(self.peers@) =~= node_views(before).push(info@));
    }

    /// Takes over what the peer on `peer_port` answered to this node's
    /// joining: the answer's roster is added to the node's own, and the
    /// answer's chain and pool become the node's. The result names the peers
    /// of the answer that have not heard of this node yet: all but the node
    /// itself and the peer that answered, told apart by their ports.
    pub fn adopt(&mut self, reply: JoinNetworkResponse, peer_port: u32) -> (tell: Vec<NodeInfo>)
        ensures
            final(self)@ == (NodeView {
                peers: old(self)@.peers + reply@.nodes,
                blockchain: BlockchainView {
                    transactions: reply@.transactions,
                    chain: reply@.chain,
                    difficulty: old(self)@.blockchain.difficulty,
                },
                ..old(self)@
            }),
            node_views(tell@) == peers_beside(
                reply@.nodes,
                old(self)@.port,
                peer_port as int,
            ),
    {
        let tell = other_peers(&reply.nodes, self.port, peer_port);
        let ghost before = self.peers@;
        let mut nodes = reply.nodes;
        let ghost added = nodes@;
        self.peers.append(&mut nodes);
        assert(node_views(before + added) =~= node_views(before) + node_views(added));
        self.blockchain.chain = reply.chain;
        self.blockchain.transactions = reply.transactions;
        tell
    }
}

} // verus!
