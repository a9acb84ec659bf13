//! Data model: nodes, flows, their identifiers, sparse-patch messages, and
//! the mathematical views that the engine's contracts are stated over.
//!
//! Balances are held in unsigned 128-bit minor units. The layout offsets
//! (`dx`, `dy`) and the allocation weight (`share`) of a flow are fixed-point
//! integers that the engine carries but never interprets.

use vstd::prelude::*;

verus! {

/// A node's unique identifier: an opaque, case-sensitive string.
pub type NodeId = String;

/// Placeholder capability entry on a node; the engine attaches no semantics
/// to it beyond carrying the account name.
pub struct Manager {
    pub account: String,
}

impl View for Manager {
    type V = Seq<char>;

    open spec fn view(&self) -> Seq<char> {
        self.account@
    }
}

impl Clone for Manager {
    fn clone(&self) -> (r: Self)
        ensures
            r == *self,
    {
        Manager { account: self.account.clone() }
    }
}

/// The key of a flow: an ordered pair of node identifiers. `(a, b)` and
/// `(b, a)` are distinct edges; at most one flow exists per ordered pair.
#[derive(Debug, PartialEq, Eq)]
pub struct FlowId {
    pub from: NodeId,
    pub into: NodeId,
}

impl View for FlowId {
    type V = (Seq<char>, Seq<char>);

    open spec fn view(&self) -> (Seq<char>, Seq<char>) {
        (self.from@, self.into@)
    }
}

impl Clone for FlowId {
    fn clone(&self) -> (r: Self)
        ensures
            r == *self,
    {
        FlowId { from: self.from.clone(), into: self.into.clone() }
    }
}

/// Mathematical value of a [`Flow`].
pub ghost struct FlowSpec {
    pub from: Seq<char>,
    pub into: Seq<char>,
    pub dx: i64,
    pub dy: i64,
    pub notes: Seq<char>,
    pub share: i64,
}

/// A directed, weighted edge between two nodes.
#[derive(Debug, PartialEq, Eq)]
pub struct Flow {
    pub id: FlowId,
    pub dx: i64,
    pub dy: i64,
    pub notes: String,
    pub share: i64,
}

impl View for Flow {
    type V = FlowSpec;

    open spec fn view(&self) -> FlowSpec {
        FlowSpec {
            from: self.id.from@,
            into: self.id.into@,
            dx: self.dx,
            dy: self.dy,
            notes: self.notes@,
            share: self.share,
        }
    }
}

impl Clone for Flow {
    fn clone(&self) -> (r: Self)
        ensures
            r == *self,
    {
        Flow {
            id: self.id.clone(),
            dx: self.dx,
            dy: self.dy,
            notes: self.notes.clone(),
            share: self.share,
        }
    }
}

/// The mathematical values of a sequence of identifiers.
pub open spec fn string_views(s: Seq<String>) -> Seq<Seq<char>> {
    s.map_values(|x: String| x@)
}

/// The mathematical values of a sequence of managers.
pub open spec fn manager_views(s: Seq<Manager>) -> Seq<Seq<char>> {
    s.map_values(|m: Manager| m@)
}

/// Mathematical value of a [`Node`].
pub ghost struct NodeSpec {
    pub id: Seq<char>,
    pub title: Seq<char>,
    pub notes: Seq<char>,
    pub deposit: u128,
    pub owner: Seq<char>,
    pub managers: Seq<Seq<char>>,
    pub flows_into: Seq<Seq<char>>,
    pub flows_from: Seq<Seq<char>>,
}

/// A ledger-holding vertex: balance, metadata, and the two adjacency lists
/// that cache its incident edges (`flows_into`: nodes it sends flow to;
/// `flows_from`: nodes that send flow to it).
pub struct Node {
    pub id: NodeId,
    pub title: String,
    pub notes: String,
    pub deposit: u128,
    pub owner: String,
    pub managers: Vec<Manager>,
    pub flows_into: Vec<NodeId>,
    pub flows_from: Vec<NodeId>,
}

impl View for Node {
    type V = NodeSpec;

    open spec fn view(&self) -> NodeSpec {
        NodeSpec {
            id: self.id@,
            title: self.title@,
            notes: self.notes@,
            deposit: self.deposit,
            owner: self.owner@,
            managers: manager_views(self.managers@),
            flows_into: string_views(self.flows_into@),
            flows_from: string_views(self.flows_from@),
        }
    }
}

impl Clone for Node {
    fn clone(&self) -> (r: Self)
        ensures
            r@ == self@,
            r.id@ == self.id@,
    {
        let managers = self.managers.clone();
        let flows_into = self.flows_into.clone();
        let flows_from = self.flows_from.clone();
        proof {
            assert(managers@ =~= self.managers@);
            assert(flows_into@ =~= self.flows_into@);
            assert(flows_from@ =~= self.flows_from@);
        }
        Node {
            id: self.id.clone(),
            title: self.title.clone(),
            notes: self.notes.clone(),
            deposit: self.deposit,
            owner: self.owner.clone(),
            managers,
            flows_into,
            flows_from,
        }
    }
}

/// Mathematical value of a [`NodeView`].
pub ghost struct NodeViewSpec {
    pub id: Seq<char>,
    pub title: Seq<char>,
    pub notes: Seq<char>,
    pub deposit: u128,
    pub owner: Seq<char>,
}

/// The redacted projection of a node that queries return: the adjacency
/// lists are never exposed.
#[derive(Debug, PartialEq, Eq)]
pub struct NodeView {
    pub id: NodeId,
    pub title: String,
    pub notes: String,
    pub deposit: u128,
    pub owner: String,
}

impl View for NodeView {
    type V = NodeViewSpec;

    open spec fn view(&self) -> NodeViewSpec {
        NodeViewSpec {
            id: self.id@,
            title: self.title@,
            notes: self.notes@,
            deposit: self.deposit,
            owner: self.owner@,
        }
    }
}

/// Mathematical value of a [`NodeChanges`].
pub ghost struct NodeChangesSpec {
    pub title: Option<Seq<char>>,
    pub notes: Option<Seq<char>>,
    pub deposit: Option<u128>,
}

/// A sparse patch for a node: absent fields mean "leave unchanged".
pub struct NodeChanges {
    pub title: Option<String>,
    pub notes: Option<String>,
    pub deposit: Option<u128>,
}

impl View for NodeChanges {
    type V = NodeChangesSpec;

    open spec fn view(&self) -> NodeChangesSpec {
        NodeChangesSpec {
            title: match self.title {
                Some(t) => Some(t@),
                None => None,
            },
            notes: match self.notes {
                Some(n) => Some(n@),
                None => None,
            },
            deposit: self.deposit,
        }
    }
}

/// Mathematical value of a [`FlowChanges`].
pub ghost struct FlowChangesSpec {
    pub dx: Option<i64>,
    pub dy: Option<i64>,
    pub notes: Option<Seq<char>>,
    pub share: Option<i64>,
}

/// A sparse patch for a flow: absent fields mean "leave unchanged".
pub struct FlowChanges {
    pub dx: Option<i64>,
    pub dy: Option<i64>,
    pub notes: Option<String>,
    pub share: Option<i64>,
}

impl View for FlowChanges {
    type V = FlowChangesSpec;

    open spec fn view(&self) -> FlowChangesSpec {
        FlowChangesSpec {
            dx: self.dx,
            dy: self.dy,
            notes: match self.notes {
                Some(n) => Some(n@),
                None => None,
            },
            share: self.share,
        }
    }
}

impl Clone for FlowChanges {
    fn clone(&self) -> (r: Self)
        ensures
            r@ == self@,
    {
        FlowChanges {
            dx: self.dx,
            dy: self.dy,
            notes: match &self.notes {
                Some(n) => Some(n.clone()),
                None => None,
            },
            share: self.share,
        }
    }
}

/// The mathematical values of a sequence of flow keys.
pub open spec fn flow_id_views(s: Seq<FlowId>) -> Seq<(Seq<char>, Seq<char>)> {
    s.map_values(|f: FlowId| f@)
}

/// One item of a batched flow update: the edge key and its patch.
pub struct WrappedFlowChanges {
    pub id: FlowId,
    pub changes: FlowChanges,
}

impl View for WrappedFlowChanges {
    type V = ((Seq<char>, Seq<char>), FlowChangesSpec);

    open spec fn view(&self) -> ((Seq<char>, Seq<char>), FlowChangesSpec) {
        (self.id@, self.changes@)
    }
}

/// The mathematical values of a sequence of batch items.
pub open spec fn wrapped_views(
    s: Seq<WrappedFlowChanges>,
) -> Seq<((Seq<char>, Seq<char>), FlowChangesSpec)> {
    s.map_values(|w: WrappedFlowChanges| w@)
}

} // verus!
