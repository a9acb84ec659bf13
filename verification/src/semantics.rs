//! The mathematical model of the graph: its state, its structural
//! consistency invariant, and one transition function per operation. The
//! engine's contracts say that each call realises the matching transition;
//! the laws are stated and proved over these functions.

use vstd::prelude::*;
use crate::model::FlowChangesSpec;
use crate::model::FlowSpec;
use crate::model::NodeChangesSpec;
use crate::model::NodeSpec;
use crate::model::NodeViewSpec;

verus! {

/// Mathematical value of the whole graph: the node map, the flow map, and
/// the optional home designation.
pub ghost struct SummitsSpec {
    pub nodes: Map<Seq<char>, NodeSpec>,
    pub flows: Map<(Seq<char>, Seq<char>), FlowSpec>,
    pub home: Option<Seq<char>>,
}

/// The predicate "differs from `x`", used to retract an identifier from an
/// adjacency list.
pub open spec fn ne_pred(x: Seq<char>) -> spec_fn(Seq<char>) -> bool {
    |y: Seq<char>| y != x
}

/// Structural consistency: every flow's endpoints are live and its record
/// matches its key, every node record matches its key, the adjacency lists
/// mirror the flow map exactly, and no adjacency list repeats an entry.
///
/// The home designation is deliberately unconstrained: it is set without an
/// existence check and may name an absent node.
pub open spec fn inv(s: SummitsSpec) -> bool {
    &&& forall|k: (Seq<char>, Seq<char>)| #[trigger] s.flows.dom().contains(k) ==> {
        &&& s.nodes.dom().contains(k.0)
        &&& s.nodes.dom().contains(k.1)
        &&& s.flows[k].from == k.0
        &&& s.flows[k].into == k.1
    }
    &&& forall|id: Seq<char>| #[trigger] s.nodes.dom().contains(id) ==> s.nodes[id].id == id
    &&& forall|id: Seq<char>, x: Seq<char>|
        s.nodes.dom().contains(id) ==> ((#[trigger] s.nodes[id].flows_into.contains(x))
            <==> s.flows.dom().contains((id, x)))
    &&& forall|id: Seq<char>, x: Seq<char>|
        s.nodes.dom().contains(id) ==> ((#[trigger] s.nodes[id].flows_from.contains(x))
            <==> s.flows.dom().contains((x, id)))
    &&& forall|id: Seq<char>, x: Seq<char>|
        s.nodes.dom().contains(id) && #[trigger] s.flows.dom().contains((id, x))
            ==> s.nodes[id].flows_into.contains(x)
    &&& forall|id: Seq<char>, x: Seq<char>|
        s.nodes.dom().contains(id) && #[trigger] s.flows.dom().contains((x, id))
            ==> s.nodes[id].flows_from.contains(x)
    &&& forall|id: Seq<char>| #[trigger] s.nodes.dom().contains(id)
        ==> s.nodes[id].flows_into.no_duplicates() && s.nodes[id].flows_from.no_duplicates()
}

/// A node may be created exactly when its id is free.
pub open spec fn create_node_allowed(s: SummitsSpec, id: Seq<char>) -> bool {
    !s.nodes.dom().contains(id)
}

/// Creating a node adds a record with empty adjacency lists and an empty
/// manager list; nothing else moves.
pub open spec fn spec_create_node(
    s: SummitsSpec,
    id: Seq<char>,
    title: Seq<char>,
    notes: Seq<char>,
    deposit: u128,
    owner: Seq<char>,
) -> SummitsSpec {
    SummitsSpec {
        nodes: s.nodes.insert(
            id,
            NodeSpec {
                id,
                title,
                notes,
                deposit,
                owner,
                managers: Seq::empty(),
                flows_into: Seq::empty(),
                flows_from: Seq::empty(),
            },
        ),
        ..s
    }
}

/// A deposit is representable exactly when the sum stays a balance.
pub open spec fn deposit_allowed(s: SummitsSpec, id: Seq<char>, value: u128) -> bool {
    &&& s.nodes.dom().contains(id)
    &&& s.nodes[id].deposit + value <= u128::MAX
}

/// Depositing raises the node's balance by the value; nothing else moves.
pub open spec fn spec_deposit(s: SummitsSpec, id: Seq<char>, value: u128) -> SummitsSpec {
    let n = s.nodes[id];
    SummitsSpec {
        nodes: s.nodes.insert(id, NodeSpec { deposit: (n.deposit + value) as u128, ..n }),
        ..s
    }
}

/// A withdrawal is representable exactly when the balance covers it.
pub open spec fn withdraw_allowed(s: SummitsSpec, id: Seq<char>, value: u128) -> bool {
    &&& s.nodes.dom().contains(id)
    &&& value <= s.nodes[id].deposit
}

/// Withdrawing lowers the node's balance by the value; nothing else moves.
pub open spec fn spec_withdraw(s: SummitsSpec, id: Seq<char>, value: u128) -> SummitsSpec {
    let n = s.nodes[id];
    SummitsSpec {
        nodes: s.nodes.insert(id, NodeSpec { deposit: (n.deposit - value) as u128, ..n }),
        ..s
    }
}

/// Sparse patch of a node: only the fields present in the patch change.
pub open spec fn patched_node(n: NodeSpec, ch: NodeChangesSpec) -> NodeSpec {
    NodeSpec {
        title: match ch.title {
            Some(t) => t,
            None => n.title,
        },
        notes: match ch.notes {
            Some(x) => x,
            None => n.notes,
        },
        deposit: match ch.deposit {
            Some(d) => d,
            None => n.deposit,
        },
        ..n
    }
}

/// Updating a node re-inserts its patched record; nothing else moves.
pub open spec fn spec_change_node(s: SummitsSpec, id: Seq<char>, ch: NodeChangesSpec) -> SummitsSpec {
    SummitsSpec { nodes: s.nodes.insert(id, patched_node(s.nodes[id], ch)), ..s }
}

/// A node with every occurrence of `id` retracted from both adjacency lists.
pub open spec fn scrubbed(n: NodeSpec, id: Seq<char>) -> NodeSpec {
    NodeSpec {
        flows_into: n.flows_into.filter(ne_pred(id)),
        flows_from: n.flows_from.filter(ne_pred(id)),
        ..n
    }
}

/// A node may be removed exactly when it exists and is not the home node.
pub open spec fn remove_node_allowed(s: SummitsSpec, id: Seq<char>) -> bool {
    &&& s.home != Some(id)
    &&& s.nodes.dom().contains(id)
}

/// Removing a node drops its record, drops every flow incident to it, and
/// retracts it from every remaining adjacency list.
pub open spec fn spec_remove_node(s: SummitsSpec, id: Seq<char>) -> SummitsSpec {
    SummitsSpec {
        nodes: Map::new(
            |k: Seq<char>| s.nodes.dom().contains(k) && k != id,
            |k: Seq<char>| scrubbed(s.nodes[k], id),
        ),
        flows: Map::new(
            |k: (Seq<char>, Seq<char>)| s.flows.dom().contains(k) && k.0 != id && k.1 != id,
            |k: (Seq<char>, Seq<char>)| s.flows[k],
        ),
        home: s.home,
    }
}

/// Creating a flow records the edge and appends each endpoint to the other
/// endpoint's adjacency list; a self-loop appends to both lists of the one
/// node.
pub open spec fn spec_create_flow(
    s: SummitsSpec,
    from: Seq<char>,
    into: Seq<char>,
    dx: i64,
    dy: i64,
    notes: Seq<char>,
    share: i64,
) -> SummitsSpec {
    let f = FlowSpec { from, into, dx, dy, notes, share };
    let nf = s.nodes[from];
    if from == into {
        let n2 = NodeSpec {
            flows_into: nf.flows_into.push(into),
            flows_from: nf.flows_from.push(from),
            ..nf
        };
        SummitsSpec {
            nodes: s.nodes.insert(from, n2),
            flows: s.flows.insert((from, into), f),
            home: s.home,
        }
    } else {
        let ni = s.nodes[into];
        let nf2 = NodeSpec { flows_into: nf.flows_into.push(into), ..nf };
        let ni2 = NodeSpec { flows_from: ni.flows_from.push(from), ..ni };
        SummitsSpec {
            nodes: s.nodes.insert(from, nf2).insert(into, ni2),
            flows: s.flows.insert((from, into), f),
            home: s.home,
        }
    }
}

/// A node with the flow (`from`, `into`) retracted from whichever of its
/// adjacency lists mentions it; `k` is the node's key.
pub open spec fn retracted(
    k: Seq<char>,
    n: NodeSpec,
    from: Seq<char>,
    into: Seq<char>,
) -> NodeSpec {
    NodeSpec {
        flows_into: if k == from {
            n.flows_into.filter(ne_pred(into))
        } else {
            n.flows_into
        },
        flows_from: if k == into {
            n.flows_from.filter(ne_pred(from))
        } else {
            n.flows_from
        },
        ..n
    }
}

/// Removing a flow drops its record and retracts the corresponding entry
/// from both endpoints' adjacency lists.
pub open spec fn spec_remove_flow(s: SummitsSpec, from: Seq<char>, into: Seq<char>) -> SummitsSpec {
    SummitsSpec {
        nodes: Map::new(
            |k: Seq<char>| s.nodes.dom().contains(k),
            |k: Seq<char>| retracted(k, s.nodes[k], from, into),
        ),
        flows: s.flows.remove((from, into)),
        home: s.home,
    }
}

/// Sparse patch of a flow: only the fields present in the patch change.
pub open spec fn patched_flow(f: FlowSpec, ch: FlowChangesSpec) -> FlowSpec {
    FlowSpec {
        dx: match ch.dx {
            Some(dx) => dx,
            None => f.dx,
        },
        dy: match ch.dy {
            Some(dy) => dy,
            None => f.dy,
        },
        notes: match ch.notes {
            Some(x) => x,
            None => f.notes,
        },
        share: match ch.share {
            Some(sh) => sh,
            None => f.share,
        },
        ..f
    }
}

/// Updating a flow re-inserts its patched record; nothing else moves.
pub open spec fn spec_change_flow(
    s: SummitsSpec,
    key: (Seq<char>, Seq<char>),
    ch: FlowChangesSpec,
) -> SummitsSpec {
    SummitsSpec { flows: s.flows.insert(key, patched_flow(s.flows[key], ch)), ..s }
}

/// One step of a batched flow update: a present edge is patched, an absent
/// one leaves the state untouched.
pub open spec fn spec_bulk_step(
    s: SummitsSpec,
    key: (Seq<char>, Seq<char>),
    ch: FlowChangesSpec,
) -> SummitsSpec {
    if s.flows.dom().contains(key) {
        spec_change_flow(s, key, ch)
    } else {
        s
    }
}

/// The state after a batched flow update: every item applied independently,
/// in order, absent edges skipped.
pub open spec fn spec_bulk_state(
    s: SummitsSpec,
    items: Seq<((Seq<char>, Seq<char>), FlowChangesSpec)>,
) -> SummitsSpec
    decreases items.len(),
{
    if items.len() == 0 {
        s
    } else {
        spec_bulk_step(spec_bulk_state(s, items.drop_last()), items.last().0, items.last().1)
    }
}

/// The keys of the items a batched flow update fails on, in batch order: an
/// item fails exactly when its edge is absent when its turn comes.
pub open spec fn spec_bulk_failed(
    s: SummitsSpec,
    items: Seq<((Seq<char>, Seq<char>), FlowChangesSpec)>,
) -> Seq<(Seq<char>, Seq<char>)>
    decreases items.len(),
{
    if items.len() == 0 {
        Seq::empty()
    } else {
        let prev = spec_bulk_failed(s, items.drop_last());
        if spec_bulk_state(s, items.drop_last()).flows.dom().contains(items.last().0) {
            prev
        } else {
            prev.push(items.last().0)
        }
    }
}

/// Designating the home node records the id unconditionally; nothing else
/// moves.
pub open spec fn spec_set_home(s: SummitsSpec, id: Seq<char>) -> SummitsSpec {
    SummitsSpec { home: Some(id), ..s }
}

/// The redacted projection of a node record that `get_node` returns.
pub open spec fn node_view_of(n: NodeSpec) -> NodeViewSpec {
    NodeViewSpec { id: n.id, title: n.title, notes: n.notes, deposit: n.deposit, owner: n.owner }
}

/// The flows incident to a node, as `get_node_flows` reports them: the
/// incoming flows in adjacency order, then the outgoing ones.
pub open spec fn node_flows_of(s: SummitsSpec, id: Seq<char>) -> Seq<FlowSpec> {
    let n = s.nodes[id];
    n.flows_from.map_values(|p: Seq<char>| s.flows[(p, id)]) + n.flows_into.map_values(
        |q: Seq<char>| s.flows[(id, q)],
    )
}

} // verus!
