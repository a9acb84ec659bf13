//! Laws of the graph: properties that hold of every state and input, proved
//! over the semantic model that the engine's contracts are stated in.

use vstd::prelude::*;
use crate::model::FlowChangesSpec;
use crate::model::NodeChangesSpec;
use crate::model::NodeSpec;
use crate::semantics::SummitsSpec;
use crate::semantics::create_node_allowed;
use crate::semantics::deposit_allowed;
use crate::semantics::node_view_of;
use crate::semantics::remove_node_allowed;
use crate::semantics::spec_bulk_failed;
use crate::semantics::spec_bulk_state;
use crate::semantics::spec_change_flow;
use crate::semantics::spec_change_node;
use crate::semantics::spec_create_node;
use crate::semantics::spec_deposit;
use crate::semantics::spec_remove_node;
use crate::semantics::spec_set_home;
use crate::semantics::spec_withdraw;

verus! {

/// Uniqueness: once a node is created under an id, the id is taken, so a
/// second creation under the same id is refused (`create_node` fails with a
/// conflict exactly when creation is not allowed), and the stored record
/// keeps the fields of the first call.
pub proof fn lemma_create_node_unique(
    s: SummitsSpec,
    id: Seq<char>,
    title: Seq<char>,
    notes: Seq<char>,
    deposit: u128,
    owner: Seq<char>,
)
    requires
        create_node_allowed(s, id),
    ensures
        ({
            let s1 = spec_create_node(s, id, title, notes, deposit, owner);
            &&& !create_node_allowed(s1, id)
            &&& s1.nodes[id].title == title
            &&& s1.nodes[id].notes == notes
            &&& s1.nodes[id].deposit == deposit
            &&& s1.nodes[id].owner == owner
        }),
{
}

/// Balance round-trip: depositing a representable value and then withdrawing
/// the same value returns the graph to exactly the state it started in.
pub proof fn lemma_balance_round_trip(s: SummitsSpec, id: Seq<char>, v: u128)
    requires
        deposit_allowed(s, id, v),
    ensures
        spec_withdraw(spec_deposit(s, id, v), id, v) == s,
{
    let s1 = spec_deposit(s, id, v);
    let s2 = spec_withdraw(s1, id, v);
    assert(s2.nodes[id] == s.nodes[id]);
    assert(s2.nodes =~= s.nodes);
    assert(s2 == s);
}

/// Sparse patch: a patch that carries only a title changes only the title;
/// the node's notes and deposit, and every other node, are untouched.
pub proof fn lemma_sparse_patch_title(s: SummitsSpec, id: Seq<char>, t: Seq<char>)
    requires
        s.nodes.dom().contains(id),
    ensures
        ({
            let ch = NodeChangesSpec { title: Some(t), notes: None, deposit: None };
            let s1 = spec_change_node(s, id, ch);
            &&& s1.nodes[id].title == t
            &&& s1.nodes[id].notes == s.nodes[id].notes
            &&& s1.nodes[id].deposit == s.nodes[id].deposit
            &&& s1.nodes[id].owner == s.nodes[id].owner
            &&& forall|k: Seq<char>|
                k != id && #[trigger] s.nodes.dom().contains(k) ==> s1.nodes[k] == s.nodes[k]
            &&& s1.flows == s.flows
            &&& s1.home == s.home
        }),
{
}

/// Cascading delete: removing a node removes every flow incident to it and
/// leaves the other nodes in place with their balances unchanged.
pub proof fn lemma_cascading_delete(s: SummitsSpec, a: Seq<char>, b: Seq<char>, c: Seq<char>)
    requires
        s.nodes.dom().contains(a),
        s.nodes.dom().contains(c),
        a != b,
        c != b,
    ensures
        ({
            let s1 = spec_remove_node(s, b);
            &&& !s1.flows.dom().contains((a, b))
            &&& !s1.flows.dom().contains((b, c))
            &&& !s1.nodes.dom().contains(b)
            &&& s1.nodes.dom().contains(a) && s1.nodes[a].deposit == s.nodes[a].deposit
            &&& s1.nodes.dom().contains(c) && s1.nodes[c].deposit == s.nodes[c].deposit
        }),
{
}

/// Anchor protection: after designating a home node its removal is refused,
/// and after the designation moves to another id the original node may be
/// removed again.
pub proof fn lemma_home_node_protection(s: SummitsSpec, h: Seq<char>, h2: Seq<char>)
    requires
        s.nodes.dom().contains(h),
        h2 != h,
    ensures
        !remove_node_allowed(spec_set_home(s, h), h),
        remove_node_allowed(spec_set_home(spec_set_home(s, h), h2), h),
{
}

/// Batch partial failure: in a batch of a valid item, an invalid one and
/// another valid one, both valid items apply in order, the invalid item's
/// target stays absent, and the aggregate failure names exactly the invalid
/// item's key.
pub proof fn lemma_bulk_partial_failure(
    s: SummitsSpec,
    w1: ((Seq<char>, Seq<char>), FlowChangesSpec),
    w2: ((Seq<char>, Seq<char>), FlowChangesSpec),
    w3: ((Seq<char>, Seq<char>), FlowChangesSpec),
)
    requires
        s.flows.dom().contains(w1.0),
        !s.flows.dom().contains(w2.0),
        s.flows.dom().contains(w3.0),
    ensures
        ({
            let items = seq![w1, w2, w3];
            &&& spec_bulk_state(s, items) == spec_change_flow(
                spec_change_flow(s, w1.0, w1.1),
                w3.0,
                w3.1,
            )
            &&& spec_bulk_failed(s, items) == seq![w2.0]
            &&& !spec_bulk_state(s, items).flows.dom().contains(w2.0)
        }),
{
    reveal_with_fuel(spec_bulk_state, 5);
    reveal_with_fuel(spec_bulk_failed, 5);
    let items = seq![w1, w2, w3];
    let items2 = seq![w1, w2];
    let items1 = seq![w1];
    assert(items.drop_last() =~= items2);
    assert(items2.drop_last() =~= items1);
    assert(items1.drop_last() =~= Seq::<((Seq<char>, Seq<char>), FlowChangesSpec)>::empty());
    let t1 = spec_change_flow(s, w1.0, w1.1);
    assert(t1.flows.dom() =~= s.flows.dom());
    assert(spec_bulk_state(s, items1) == t1);
    assert(spec_bulk_state(s, items2) == t1);
    let t3 = spec_change_flow(t1, w3.0, w3.1);
    assert(t3.flows.dom() =~= s.flows.dom());
    assert(spec_bulk_state(s, items) == t3);
    assert(spec_bulk_failed(s, items1) =~= Seq::<(Seq<char>, Seq<char>)>::empty());
    assert(spec_bulk_failed(s, items2) =~= seq![w2.0]);
    assert(spec_bulk_failed(s, items) =~= seq![w2.0]);
}

/// Query redaction: the view that `get_node` returns is a function of the
/// redacted fields alone — two records that agree on id, title, notes,
/// deposit and owner project to the same view, whatever their adjacency
/// lists or managers hold.
pub proof fn lemma_query_redaction(n1: NodeSpec, n2: NodeSpec)
    requires
        n1.id == n2.id,
        n1.title == n2.title,
        n1.notes == n2.notes,
        n1.deposit == n2.deposit,
        n1.owner == n2.owner,
    ensures
        node_view_of(n1) == node_view_of(n2),
{
}

} // verus!
