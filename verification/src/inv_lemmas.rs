//! Each transition of the semantic model preserves the structural
//! consistency invariant. The engine's methods invoke these lemmas to carry
//! well-formedness through every mutation.

use vstd::prelude::*;
use crate::model::NodeSpec;
use crate::semantics::SummitsSpec;
use crate::semantics::inv;
use crate::semantics::ne_pred;
use crate::semantics::create_node_allowed;
use crate::semantics::patched_node;
use crate::semantics::retracted;
use crate::semantics::scrubbed;
use crate::semantics::spec_change_flow;
use crate::semantics::spec_change_node;
use crate::semantics::spec_create_flow;
use crate::semantics::spec_create_node;
use crate::semantics::spec_remove_flow;
use crate::semantics::spec_remove_node;
use crate::seq_facts::lemma_filter_all;
use crate::seq_facts::lemma_filter_contains_iff;
use crate::seq_facts::lemma_filter_no_dups;
use crate::seq_facts::lemma_no_dups_push;
use crate::seq_facts::lemma_push_contains;
use crate::model::NodeChangesSpec;
use crate::model::FlowChangesSpec;

verus! {

pub proof fn lemma_inv_create_node(
    s: SummitsSpec,
    id: Seq<char>,
    title: Seq<char>,
    notes: Seq<char>,
    deposit: u128,
    owner: Seq<char>,
)
    requires
        inv(s),
        create_node_allowed(s, id),
    ensures
        inv(spec_create_node(s, id, title, notes, deposit, owner)),
{
    let t = spec_create_node(s, id, title, notes, deposit, owner);
    assert forall|k: (Seq<char>, Seq<char>)| #[trigger] t.flows.dom().contains(k) implies !(k.0
        == id) && !(k.1 == id) by {
        assert(s.nodes.dom().contains(k.0));
        assert(s.nodes.dom().contains(k.1));
    }
    assert forall|nid: Seq<char>, x: Seq<char>| t.nodes.dom().contains(nid) implies ((
    #[trigger] t.nodes[nid].flows_into.contains(x)) <==> t.flows.dom().contains((nid, x))) by {
        if nid == id {
            assert(!t.nodes[nid].flows_into.contains(x));
        }
    }
    assert forall|nid: Seq<char>, x: Seq<char>| t.nodes.dom().contains(nid) implies ((
    #[trigger] t.nodes[nid].flows_from.contains(x)) <==> t.flows.dom().contains((x, nid))) by {
        if nid == id {
            assert(!t.nodes[nid].flows_from.contains(x));
        }
    }
}

/// Re-inserting a node record that keeps its id and both adjacency lists
/// preserves the invariant, whatever its other fields become.
pub proof fn lemma_inv_patch(s: SummitsSpec, id: Seq<char>, n2: NodeSpec)
    requires
        inv(s),
        s.nodes.dom().contains(id),
        n2.id == s.nodes[id].id,
        n2.flows_into == s.nodes[id].flows_into,
        n2.flows_from == s.nodes[id].flows_from,
    ensures
        inv(SummitsSpec { nodes: s.nodes.insert(id, n2), flows: s.flows, home: s.home }),
{
    let t = SummitsSpec { nodes: s.nodes.insert(id, n2), flows: s.flows, home: s.home };
    assert forall|nid: Seq<char>, x: Seq<char>| t.nodes.dom().contains(nid) implies ((
    #[trigger] t.nodes[nid].flows_into.contains(x)) <==> t.flows.dom().contains((nid, x))) by {
        assert(s.nodes[nid].flows_into.contains(x) <==> s.flows.dom().contains((nid, x)));
    }
    assert forall|nid: Seq<char>, x: Seq<char>| t.nodes.dom().contains(nid) implies ((
    #[trigger] t.nodes[nid].flows_from.contains(x)) <==> t.flows.dom().contains((x, nid))) by {
        assert(s.nodes[nid].flows_from.contains(x) <==> s.flows.dom().contains((x, nid)));
    }
    assert forall|nid: Seq<char>, x: Seq<char>|
        t.nodes.dom().contains(nid) && #[trigger] t.flows.dom().contains((nid, x)) implies t.nodes[nid].flows_into.contains(x) by {
        assert(s.nodes[nid].flows_into.contains(x));
    }
    assert forall|nid: Seq<char>, x: Seq<char>|
        t.nodes.dom().contains(nid) && #[trigger] t.flows.dom().contains((x, nid)) implies t.nodes[nid].flows_from.contains(x) by {
        assert(s.nodes[nid].flows_from.contains(x));
    }
}

pub proof fn lemma_inv_change_node(s: SummitsSpec, id: Seq<char>, ch: NodeChangesSpec)
    requires
        inv(s),
        s.nodes.dom().contains(id),
    ensures
        inv(spec_change_node(s, id, ch)),
{
    lemma_inv_patch(s, id, patched_node(s.nodes[id], ch));
    assert(spec_change_node(s, id, ch) == SummitsSpec {
        nodes: s.nodes.insert(id, patched_node(s.nodes[id], ch)),
        flows: s.flows,
        home: s.home,
    });
}

pub proof fn lemma_inv_change_flow(
    s: SummitsSpec,
    key: (Seq<char>, Seq<char>),
    ch: FlowChangesSpec,
)
    requires
        inv(s),
        s.flows.dom().contains(key),
    ensures
        inv(spec_change_flow(s, key, ch)),
{
    let t = spec_change_flow(s, key, ch);
    assert(t.flows.dom() =~= s.flows.dom());
    assert forall|nid: Seq<char>, x: Seq<char>| t.nodes.dom().contains(nid) implies ((
    #[trigger] t.nodes[nid].flows_into.contains(x)) <==> t.flows.dom().contains((nid, x))) by {
        assert(s.nodes[nid].flows_into.contains(x) <==> s.flows.dom().contains((nid, x)));
    }
    assert forall|nid: Seq<char>, x: Seq<char>| t.nodes.dom().contains(nid) implies ((
    #[trigger] t.nodes[nid].flows_from.contains(x)) <==> t.flows.dom().contains((x, nid))) by {
        assert(s.nodes[nid].flows_from.contains(x) <==> s.flows.dom().contains((x, nid)));
    }
    assert forall|nid: Seq<char>, x: Seq<char>|
        t.nodes.dom().contains(nid) && #[trigger] t.flows.dom().contains((nid, x)) implies t.nodes[nid].flows_into.contains(x) by {
        assert(s.flows.dom().contains((nid, x)));
    }
    assert forall|nid: Seq<char>, x: Seq<char>|
        t.nodes.dom().contains(nid) && #[trigger] t.flows.dom().contains((x, nid)) implies t.nodes[nid].flows_from.contains(x) by {
        assert(s.flows.dom().contains((x, nid)));
    }
}

pub proof fn lemma_inv_create_flow(
    s: SummitsSpec,
    from: Seq<char>,
    into: Seq<char>,
    dx: i64,
    dy: i64,
    notes: Seq<char>,
    share: i64,
)
    requires
        inv(s),
        s.nodes.dom().contains(from),
        s.nodes.dom().contains(into),
        !s.flows.dom().contains((from, into)),
    ensures
        inv(spec_create_flow(s, from, into, dx, dy, notes, share)),
{
    let t = spec_create_flow(s, from, into, dx, dy, notes, share);
    let nf = s.nodes[from];
    let ni = s.nodes[into];
    assert(!nf.flows_into.contains(into));
    assert(!ni.flows_from.contains(from));
    lemma_no_dups_push(nf.flows_into, into);
    lemma_no_dups_push(ni.flows_from, from);
    assert forall|nid: Seq<char>, x: Seq<char>| t.nodes.dom().contains(nid) implies ((
    #[trigger] t.nodes[nid].flows_into.contains(x)) <==> t.flows.dom().contains((nid, x))) by {
        if nid == from {
            lemma_push_contains(nf.flows_into, into, x);
            assert(nf.flows_into.contains(x) <==> s.flows.dom().contains((from, x)));
        } else {
            assert(s.nodes[nid].flows_into.contains(x) <==> s.flows.dom().contains((nid, x)));
        }
    }
    assert forall|nid: Seq<char>, x: Seq<char>| t.nodes.dom().contains(nid) implies ((
    #[trigger] t.nodes[nid].flows_from.contains(x)) <==> t.flows.dom().contains((x, nid))) by {
        if nid == into {
            lemma_push_contains(ni.flows_from, from, x);
            assert(ni.flows_from.contains(x) <==> s.flows.dom().contains((x, into)));
        } else {
            assert(s.nodes[nid].flows_from.contains(x) <==> s.flows.dom().contains((x, nid)));
        }
    }
    assert forall|nid: Seq<char>, x: Seq<char>|
        t.nodes.dom().contains(nid) && #[trigger] t.flows.dom().contains((nid, x)) implies t.nodes[nid].flows_into.contains(x) by {
        assert(t.nodes[nid].flows_into.contains(x) <==> t.flows.dom().contains((nid, x)));
    }
    assert forall|nid: Seq<char>, x: Seq<char>|
        t.nodes.dom().contains(nid) && #[trigger] t.flows.dom().contains((x, nid)) implies t.nodes[nid].flows_from.contains(x) by {
        assert(t.nodes[nid].flows_from.contains(x) <==> t.flows.dom().contains((x, nid)));
    }
}

pub proof fn lemma_inv_remove_flow(s: SummitsSpec, from: Seq<char>, into: Seq<char>)
    requires
        inv(s),
    ensures
        inv(spec_remove_flow(s, from, into)),
{
    let t = spec_remove_flow(s, from, into);
    assert forall|nid: Seq<char>| #[trigger] t.nodes.dom().contains(nid) implies t.nodes[nid]
        == retracted(nid, s.nodes[nid], from, into) by {}
    assert forall|nid: Seq<char>, x: Seq<char>| t.nodes.dom().contains(nid) implies ((
    #[trigger] t.nodes[nid].flows_into.contains(x)) <==> t.flows.dom().contains((nid, x))) by {
        if nid == from {
            lemma_filter_contains_iff(s.nodes[nid].flows_into, ne_pred(into), x);
        }
        assert(s.nodes[nid].flows_into.contains(x) <==> s.flows.dom().contains((nid, x)));
    }
    assert forall|nid: Seq<char>, x: Seq<char>| t.nodes.dom().contains(nid) implies ((
    #[trigger] t.nodes[nid].flows_from.contains(x)) <==> t.flows.dom().contains((x, nid))) by {
        if nid == into {
            lemma_filter_contains_iff(s.nodes[nid].flows_from, ne_pred(from), x);
        }
        assert(s.nodes[nid].flows_from.contains(x) <==> s.flows.dom().contains((x, nid)));
    }
    assert forall|nid: Seq<char>, x: Seq<char>|
        t.nodes.dom().contains(nid) && #[trigger] t.flows.dom().contains((nid, x)) implies t.nodes[nid].flows_into.contains(x) by {
        assert(t.nodes[nid].flows_into.contains(x) <==> t.flows.dom().contains((nid, x)));
    }
    assert forall|nid: Seq<char>, x: Seq<char>|
        t.nodes.dom().contains(nid) && #[trigger] t.flows.dom().contains((x, nid)) implies t.nodes[nid].flows_from.contains(x) by {
        assert(t.nodes[nid].flows_from.contains(x) <==> t.flows.dom().contains((x, nid)));
    }
    assert forall|nid: Seq<char>| #[trigger] t.nodes.dom().contains(nid) implies t.nodes[nid].flows_into.no_duplicates()
        && t.nodes[nid].flows_from.no_duplicates() by {
        lemma_filter_no_dups(s.nodes[nid].flows_into, ne_pred(into));
        lemma_filter_no_dups(s.nodes[nid].flows_from, ne_pred(from));
    }
}

pub proof fn lemma_inv_remove_node(s: SummitsSpec, id: Seq<char>)
    requires
        inv(s),
    ensures
        inv(spec_remove_node(s, id)),
{
    let t = spec_remove_node(s, id);
    assert forall|nid: Seq<char>| #[trigger] t.nodes.dom().contains(nid) implies t.nodes[nid]
        == scrubbed(s.nodes[nid], id) by {}
    assert forall|nid: Seq<char>, x: Seq<char>| t.nodes.dom().contains(nid) implies ((
    #[trigger] t.nodes[nid].flows_into.contains(x)) <==> t.flows.dom().contains((nid, x))) by {
        lemma_filter_contains_iff(s.nodes[nid].flows_into, ne_pred(id), x);
        assert(s.nodes[nid].flows_into.contains(x) <==> s.flows.dom().contains((nid, x)));
    }
    assert forall|nid: Seq<char>, x: Seq<char>| t.nodes.dom().contains(nid) implies ((
    #[trigger] t.nodes[nid].flows_from.contains(x)) <==> t.flows.dom().contains((x, nid))) by {
        lemma_filter_contains_iff(s.nodes[nid].flows_from, ne_pred(id), x);
        assert(s.nodes[nid].flows_from.contains(x) <==> s.flows.dom().contains((x, nid)));
    }
    assert forall|nid: Seq<char>, x: Seq<char>|
        t.nodes.dom().contains(nid) && #[trigger] t.flows.dom().contains((nid, x)) implies t.nodes[nid].flows_into.contains(x) by {
        assert(t.nodes[nid].flows_into.contains(x) <==> t.flows.dom().contains((nid, x)));
    }
    assert forall|nid: Seq<char>, x: Seq<char>|
        t.nodes.dom().contains(nid) && #[trigger] t.flows.dom().contains((x, nid)) implies t.nodes[nid].flows_from.contains(x) by {
        assert(t.nodes[nid].flows_from.contains(x) <==> t.flows.dom().contains((x, nid)));
    }
    assert forall|nid: Seq<char>| #[trigger] t.nodes.dom().contains(nid) implies t.nodes[nid].flows_into.no_duplicates()
        && t.nodes[nid].flows_from.no_duplicates() by {
        lemma_filter_no_dups(s.nodes[nid].flows_into, ne_pred(id));
        lemma_filter_no_dups(s.nodes[nid].flows_from, ne_pred(id));
    }
}

} // verus!
