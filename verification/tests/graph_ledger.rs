use summits::Flow;
use summits::FlowChanges;
use summits::FlowId;
use summits::GraphError;
use summits::NodeChanges;
use summits::NodeView;
use summits::Summits;
use summits::WrappedFlowChanges;

fn s(x: &str) -> String {
    x.to_string()
}

fn fid(from: &str, into: &str) -> FlowId {
    FlowId { from: s(from), into: s(into) }
}

fn add_node(g: &mut Summits, id: &str, deposit: u128) {
    g.create_node(s(id), s("title"), s("notes"), deposit, s("owner")).unwrap();
}

fn no_changes() -> FlowChanges {
    FlowChanges { dx: None, dy: None, notes: None, share: None }
}

#[test]
fn create_node_twice_fails_conflict() {
    let mut g = Summits::new();
    assert!(g.create_node(s("a"), s("first"), s("kept"), 5, s("alice")).is_ok());
    let second = g.create_node(s("a"), s("other"), s("dropped"), 9, s("bob"));
    assert_eq!(second, Err(GraphError::NodeConflict { id: s("a") }));
    let view = g.get_node(s("a")).unwrap();
    assert_eq!(
        view,
        NodeView { id: s("a"), title: s("first"), notes: s("kept"), deposit: 5, owner: s("alice") }
    );
}

#[test]
fn balance_round_trip_leaves_deposit_unchanged() {
    let mut g = Summits::new();
    add_node(&mut g, "a", 10);
    g.deposit_value(s("a"), 7).unwrap();
    assert_eq!(g.get_node(s("a")).unwrap().deposit, 17);
    g.withdraw_value(s("a"), 7).unwrap();
    assert_eq!(g.get_node(s("a")).unwrap().deposit, 10);
}

#[test]
fn deposit_to_missing_node_fails_not_found() {
    let mut g = Summits::new();
    assert_eq!(g.deposit_value(s("x"), 1), Err(GraphError::NodeNotFound { id: s("x") }));
    assert_eq!(g.withdraw_value(s("x"), 1), Err(GraphError::NodeNotFound { id: s("x") }));
}

#[test]
fn deposit_overflow_fails_and_changes_nothing() {
    let mut g = Summits::new();
    add_node(&mut g, "a", u128::MAX - 1);
    assert_eq!(g.deposit_value(s("a"), 2), Err(GraphError::Overflow { id: s("a") }));
    assert_eq!(g.get_node(s("a")).unwrap().deposit, u128::MAX - 1);
    g.deposit_value(s("a"), 1).unwrap();
    assert_eq!(g.get_node(s("a")).unwrap().deposit, u128::MAX);
}

#[test]
fn withdraw_past_balance_fails_underflow() {
    let mut g = Summits::new();
    add_node(&mut g, "a", 3);
    assert_eq!(g.withdraw_value(s("a"), 4), Err(GraphError::Underflow { id: s("a") }));
    assert_eq!(g.get_node(s("a")).unwrap().deposit, 3);
    g.withdraw_value(s("a"), 3).unwrap();
    assert_eq!(g.get_node(s("a")).unwrap().deposit, 0);
}

#[test]
fn change_node_patches_only_present_fields() {
    let mut g = Summits::new();
    g.create_node(s("a"), s("old title"), s("old notes"), 42, s("alice")).unwrap();
    g.change_node(
        s("a"),
        NodeChanges { title: Some(s("new title")), notes: None, deposit: None },
    )
    .unwrap();
    let view = g.get_node(s("a")).unwrap();
    assert_eq!(view.title, s("new title"));
    assert_eq!(view.notes, s("old notes"));
    assert_eq!(view.deposit, 42);
    assert_eq!(view.owner, s("alice"));
    let missing = g.change_node(s("b"), NodeChanges { title: None, notes: None, deposit: None });
    assert_eq!(missing, Err(GraphError::NodeNotFound { id: s("b") }));
}

#[test]
fn create_flow_reports_missing_from_first() {
    let mut g = Summits::new();
    add_node(&mut g, "b", 0);
    // `a` absent, `b` present: the error names `a`.
    let r = g.create_flow(fid("a", "b"), 1, 2, s("n"), 3);
    assert_eq!(r, Err(GraphError::NodeNotFound { id: s("a") }));
    // both absent: the error still names the `from` side.
    let r = g.create_flow(fid("x", "y"), 1, 2, s("n"), 3);
    assert_eq!(r, Err(GraphError::NodeNotFound { id: s("x") }));
    // `from` present, `into` absent: the error names the `into` side.
    let r = g.create_flow(fid("b", "y"), 1, 2, s("n"), 3);
    assert_eq!(r, Err(GraphError::NodeNotFound { id: s("y") }));
}

#[test]
fn create_flow_twice_fails_conflict() {
    let mut g = Summits::new();
    add_node(&mut g, "a", 0);
    add_node(&mut g, "b", 0);
    g.create_flow(fid("a", "b"), 1, 2, s("n"), 3).unwrap();
    let dup = g.create_flow(fid("a", "b"), 9, 9, s("m"), 9);
    assert_eq!(dup, Err(GraphError::FlowConflict { id: fid("a", "b") }));
    // the original flow record is untouched
    let f = g.get_flow(fid("a", "b")).unwrap();
    assert_eq!(f.dx, 1);
    assert_eq!(f.dy, 2);
    assert_eq!(f.notes, s("n"));
    assert_eq!(f.share, 3);
    // the opposite direction is a distinct edge and may still be created
    g.create_flow(fid("b", "a"), 0, 0, s(""), 0).unwrap();
}

#[test]
fn cascading_delete_removes_incident_flows_only() {
    let mut g = Summits::new();
    add_node(&mut g, "a", 11);
    add_node(&mut g, "b", 22);
    add_node(&mut g, "c", 33);
    g.create_flow(fid("a", "b"), 0, 0, s(""), 0).unwrap();
    g.create_flow(fid("b", "c"), 0, 0, s(""), 0).unwrap();
    g.remove_node(s("b")).unwrap();
    assert_eq!(g.get_flow(fid("a", "b")), Err(GraphError::FlowNotFound { id: fid("a", "b") }));
    assert_eq!(g.get_flow(fid("b", "c")), Err(GraphError::FlowNotFound { id: fid("b", "c") }));
    assert_eq!(g.get_node(s("b")), Err(GraphError::NodeNotFound { id: s("b") }));
    assert_eq!(g.get_node(s("a")).unwrap().deposit, 11);
    assert_eq!(g.get_node(s("c")).unwrap().deposit, 33);
    // the survivors' adjacency caches are clean: no incident flows remain
    assert_eq!(g.get_node_flows(s("a")).unwrap(), Vec::<Flow>::new());
    assert_eq!(g.get_node_flows(s("c")).unwrap(), Vec::<Flow>::new());
}

#[test]
fn remove_node_with_self_loop() {
    let mut g = Summits::new();
    add_node(&mut g, "a", 1);
    add_node(&mut g, "b", 2);
    g.create_flow(fid("a", "a"), 0, 0, s(""), 0).unwrap();
    g.create_flow(fid("a", "b"), 0, 0, s(""), 0).unwrap();
    let flows = g.get_node_flows(s("a")).unwrap();
    assert_eq!(flows.len(), 3); // the self-loop is listed on both sides
    g.remove_node(s("a")).unwrap();
    assert!(g.get_flow(fid("a", "a")).is_err());
    assert!(g.get_flow(fid("a", "b")).is_err());
    assert_eq!(g.get_node_flows(s("b")).unwrap(), Vec::<Flow>::new());
}

#[test]
fn home_node_is_protected_until_redesignated() {
    let mut g = Summits::new();
    add_node(&mut g, "h", 0);
    add_node(&mut g, "h2", 0);
    g.set_home_node_id(s("h")).unwrap();
    assert_eq!(g.get_home_node_id().unwrap(), s("h"));
    assert_eq!(g.remove_node(s("h")), Err(GraphError::HomeNodeProtected { id: s("h") }));
    assert!(g.get_node(s("h")).is_ok());
    g.set_home_node_id(s("h2")).unwrap();
    assert!(g.remove_node(s("h")).is_ok());
    assert_eq!(g.get_node(s("h")), Err(GraphError::NodeNotFound { id: s("h") }));
}

#[test]
fn home_check_precedes_existence_check() {
    let mut g = Summits::new();
    // the home designation is unconditional and may name an absent node;
    // removing that id is then refused as home-protected, not as not-found
    g.set_home_node_id(s("ghost")).unwrap();
    assert_eq!(g.get_home_node_id().unwrap(), s("ghost"));
    assert_eq!(g.remove_node(s("ghost")), Err(GraphError::HomeNodeProtected { id: s("ghost") }));
}

#[test]
fn home_node_unset_reports_not_set() {
    let g = Summits::new();
    assert_eq!(g.get_home_node_id(), Err(GraphError::HomeNodeNotSet));
}

#[test]
fn change_flow_patches_only_present_fields() {
    let mut g = Summits::new();
    add_node(&mut g, "a", 0);
    add_node(&mut g, "b", 0);
    g.create_flow(fid("a", "b"), 1, 2, s("note"), 3).unwrap();
    g.change_flow(
        fid("a", "b"),
        FlowChanges { dx: Some(10), dy: None, notes: None, share: Some(30) },
    )
    .unwrap();
    let f = g.get_flow(fid("a", "b")).unwrap();
    assert_eq!(f.dx, 10);
    assert_eq!(f.dy, 2);
    assert_eq!(f.notes, s("note"));
    assert_eq!(f.share, 30);
    let missing = g.change_flow(fid("a", "x"), no_changes());
    assert_eq!(missing, Err(GraphError::FlowNotFound { id: fid("a", "x") }));
}

#[test]
fn remove_flow_retracts_adjacency_entries() {
    let mut g = Summits::new();
    add_node(&mut g, "a", 0);
    add_node(&mut g, "b", 0);
    g.create_flow(fid("a", "b"), 0, 0, s(""), 0).unwrap();
    g.remove_flow(fid("a", "b")).unwrap();
    assert_eq!(g.get_node_flows(s("a")).unwrap(), Vec::<Flow>::new());
    assert_eq!(g.get_node_flows(s("b")).unwrap(), Vec::<Flow>::new());
    // removing it again reports the absence
    assert_eq!(g.remove_flow(fid("a", "b")), Err(GraphError::FlowNotFound { id: fid("a", "b") }));
    // and the edge can be created afresh without duplicating adjacency
    g.create_flow(fid("a", "b"), 5, 6, s("again"), 7).unwrap();
    assert_eq!(g.get_node_flows(s("a")).unwrap().len(), 1);
}

#[test]
fn bulk_change_flow_applies_valid_items_and_collects_failures() {
    let mut g = Summits::new();
    add_node(&mut g, "a", 0);
    add_node(&mut g, "b", 0);
    add_node(&mut g, "c", 0);
    g.create_flow(fid("a", "b"), 0, 0, s(""), 0).unwrap();
    g.create_flow(fid("b", "c"), 0, 0, s(""), 0).unwrap();
    let batch = vec![
        WrappedFlowChanges {
            id: fid("a", "b"),
            changes: FlowChanges { dx: Some(1), dy: None, notes: None, share: None },
        },
        WrappedFlowChanges { id: fid("x", "y"), changes: no_changes() },
        WrappedFlowChanges {
            id: fid("b", "c"),
            changes: FlowChanges { dx: None, dy: Some(2), notes: None, share: None },
        },
    ];
    let r = g.bulk_change_flow(batch);
    assert_eq!(r, Err(GraphError::AggregateFailure { failed: vec![fid("x", "y")] }));
    // the valid items were applied despite the failure in between
    assert_eq!(g.get_flow(fid("a", "b")).unwrap().dx, 1);
    assert_eq!(g.get_flow(fid("b", "c")).unwrap().dy, 2);
    // the invalid item's target is still absent
    assert!(g.get_flow(fid("x", "y")).is_err());
}

#[test]
fn bulk_change_flow_of_all_valid_items_succeeds() {
    let mut g = Summits::new();
    add_node(&mut g, "a", 0);
    add_node(&mut g, "b", 0);
    g.create_flow(fid("a", "b"), 0, 0, s(""), 0).unwrap();
    let batch = vec![WrappedFlowChanges {
        id: fid("a", "b"),
        changes: FlowChanges { dx: None, dy: None, notes: Some(s("bulk")), share: None },
    }];
    assert!(g.bulk_change_flow(batch).is_ok());
    assert_eq!(g.get_flow(fid("a", "b")).unwrap().notes, s("bulk"));
    assert!(g.bulk_change_flow(Vec::new()).is_ok());
}

#[test]
fn get_node_flows_lists_incoming_then_outgoing() {
    let mut g = Summits::new();
    add_node(&mut g, "a", 0);
    add_node(&mut g, "b", 0);
    add_node(&mut g, "c", 0);
    add_node(&mut g, "d", 0);
    g.create_flow(fid("a", "b"), 1, 0, s(""), 0).unwrap();
    g.create_flow(fid("c", "b"), 2, 0, s(""), 0).unwrap();
    g.create_flow(fid("b", "d"), 3, 0, s(""), 0).unwrap();
    let flows = g.get_node_flows(s("b")).unwrap();
    let keys: Vec<(String, String)> =
        flows.iter().map(|f| (f.id.from.clone(), f.id.into.clone())).collect();
    assert_eq!(
        keys,
        vec![(s("a"), s("b")), (s("c"), s("b")), (s("b"), s("d"))]
    );
    assert_eq!(
        g.get_node_flows(s("x")),
        Err(GraphError::NodeNotFound { id: s("x") })
    );
}

#[test]
fn get_node_redacts_adjacency() {
    let mut g = Summits::new();
    add_node(&mut g, "a", 4);
    add_node(&mut g, "b", 0);
    g.create_flow(fid("a", "b"), 0, 0, s(""), 0).unwrap();
    // the view is identical whether or not the node has incident flows:
    // it carries only id, title, notes, deposit and owner
    let view = g.get_node(s("a")).unwrap();
    assert_eq!(
        view,
        NodeView { id: s("a"), title: s("title"), notes: s("notes"), deposit: 4, owner: s("owner") }
    );
    g.remove_flow(fid("a", "b")).unwrap();
    assert_eq!(g.get_node(s("a")).unwrap(), view);
}

#[test]
fn empty_string_is_a_valid_node_id() {
    let mut g = Summits::new();
    g.create_node(s(""), s(""), s(""), 0, s("")).unwrap();
    assert!(g.get_node(s("")).is_ok());
    assert_eq!(
        g.create_node(s(""), s("x"), s("x"), 1, s("x")),
        Err(GraphError::NodeConflict { id: s("") })
    );
}

#[test]
fn remove_node_cleans_both_directions() {
    let mut g = Summits::new();
    add_node(&mut g, "a", 0);
    add_node(&mut g, "b", 0);
    g.create_flow(fid("a", "b"), 0, 0, s(""), 0).unwrap();
    g.create_flow(fid("b", "a"), 0, 0, s(""), 0).unwrap();
    g.remove_node(s("a")).unwrap();
    assert!(g.get_flow(fid("a", "b")).is_err());
    assert!(g.get_flow(fid("b", "a")).is_err());
    assert_eq!(g.get_node_flows(s("b")).unwrap(), Vec::<Flow>::new());
}

#[test]
fn bulk_change_flow_applies_items_in_order() {
    let mut g = Summits::new();
    add_node(&mut g, "a", 0);
    add_node(&mut g, "b", 0);
    g.create_flow(fid("a", "b"), 0, 0, s(""), 0).unwrap();
    let batch = vec![
        WrappedFlowChanges {
            id: fid("a", "b"),
            changes: FlowChanges { dx: Some(1), dy: Some(5), notes: None, share: None },
        },
        WrappedFlowChanges {
            id: fid("a", "b"),
            changes: FlowChanges { dx: Some(2), dy: None, notes: None, share: None },
        },
    ];
    g.bulk_change_flow(batch).unwrap();
    let f = g.get_flow(fid("a", "b")).unwrap();
    assert_eq!(f.dx, 2); // the later item's patch wins
    assert_eq!(f.dy, 5); // the earlier item's untouched field survives
}
