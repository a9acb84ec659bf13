use summits::Summits;

#[test]
fn it_works() {
    assert_eq!(2 + 2, 4);
}

#[test]
fn new_graph_is_empty() {
    let s = Summits::new();
    assert!(s.get_node("anything".to_string()).is_err());
    assert!(s.get_home_node_id().is_err());
}
