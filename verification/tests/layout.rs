use luisa_compute_ir::node::NodeRef;

#[test]
fn test_layout() {
    assert_eq!(std::mem::size_of::<NodeRef>(), 8);
}
