use packed_tree::{LayerIndex, LayerPosition, NodeIndex, NodePosition};

const ROW: usize = 4;

#[test]
fn is_valid_index() {
    let index = NodeIndex::is_valid_index(0, ROW);
    assert!(index);

    let index = NodeIndex::is_valid_index(72, ROW);
    assert!(index);

    let index = NodeIndex::is_valid_index(528, ROW);
    assert!(!index);
}

#[test]
fn set() {
    let mut index = NodeIndex::new(0, ROW);
    let inner = index.set(25);
    assert_eq!(inner, 0);
    assert_eq!(index, NodeIndex::new(25, ROW));
}

#[test]
fn depth() {
    let index = NodeIndex::new(0, ROW);
    assert_eq!(index.depth(), 0);

    let index = NodeIndex::new(63, ROW);
    assert_eq!(index.depth(), 0);

    let index = NodeIndex::new(64, ROW);
    assert_eq!(index.depth(), 1);

    let index = NodeIndex::new(71, ROW);
    assert_eq!(index.depth(), 1);

    let index = NodeIndex::new(72, ROW);
    assert_eq!(index.depth(), 2);
}

#[test]
fn absolute_position_from_node_position() {
    let pos = NodePosition::new(0, 0, 0, 0, ROW);
    assert_eq!(NodeIndex::from_node_position(pos), NodeIndex::new(0, ROW));

    let pos = NodePosition::new(1, 0, 0, 0, ROW);
    assert_eq!(NodeIndex::from_node_position(pos), NodeIndex::new(1, ROW));

    let pos = NodePosition::new(3, 3, 3, 0, ROW);
    assert_eq!(NodeIndex::from_node_position(pos), NodeIndex::new(63, ROW));

    let pos = NodePosition::new(0, 0, 0, 1, ROW);
    assert_eq!(NodeIndex::from_node_position(pos), NodeIndex::new(64, ROW));

    let pos = NodePosition::new(2, 0, 0, 1, ROW);
    assert_eq!(NodeIndex::from_node_position(pos), NodeIndex::new(65, ROW));

    let pos = NodePosition::new(2, 2, 2, 1, ROW);
    assert_eq!(NodeIndex::from_node_position(pos), NodeIndex::new(71, ROW));

    let pos = NodePosition::new(0, 0, 0, 2, ROW);
    assert_eq!(NodeIndex::from_node_position(pos), NodeIndex::new(72, ROW));
}

#[test]
fn absolute_position_from_layer_position() {
    let pos = LayerPosition::new(0, 0, 0, 0, ROW);
    assert_eq!(NodeIndex::from_layer_position(pos), NodeIndex::new(0, ROW));

    let pos = LayerPosition::new(1, 0, 0, 0, ROW);
    assert_eq!(NodeIndex::from_layer_position(pos), NodeIndex::new(1, ROW));

    let pos = LayerPosition::new(3, 3, 3, 0, ROW);
    assert_eq!(NodeIndex::from_layer_position(pos), NodeIndex::new(63, ROW));

    let pos = LayerPosition::new(0, 0, 0, 1, ROW);
    assert_eq!(NodeIndex::from_layer_position(pos), NodeIndex::new(64, ROW));

    let pos = LayerPosition::new(1, 0, 0, 1, ROW);
    assert_eq!(NodeIndex::from_layer_position(pos), NodeIndex::new(65, ROW));

    let pos = LayerPosition::new(1, 1, 1, 1, ROW);
    assert_eq!(NodeIndex::from_layer_position(pos), NodeIndex::new(71, ROW));

    let pos = LayerPosition::new(0, 0, 0, 2, ROW);
    assert_eq!(NodeIndex::from_layer_position(pos), NodeIndex::new(72, ROW));
}

#[test]
fn absolute_position_from_layer_index() {
    let index = LayerIndex::new(0, 0, ROW);
    assert_eq!(NodeIndex::from_layer_index(index), NodeIndex::new(0, ROW));

    let index = LayerIndex::new(1, 0, ROW);
    assert_eq!(NodeIndex::from_layer_index(index), NodeIndex::new(1, ROW));

    let index = LayerIndex::new(63, 0, ROW);
    assert_eq!(NodeIndex::from_layer_index(index), NodeIndex::new(63, ROW));

    let index = LayerIndex::new(0, 1, ROW);
    assert_eq!(NodeIndex::from_layer_index(index), NodeIndex::new(64, ROW));

    let index = LayerIndex::new(1, 1, ROW);
    assert_eq!(NodeIndex::from_layer_index(index), NodeIndex::new(65, ROW));

    let index = LayerIndex::new(7, 1, ROW);
    assert_eq!(NodeIndex::from_layer_index(index), NodeIndex::new(71, ROW));

    let index = LayerIndex::new(0, 2, ROW);
    assert_eq!(NodeIndex::from_layer_index(index), NodeIndex::new(72, ROW));
}

#[test]
fn copy() {
    let index = NodeIndex::new(0, ROW);
    let _ = index.add(25);
    assert_eq!(index.raw(), 0);
}

#[test]
fn child_position() {
    let pos = NodePosition::new(0, 0, 0, 0, ROW);
    assert_eq!(pos.child_position(), None);

    let pos = NodePosition::new(1, 0, 0, 0, ROW);
    assert_eq!(pos.child_position(), None);

    let pos = NodePosition::new(3, 3, 3, 0, ROW);
    assert_eq!(pos.child_position(), None);

    let pos = NodePosition::new(0, 0, 0, 1, ROW);
    assert_eq!(pos.child_position(), Some(NodePosition::new(0, 0, 0, 0, ROW)));

    let pos = NodePosition::new(2, 0, 0, 1, ROW);
    assert_eq!(pos.child_position(), Some(NodePosition::new(2, 0, 0, 0, ROW)));

    let pos = NodePosition::new(2, 2, 2, 1, ROW);
    assert_eq!(pos.child_position(), Some(NodePosition::new(2, 2, 2, 0, ROW)));

    let pos = NodePosition::new(0, 0, 0, 2, ROW);
    assert_eq!(pos.child_position(), Some(NodePosition::new(0, 0, 0, 1, ROW)));
}

#[test]
fn absolute_position_from_node_index() {
    let index = NodeIndex::new(0, ROW);
    assert_eq!(NodePosition::from_node_index(index), NodePosition::new(0, 0, 0, 0, ROW));

    let index = NodeIndex::new(1, ROW);
    assert_eq!(NodePosition::from_node_index(index), NodePosition::new(1, 0, 0, 0, ROW));

    let index = NodeIndex::new(63, ROW);
    assert_eq!(NodePosition::from_node_index(index), NodePosition::new(3, 3, 3, 0, ROW));

    let index = NodeIndex::new(64, ROW);
    assert_eq!(NodePosition::from_node_index(index), NodePosition::new(0, 0, 0, 1, ROW));

    let index = NodeIndex::new(65, ROW);
    assert_eq!(NodePosition::from_node_index(index), NodePosition::new(2, 0, 0, 1, ROW));

    let index = NodeIndex::new(71, ROW);
    assert_eq!(NodePosition::from_node_index(index), NodePosition::new(2, 2, 2, 1, ROW));

    let index = NodeIndex::new(72, ROW);
    assert_eq!(NodePosition::from_node_index(index), NodePosition::new(0, 0, 0, 2, ROW));
}

#[test]
fn node_position_from_layer_index() {
    let index = LayerIndex::new(0, 0, ROW);
    assert_eq!(NodePosition::from_layer_index(index), NodePosition::new(0, 0, 0, 0, ROW));

    let index = LayerIndex::new(1, 0, ROW);
    assert_eq!(NodePosition::from_layer_index(index), NodePosition::new(1, 0, 0, 0, ROW));

    let index = LayerIndex::new(63, 0, ROW);
    assert_eq!(NodePosition::from_layer_index(index), NodePosition::new(3, 3, 3, 0, ROW));

    let index = LayerIndex::new(0, 1, ROW);
    assert_eq!(NodePosition::from_layer_index(index), NodePosition::new(0, 0, 0, 1, ROW));

    let index = LayerIndex::new(1, 1, ROW);
    assert_eq!(NodePosition::from_layer_index(index), NodePosition::new(2, 0, 0, 1, ROW));

    let index = LayerIndex::new(7, 1, ROW);
    assert_eq!(NodePosition::from_layer_index(index), NodePosition::new(2, 2, 2, 1, ROW));

    let index = LayerIndex::new(0, 2, ROW);
    assert_eq!(NodePosition::from_layer_index(index), NodePosition::new(0, 0, 0, 2, ROW));
}

#[test]
fn node_position_from_layer_position() {
    let pos = LayerPosition::new(0, 0, 0, 0, ROW);
    assert_eq!(NodePosition::from_layer_position(pos), NodePosition::new(0, 0, 0, 0, ROW));

    let pos = LayerPosition::new(1, 0, 0, 0, ROW);
    assert_eq!(NodePosition::from_layer_position(pos), NodePosition::new(1, 0, 0, 0, ROW));

    let pos = LayerPosition::new(3, 3, 3, 0, ROW);
    assert_eq!(NodePosition::from_layer_position(pos), NodePosition::new(3, 3, 3, 0, ROW));

    let pos = LayerPosition::new(0, 0, 0, 1, ROW);
    assert_eq!(NodePosition::from_layer_position(pos), NodePosition::new(0, 0, 0, 1, ROW));

    let pos = LayerPosition::new(1, 0, 0, 1, ROW);
    assert_eq!(NodePosition::from_layer_position(pos), NodePosition::new(2, 0, 0, 1, ROW));

    let pos = LayerPosition::new(1, 1, 1, 1, ROW);
    assert_eq!(NodePosition::from_layer_position(pos), NodePosition::new(2, 2, 2, 1, ROW));

    let pos = LayerPosition::new(0, 0, 0, 2, ROW);
    assert_eq!(NodePosition::from_layer_position(pos), NodePosition::new(0, 0, 0, 2, ROW));
}

#[test]
fn checked_constructor() {
    assert!(NodeIndex::new_checked(0, ROW).is_ok());
    assert_eq!(NodeIndex::new_checked(72, ROW), Ok(NodeIndex::new(72, ROW)));
    assert_eq!(NodeIndex::new_checked(73, ROW), Err(()));
    assert_eq!(NodeIndex::new_checked(528, ROW), Err(()));
}

#[test]
fn boundary_rejection() {
    // A coordinate at or past the biggest row size is rejected.
    assert!(!NodePosition::is_valid_position(4, 0, 0, 0, ROW));
    assert!(!NodePosition::is_valid_position(0, 4, 0, 0, ROW));
    assert!(!NodePosition::is_valid_position(0, 0, 4, 0, ROW));
    // A coordinate that is not a multiple of 2^depth is rejected.
    assert!(!NodePosition::is_valid_position(1, 0, 1, 1, ROW));
    assert!(!NodePosition::is_valid_position(0, 3, 0, 1, ROW));
    assert!(!NodePosition::is_valid_position(1, 0, 1, 2, ROW));
    // A depth past the deepest layer is rejected.
    assert!(!NodePosition::is_valid_position(0, 0, 0, 3, ROW));
    // Valid positions are accepted.
    assert!(NodePosition::is_valid_position(0, 0, 0, 0, ROW));
    assert!(NodePosition::is_valid_position(3, 3, 3, 0, ROW));
    assert!(NodePosition::is_valid_position(2, 2, 2, 1, ROW));
    assert!(NodePosition::is_valid_position(0, 0, 0, 2, ROW));
}

#[test]
fn index_arithmetic() {
    let index = NodeIndex::new(10, ROW);
    assert_eq!(index.add(5), NodeIndex::new(15, ROW));
    assert_eq!(index.sub(10), NodeIndex::new(0, ROW));
    assert_eq!(index.add(62), NodeIndex::new(72, ROW));
    assert_eq!(index.add_index(NodeIndex::new(30, ROW)), NodeIndex::new(40, ROW));
    assert_eq!(index.sub_index(NodeIndex::new(3, ROW)), NodeIndex::new(7, ROW));
}

#[test]
fn validators_accept_constructed_values() {
    assert!(NodeIndex::new(72, ROW).is_valid());
    assert!(NodePosition::new(2, 0, 2, 1, ROW).is_valid());
    assert!(LayerIndex::new(7, 1, ROW).is_valid());
    assert!(LayerPosition::new(1, 1, 0, 1, ROW).is_valid());
}

#[test]
fn index_round_trips() {
    // Absolute index -> layer index -> absolute index is the identity, and
    // so is the round trip through positions, for every cell of the shape.
    for i in 0..73 {
        let index = NodeIndex::new(i, ROW);
        let li = LayerIndex::from_node_index(index);
        assert_eq!(NodeIndex::from_layer_index(li), index);

        let lp = LayerPosition::from_node_index(index);
        let np = NodePosition::from_layer_position(lp);
        assert_eq!(LayerPosition::from_node_position(np), lp);
        assert_eq!(NodeIndex::from_node_position(np), index);
    }
}

#[test]
fn depth_is_monotone() {
    // Depth starts at 0 and never decreases as the index grows.
    assert_eq!(NodeIndex::new(0, ROW).depth(), 0);
    let mut last: usize = 0;
    for i in 0..73 {
        let d = NodeIndex::new(i, ROW).depth();
        assert!(d >= last);
        last = d;
    }
    // Each layer starts at the cumulative size of the shallower layers.
    assert_eq!(NodeIndex::new(0, ROW).depth(), 0);
    assert_eq!(NodeIndex::new(64, ROW).depth(), 1);
    assert_eq!(NodeIndex::new(72, ROW).depth(), 2);
}
