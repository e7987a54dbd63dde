use packed_tree::{LayerIndex, LayerPosition, NodeIndex, NodePosition};

const ROW: usize = 4;

#[test]
fn layer_index_from_node_index() {
    let index = NodeIndex::new(0, ROW);
    assert_eq!(LayerIndex::from_node_index(index), LayerIndex::new(0, 0, ROW));

    let index = NodeIndex::new(1, ROW);
    assert_eq!(LayerIndex::from_node_index(index), LayerIndex::new(1, 0, ROW));

    let index = NodeIndex::new(63, ROW);
    assert_eq!(LayerIndex::from_node_index(index), LayerIndex::new(63, 0, ROW));

    let index = NodeIndex::new(64, ROW);
    assert_eq!(LayerIndex::from_node_index(index), LayerIndex::new(0, 1, ROW));

    let index = NodeIndex::new(65, ROW);
    assert_eq!(LayerIndex::from_node_index(index), LayerIndex::new(1, 1, ROW));

    let index = NodeIndex::new(71, ROW);
    assert_eq!(LayerIndex::from_node_index(index), LayerIndex::new(7, 1, ROW));

    let index = NodeIndex::new(72, ROW);
    assert_eq!(LayerIndex::from_node_index(index), LayerIndex::new(0, 2, ROW));
}

#[test]
fn layer_index_from_node_position() {
    let position = NodePosition::new(0, 0, 0, 0, ROW);
    assert_eq!(LayerIndex::from_node_position(position), LayerIndex::new(0, 0, ROW));

    let position = NodePosition::new(1, 0, 0, 0, ROW);
    assert_eq!(LayerIndex::from_node_position(position), LayerIndex::new(1, 0, ROW));

    let position = NodePosition::new(3, 3, 3, 0, ROW);
    assert_eq!(LayerIndex::from_node_position(position), LayerIndex::new(63, 0, ROW));

    let position = NodePosition::new(0, 0, 0, 1, ROW);
    assert_eq!(LayerIndex::from_node_position(position), LayerIndex::new(0, 1, ROW));

    let position = NodePosition::new(2, 0, 0, 1, ROW);
    assert_eq!(LayerIndex::from_node_position(position), LayerIndex::new(1, 1, ROW));

    let position = NodePosition::new(2, 2, 2, 1, ROW);
    assert_eq!(LayerIndex::from_node_position(position), LayerIndex::new(7, 1, ROW));

    let position = NodePosition::new(0, 0, 0, 2, ROW);
    assert_eq!(LayerIndex::from_node_position(position), LayerIndex::new(0, 2, ROW));
}

#[test]
fn layer_position_from_layer_position() {
    let pos = LayerPosition::new(0, 0, 0, 0, ROW);
    assert_eq!(LayerIndex::from_layer_position(pos), LayerIndex::new(0, 0, ROW));

    let pos = LayerPosition::new(1, 0, 0, 0, ROW);
    assert_eq!(LayerIndex::from_layer_position(pos), LayerIndex::new(1, 0, ROW));

    let pos = LayerPosition::new(3, 3, 3, 0, ROW);
    assert_eq!(LayerIndex::from_layer_position(pos), LayerIndex::new(63, 0, ROW));

    let pos = LayerPosition::new(0, 0, 0, 1, ROW);
    assert_eq!(LayerIndex::from_layer_position(pos), LayerIndex::new(0, 1, ROW));

    let pos = LayerPosition::new(1, 0, 0, 1, ROW);
    assert_eq!(LayerIndex::from_layer_position(pos), LayerIndex::new(1, 1, ROW));

    let pos = LayerPosition::new(1, 1, 1, 1, ROW);
    assert_eq!(LayerIndex::from_layer_position(pos), LayerIndex::new(7, 1, ROW));

    let pos = LayerPosition::new(0, 0, 0, 2, ROW);
    assert_eq!(LayerIndex::from_layer_position(pos), LayerIndex::new(0, 2, ROW));
}

#[test]
fn parrent_position() {
    let pos = LayerPosition::new(0, 0, 0, 0, ROW);
    assert_eq!(pos.parrent_position(), Some(LayerPosition::new(0, 0, 0, 1, ROW)));

    let pos = LayerPosition::new(1, 0, 0, 0, ROW);
    assert_eq!(pos.parrent_position(), Some(LayerPosition::new(0, 0, 0, 1, ROW)));

    let pos = LayerPosition::new(2, 0, 0, 0, ROW);
    assert_eq!(pos.parrent_position(), Some(LayerPosition::new(1, 0, 0, 1, ROW)));

    let pos = LayerPosition::new(3, 3, 3, 0, ROW);
    assert_eq!(pos.parrent_position(), Some(LayerPosition::new(1, 1, 1, 1, ROW)));

    let pos = LayerPosition::new(0, 0, 0, 1, ROW);
    assert_eq!(pos.parrent_position(), Some(LayerPosition::new(0, 0, 0, 2, ROW)));

    let pos = LayerPosition::new(1, 0, 0, 1, ROW);
    assert_eq!(pos.parrent_position(), Some(LayerPosition::new(0, 0, 0, 2, ROW)));

    let pos = LayerPosition::new(1, 1, 1, 1, ROW);
    assert_eq!(pos.parrent_position(), Some(LayerPosition::new(0, 0, 0, 2, ROW)));

    let pos = LayerPosition::new(0, 0, 0, 2, ROW);
    assert_eq!(pos.parrent_position(), None);
}

#[test]
fn layer_position_from_node_index() {
    let index = NodeIndex::new(0, ROW);
    assert_eq!(LayerPosition::from_node_index(index), LayerPosition::new(0, 0, 0, 0, ROW));

    let index = NodeIndex::new(1, ROW);
    assert_eq!(LayerPosition::from_node_index(index), LayerPosition::new(1, 0, 0, 0, ROW));

    let index = NodeIndex::new(63, ROW);
    assert_eq!(LayerPosition::from_node_index(index), LayerPosition::new(3, 3, 3, 0, ROW));

    let index = NodeIndex::new(64, ROW);
    assert_eq!(LayerPosition::from_node_index(index), LayerPosition::new(0, 0, 0, 1, ROW));

    let index = NodeIndex::new(65, ROW);
    assert_eq!(LayerPosition::from_node_index(index), LayerPosition::new(1, 0, 0, 1, ROW));

    let index = NodeIndex::new(71, ROW);
    assert_eq!(LayerPosition::from_node_index(index), LayerPosition::new(1, 1, 1, 1, ROW));

    let index = NodeIndex::new(72, ROW);
    assert_eq!(LayerPosition::from_node_index(index), LayerPosition::new(0, 0, 0, 2, ROW));
}

#[test]
fn layer_position_from_node_position() {
    let pos = NodePosition::new(0, 0, 0, 0, ROW);
    assert_eq!(LayerPosition::from_node_position(pos), LayerPosition::new(0, 0, 0, 0, ROW));

    let pos = NodePosition::new(1, 0, 0, 0, ROW);
    assert_eq!(LayerPosition::from_node_position(pos), LayerPosition::new(1, 0, 0, 0, ROW));

    let pos = NodePosition::new(3, 3, 3, 0, ROW);
    assert_eq!(LayerPosition::from_node_position(pos), LayerPosition::new(3, 3, 3, 0, ROW));

    let pos = NodePosition::new(0, 0, 0, 1, ROW);
    assert_eq!(LayerPosition::from_node_position(pos), LayerPosition::new(0, 0, 0, 1, ROW));

    let pos = NodePosition::new(2, 0, 0, 1, ROW);
    assert_eq!(LayerPosition::from_node_position(pos), LayerPosition::new(1, 0, 0, 1, ROW));

    let pos = NodePosition::new(2, 2, 2, 1, ROW);
    assert_eq!(LayerPosition::from_node_position(pos), LayerPosition::new(1, 1, 1, 1, ROW));

    let pos = NodePosition::new(0, 0, 0, 2, ROW);
    assert_eq!(LayerPosition::from_node_position(pos), LayerPosition::new(0, 0, 0, 2, ROW));
}

#[test]
fn layer_validators() {
    assert!(LayerIndex::is_valid_index_depth(0, 0, ROW));
    assert!(LayerIndex::is_valid_index_depth(63, 0, ROW));
    assert!(!LayerIndex::is_valid_index_depth(64, 0, ROW));
    assert!(LayerIndex::is_valid_index_depth(7, 1, ROW));
    assert!(!LayerIndex::is_valid_index_depth(8, 1, ROW));
    assert!(LayerIndex::is_valid_index_depth(0, 2, ROW));
    assert!(!LayerIndex::is_valid_index_depth(1, 2, ROW));
    assert!(!LayerIndex::is_valid_index_depth(0, 3, ROW));

    assert!(LayerPosition::is_valid_position(3, 3, 3, 0, ROW));
    assert!(!LayerPosition::is_valid_position(4, 0, 0, 0, ROW));
    assert!(!LayerPosition::is_valid_position(2, 0, 0, 1, ROW));
    assert!(!LayerPosition::is_valid_position(2, 0, 0, 2, ROW));
    assert!(!LayerPosition::is_valid_position(0, 0, 0, 3, ROW));
}

#[test]
fn layer_accessors() {
    let li = LayerIndex::new(5, 1, ROW);
    assert_eq!(li.depth(), 1);
    assert_eq!(li.get_raw(), (5, 1));
    assert_eq!(li.biggest_row(), ROW);

    let lp = LayerPosition::new(1, 2, 3, 0, ROW);
    assert_eq!(lp.get_raw(), (1, 2, 3, 0));
    assert_eq!(lp.biggest_row(), ROW);
}
