use packed_tree::{LayerIter, Tree, TreeInterface};

#[test]
fn sizes_match_hand_written_tables() {
    // The derived per-layer tables equal the known values for every
    // supported shape.
    let expected_rows: [&[usize]; 8] = [
        &[1],
        &[2, 1],
        &[4, 2, 1],
        &[8, 4, 2, 1],
        &[16, 8, 4, 2, 1],
        &[32, 16, 8, 4, 2, 1],
        &[64, 32, 16, 8, 4, 2, 1],
        &[128, 64, 32, 16, 8, 4, 2, 1],
    ];
    let expected_layers: [&[usize]; 8] = [
        &[1],
        &[8, 1],
        &[64, 8, 1],
        &[512, 64, 8, 1],
        &[4096, 512, 64, 8, 1],
        &[32768, 4096, 512, 64, 8, 1],
        &[262144, 32768, 4096, 512, 64, 8, 1],
        &[2097152, 262144, 32768, 4096, 512, 64, 8, 1],
    ];
    for (k, row) in [1usize, 2, 4, 8, 16, 32, 64, 128].into_iter().enumerate() {
        let tree = Tree::<usize>::new(row);
        assert_eq!(tree.rows_sizes(), expected_rows[k]);
        assert_eq!(tree.layers_sizes(), expected_layers[k]);
        assert_eq!(tree.row_size(0), row);
        assert_eq!(tree.layer_size(0), row * row * row);
    }
}

#[test]
fn total_sizes() {
    assert_eq!(packed_tree::total_size_of(1), 1);
    assert_eq!(packed_tree::total_size_of(2), 9);
    assert_eq!(packed_tree::total_size_of(4), 73);
    assert_eq!(packed_tree::total_size_of(8), 585);
    assert_eq!(packed_tree::total_size_of(16), 4681);
    assert_eq!(packed_tree::total_size_of(32), 37449);
    assert_eq!(packed_tree::total_size_of(64), 299593);
    assert_eq!(packed_tree::total_size_of(128), 2396745);
}

#[test]
fn depth_table() {
    assert_eq!(packed_tree::tree_depth(1), 0);
    assert_eq!(packed_tree::tree_depth(2), 1);
    assert_eq!(packed_tree::tree_depth(4), 2);
    assert_eq!(packed_tree::tree_depth(128), 7);
    assert_eq!(packed_tree::row_size_of(128, 3), 16);
    assert_eq!(packed_tree::layer_size_of(128, 3), 4096);
    assert_eq!(packed_tree::cum_size_of(4, 0), 0);
    assert_eq!(packed_tree::cum_size_of(4, 1), 64);
    assert_eq!(packed_tree::cum_size_of(4, 2), 72);
}

#[test]
fn layer_iteration() {
    let tree = Tree::<usize>::new(4);
    let mut iter = LayerIter::from_tree(&tree, 1);
    let mut seen = Vec::new();
    while let Some(index) = iter.next_index() {
        seen.push(index.raw());
    }
    assert_eq!(seen, vec![64, 65, 66, 67, 68, 69, 70, 71]);
    assert_eq!(iter.next_index(), None);

    let mut iter = LayerIter::from_tree(&tree, 2);
    assert_eq!(iter.next_index().map(|i| i.raw()), Some(72));
    assert_eq!(iter.next_index(), None);
}

#[test]
fn supported_row_sizes() {
    for row in [1usize, 2, 4, 8, 16, 32, 64, 128, 256, 512, 1024] {
        assert!(packed_tree::is_supported_row_size(row));
    }
    for row in [0usize, 3, 5, 6, 7, 12, 100, 1000, 1025, 2048, usize::MAX] {
        assert!(!packed_tree::is_supported_row_size(row));
    }
}
