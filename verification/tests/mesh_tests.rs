use dango::mesh::{boundary_indices, group_triangles, outline_chain, wrapped_boundary_indices};

#[test]
fn boundary_walk_follows_successors() {
    let edges = vec![(2usize, 0usize), (0, 3), (3, 1), (1, 2)];
    assert_eq!(boundary_indices(&edges, 4, 4), vec![2, 0, 3, 1]);
    assert_eq!(boundary_indices(&edges, 4, 6), vec![2, 0, 3, 1, 2, 0]);
    assert_eq!(boundary_indices(&edges, 4, 0), Vec::<usize>::new());
}

#[test]
fn boundary_walk_later_edges_win_and_missing_go_to_zero() {
    let edges = vec![(1usize, 2usize), (1, 3)];
    assert_eq!(boundary_indices(&edges, 4, 4), vec![1, 3, 0, 0]);
}

#[test]
fn triangles_grouped_in_triples() {
    assert_eq!(group_triangles(&vec![0, 1, 2, 2, 3, 0]), vec![(0, 1, 2), (2, 3, 0)]);
    assert!(group_triangles(&vec![]).is_empty());
}

#[test]
fn wrapped_boundary_repeats_first_three() {
    assert_eq!(wrapped_boundary_indices(&vec![5, 6, 7, 8]), vec![5, 6, 7, 8, 5, 6, 7]);
    assert_eq!(wrapped_boundary_indices(&vec![4]), vec![4, 4, 4, 4]);
    assert_eq!(wrapped_boundary_indices(&vec![]), Vec::<usize>::new());
}

#[test]
fn outline_chain_follows_edges() {
    let edges = vec![(0usize, 1usize), (2, 0), (1, 2)];
    let chain = outline_chain(&edges);
    assert!(chain.len() >= edges.len() + 3);
    assert_eq!(&chain[..6], &[0, 1, 2, 0, 1, 2]);
    for w in chain.windows(2) {
        assert!(edges.iter().any(|&(a, b)| a == w[0] && b == w[1]));
    }
}

#[test]
fn outline_chain_of_a_loop() {
    let edges = vec![(7usize, 7usize)];
    assert_eq!(outline_chain(&edges), vec![7, 7, 7, 7]);
}

#[test]
fn outline_chain_with_edges_leading_nowhere() {
    let edges = vec![(0usize, 1usize), (1, 0), (2, 3), (3, 2), (2, 4)];
    assert_eq!(outline_chain(&edges), vec![0, 1, 0, 1, 0, 1, 0, 1, 0]);
}
