use consensus_k8s::naming::node_name;

#[test]
fn single_digit_index_is_zero_padded() {
    assert_eq!(node_name(0), "consensus-node-00");
    assert_eq!(node_name(3), "consensus-node-03");
    assert_eq!(node_name(9), "consensus-node-09");
}

#[test]
fn two_digit_index_is_kept() {
    assert_eq!(node_name(10), "consensus-node-10");
    assert_eq!(node_name(42), "consensus-node-42");
    assert_eq!(node_name(99), "consensus-node-99");
}

#[test]
fn wider_index_is_written_in_full() {
    assert_eq!(node_name(100), "consensus-node-100");
    assert_eq!(node_name(1234), "consensus-node-1234");
}

#[test]
fn names_of_distinct_indices_differ() {
    let mut names: Vec<String> = (0..300).map(node_name).collect();
    names.sort();
    names.dedup();
    assert_eq!(names.len(), 300);
}

