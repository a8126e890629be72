use kv_store::membership::init;
use std::collections::BTreeMap;

#[test]
fn empty_request_names_this_node() {
    let nodes = init(1, "127.0.0.1:21001".to_string(), vec![]);
    let mut expected = BTreeMap::new();
    expected.insert(1u64, "127.0.0.1:21001".to_string());
    assert_eq!(nodes, expected);
}

#[test]
fn request_names_the_members() {
    let nodes = init(
        1,
        "127.0.0.1:21001".to_string(),
        vec![(2, "b:2".to_string()), (3, "c:3".to_string())],
    );
    let mut expected = BTreeMap::new();
    expected.insert(2u64, "b:2".to_string());
    expected.insert(3u64, "c:3".to_string());
    assert_eq!(nodes, expected);
}

#[test]
fn last_address_of_a_node_counts() {
    let nodes = init(
        1,
        "a:1".to_string(),
        vec![(2, "old:2".to_string()), (3, "c:3".to_string()), (2, "new:2".to_string())],
    );
    assert_eq!(nodes.len(), 2);
    assert_eq!(nodes.get(&2), Some(&"new:2".to_string()));
    assert_eq!(nodes.get(&3), Some(&"c:3".to_string()));
}
