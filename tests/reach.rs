use yk_sections::reach::reachable_definitions;

#[test]
fn walk_follows_references_through_cycles() {
    // 0 -> 1 -> 2 -> 0 (a cycle), 2 -> 3, 4 is never referenced, 5 refers to itself.
    let succ = vec![vec![1], vec![2], vec![0, 3], vec![], vec![0], vec![5]];
    let r = reachable_definitions(&vec![0], &succ);
    assert_eq!(r, vec![0, 1, 2, 3]);
}

#[test]
fn walk_visits_each_definition_once() {
    let succ = vec![vec![1, 1, 2], vec![2, 0], vec![1], vec![3]];
    let r = reachable_definitions(&vec![3, 0, 3, 0], &succ);
    assert_eq!(r, vec![3, 0, 1, 2]);
}

#[test]
fn walk_from_no_roots_is_empty() {
    let succ = vec![vec![0], vec![0]];
    assert!(reachable_definitions(&vec![], &succ).is_empty());
    assert!(reachable_definitions(&vec![], &vec![]).is_empty());
}
