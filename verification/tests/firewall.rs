use fwp::firewall::pending_confirm_of;
use fwp::error::ApiError;
use fwp::firewall::{find_rule_index, next_after_max, reorder_indices};

#[test]
fn reorder_picks_first_left() {
    let ids = vec![10, 20, 30, 20];
    assert_eq!(reorder_indices(&ids, &vec![30, 20, 10]), vec![2, 1, 0]);
    assert_eq!(reorder_indices(&ids, &vec![20, 20, 20]), vec![1, 3]);
    assert_eq!(reorder_indices(&ids, &vec![99, 10]), vec![0]);
    assert_eq!(reorder_indices(&ids, &vec![]), Vec::<usize>::new());
}

#[test]
fn find_rule_by_id() {
    let ids = vec![5, 7, 7];
    assert_eq!(find_rule_index(&ids, 7, "firewall rule not found").unwrap(), 1);
    assert!(matches!(
        find_rule_index(&ids, 8, "NAT rule not found"),
        Err(ApiError::NotFound(m)) if m == "NAT rule not found"
    ));
}

#[test]
fn next_id_after_largest() {
    assert_eq!(next_after_max(&vec![]), 1);
    assert_eq!(next_after_max(&vec![3, 9, 4]), 10);
    assert_eq!(next_after_max(&vec![-5]), 1);
}

#[test]
fn pending_confirm_only_when_pending() {
    let p = pending_confirm_of("pending", 1700000000, 60, "apply".to_string()).unwrap();
    assert_eq!((p.expires_at, p.timeout_seconds, p.operation.as_str()), (1700000000, 60, "apply"));
    assert!(pending_confirm_of("confirmed", 1, 60, "apply".to_string()).is_none());
}
