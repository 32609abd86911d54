use fwp::audit::{audit_response, default_limit, effective_limit, AuditQuery};

#[test]
fn audit_limit_capped() {
    assert_eq!(default_limit(), 200);
    assert_eq!(effective_limit(&AuditQuery { limit: 50 }), 50);
    assert_eq!(effective_limit(&AuditQuery { limit: 2000 }), 2000);
    assert_eq!(effective_limit(&AuditQuery { limit: 99999 }), 2000);
}

#[test]
fn audit_response_empty_when_unread() {
    assert!(audit_response::<u32>(None).entries.is_empty());
    assert_eq!(audit_response(Some(vec![1u32, 2])).entries, vec![1, 2]);
}
