//! The audit log query.
use vstd::prelude::*;

verus! {

/// How many audit entries to list.
#[derive(Debug, Clone)]
pub struct AuditQuery {
    pub limit: usize,
}

/// The entries listed, newest last (the entry type is the audit log's).
#[derive(Debug, Clone)]
pub struct AuditResponse<E> {
    pub entries: Vec<E>,
}

/// The limit used when the query gives none.
pub fn default_limit() -> (r: usize)
    ensures
        r == 200,
{
    200
}

/// The number of entries read: the query's limit, at most 2000.
pub fn effective_limit(q: &AuditQuery) -> (r: usize)
    ensures
        r == if q.limit < 2000 {
            q.limit
        } else {
            2000
        },
{
    if q.limit < 2000 {
        q.limit
    } else {
        2000
    }
}

/// The response for the entries read; none when no audit log is kept.
pub fn audit_response<E>(entries: Option<Vec<E>>) -> (r: AuditResponse<E>)
    ensures
        r.entries@ == match entries {
            Some(v) => v@,
            None => Seq::<E>::empty(),
        },
{
    match entries {
        Some(v) => AuditResponse { entries: v },
        None => AuditResponse { entries: Vec::new() },
    }
}

} // verus!
