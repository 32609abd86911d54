//! Firewall requests: the edits made to the staged rule lists while the
//! firewall runs, which pick rules by their ids.
use vstd::prelude::*;
use crate::error::{ApiError, ApiResult};

verus! {

/// The packet filter in use.
#[derive(Debug, Clone, Copy, PartialEq, Eq)]
pub enum FirewallDriver {
    Ipfw,
    Pf,
}

/// Whether traffic is denied unless allowed, or allowed unless denied.
#[derive(Debug, Clone, Copy, PartialEq, Eq)]
pub enum FirewallMode {
    Whitelist,
    Blacklist,
}

/// The firewall as the status request reports it.
#[derive(Debug, Clone)]
pub struct FirewallStatus {
    pub driver: Option<FirewallDriver>,
    pub initialized: bool,
    pub enabled: bool,
    pub mode: Option<FirewallMode>,
    pub module_loaded: bool,
    pub rules_count: i64,
    pub pending_apply: bool,
    pub pending_confirm: Option<PendingConfirmInfo>,
}

/// The driver and mode to set up.
#[derive(Debug, Clone)]
pub struct InitializeBody {
    pub driver: FirewallDriver,
    pub mode: FirewallMode,
}

/// The driver to switch to.
#[derive(Debug, Clone)]
pub struct SwitchBody {
    pub driver: FirewallDriver,
}

/// The mode to set.
#[derive(Debug, Clone)]
pub struct ModeBody {
    pub mode: FirewallMode,
}

/// A change that reverts unless confirmed in time.
#[derive(Debug, Clone)]
pub struct PendingConfirmInfo {
    pub expires_at: i64,
    pub timeout_seconds: i64,
    pub operation: String,
}

/// Rule ids in their new order.
#[derive(Debug, Clone)]
pub struct ReorderBody {
    pub ordered_ids: Vec<i64>,
}

/// The first position of `rest` whose rule has id `id`.
pub open spec fn first_with(ids: Seq<i64>, rest: Seq<int>, id: i64) -> Option<int> {
    if exists|p: int| 0 <= p < rest.len() && ids[rest[p]] == id {
        Some(
            choose|p: int|
                0 <= p < rest.len() && ids[rest[p]] == id && forall|q: int|
                    0 <= q < p ==> ids[rest[q]] != id,
        )
    } else {
        None
    }
}

/// The rules (by index) picked, and those left, after the ids `ordered`:
/// each id takes out the first rule left that has it; an id that no rule
/// left has is passed over.
pub open spec fn reorder_state(ids: Seq<i64>, ordered: Seq<i64>) -> (Seq<int>, Seq<int>)
    decreases ordered.len(),
{
    if ordered.len() == 0 {
        (Seq::empty(), Seq::new(ids.len(), |k: int| k))
    } else {
        let (picked, rest) = reorder_state(ids, ordered.drop_last());
        match first_with(ids, rest, ordered.last()) {
            Some(p) => (picked.push(rest[p]), rest.remove(p)),
            None => (picked, rest),
        }
    }
}

proof fn lemma_first_with(ids: Seq<i64>, rest: Seq<int>, id: i64, p: int)
    requires
        0 <= p < rest.len(),
        ids[rest[p]] == id,
        forall|q: int| 0 <= q < p ==> ids[rest[q]] != id,
    ensures
        first_with(ids, rest, id) == Some(p),
{
    assert(0 <= p < rest.len() && ids[rest[p]] == id && forall|q: int| 0 <= q < p ==> ids[rest[q]] != id);
    let c = choose|c: int|
        0 <= c < rest.len() && ids[rest[c]] == id && forall|q: int| 0 <= q < c ==> ids[rest[q]] != id;
    assert(0 <= c < rest.len() && ids[rest[c]] == id && forall|q: int| 0 <= q < c ==> ids[rest[q]] != id);
    if c < p {
        assert(ids[rest[c]] != id);
    } else if c > p {
        assert(ids[rest[p]] != id);
    }
}

pub open spec fn as_ints(v: Seq<usize>) -> Seq<int> {
    v.map_values(|x: usize| x as int)
}

/// The new order of a staged rule list: the indices of the rules, in the
/// order the ids `ordered` pick them; a rule whose id is not picked is left
/// out. The rules are then numbered from 0 in this order.
pub fn reorder_indices(ids: &Vec<i64>, ordered: &Vec<i64>) -> (r: Vec<usize>)
    ensures
        as_ints(r@) == reorder_state(ids@, ordered@).0,
{
    let mut rest: Vec<usize> = Vec::new();
    let mut k: usize = 0;
    while k < ids.len()
        invariant
            k <= ids@.len(),
            rest@.len() == k,
            forall|a: int| 0 <= a < k ==> (#[trigger] rest@[a]) == a,
        decreases ids@.len() - k,
    {
        rest.push(k);
        k += 1;
    }
    let mut picked: Vec<usize> = Vec::new();
    let mut i: usize = 0;
    assert(ordered@.take(0) =~= Seq::<i64>::empty());
    assert(as_ints(picked@) =~= Seq::<int>::empty());
    assert(reorder_state(ids@, ordered@.take(0)) == (Seq::<int>::empty(), Seq::new(ids@.len(), |x: int| x)));
    assert(as_ints(rest@) =~= Seq::new(ids@.len(), |x: int| x));
    while i < ordered.len()
        invariant
            i <= ordered@.len(),
            (as_ints(picked@), as_ints(rest@)) == reorder_state(ids@, ordered@.take(i as int)),
            forall|a: int| 0 <= a < rest@.len() ==> (#[trigger] rest@[a]) < ids@.len(),
        decreases ordered@.len() - i,
    {
        let id = ordered[i];
        let ghost before = (as_ints(picked@), as_ints(rest@));
        assert(ordered@.take(i + 1).drop_last() =~= ordered@.take(i as int));
        assert(ordered@.take(i + 1).last() == id);
        let mut p: usize = 0;
        while p < rest.len() && ids[rest[p]] != id
            invariant
                p <= rest@.len(),
                forall|a: int| 0 <= a < rest@.len() ==> (#[trigger] rest@[a]) < ids@.len(),
                forall|q: int| 0 <= q < p ==> ids@[as_ints(rest@)[q]] != id,
            decreases rest@.len() - p,
        {
            p += 1;
        }
        if p < rest.len() {
            proof {
                lemma_first_with(ids@, as_ints(rest@), id, p as int);
            }
            let x = rest.remove(p);
            picked.push(x);
            assert(as_ints(picked@) =~= before.0.push(before.1[p as int]));
            assert(as_ints(rest@) =~= before.1.remove(p as int));
        } else {
            assert(first_with(ids@, as_ints(rest@), id) is None);
        }
        i += 1;
    }
    assert(ordered@.take(ordered@.len() as int) =~= ordered@);
    r_of(picked)
}

fn r_of(v: Vec<usize>) -> (r: Vec<usize>)
    ensures
        r@ == v@,
{
    v
}

/// The index of the first rule with id `id`; `NotFound` with `missing`
/// when there is none.
pub fn find_rule_index(ids: &Vec<i64>, id: i64, missing: &str) -> (r: ApiResult<usize>)
    ensures
        r matches Ok(k) ==> k < ids@.len() && ids@[k as int] == id && forall|q: int|
            0 <= q < k ==> ids@[q] != id,
        r is Err ==> (forall|q: int| 0 <= q < ids@.len() ==> ids@[q] != id) && crate::error::is_not_found(
            r,
            missing@,
        ),
{
    let mut k: usize = 0;
    while k < ids.len()
        invariant
            k <= ids@.len(),
            forall|q: int| 0 <= q < k ==> ids@[q] != id,
        decreases ids@.len() - k,
    {
        if ids[k] == id {
            return Ok(k);
        }
        k += 1;
    }
    Err(ApiError::NotFound(crate::text::owned(missing)))
}

/// The number after the largest of `values`, or 1 when there are none: the
/// id (or position) of a rule added to a staged list.
pub open spec fn max_or_zero(v: Seq<i64>) -> int
    decreases v.len(),
{
    if v.len() == 0 {
        0
    } else {
        let m = max_or_zero(v.drop_last());
        if v.last() > m {
            v.last() as int
        } else {
            m
        }
    }
}

pub fn next_after_max(values: &Vec<i64>) -> (r: i64)
    requires
        max_or_zero(values@) < i64::MAX,
    ensures
        r == max_or_zero(values@) + 1,
{
    let mut m: i64 = 0;
    let mut i: usize = 0;
    assert(values@.take(0) =~= Seq::<i64>::empty());
    while i < values.len()
        invariant
            i <= values@.len(),
            m == max_or_zero(values@.take(i as int)),
        decreases values@.len() - i,
    {
        assert(values@.take(i + 1).drop_last() =~= values@.take(i as int));
        if values[i] > m {
            m = values[i];
        }
        i += 1;
    }
    assert(values@.take(values@.len() as int) =~= values@);
    m + 1
}

/// The pending confirmation a status shows: only a recorded change whose
/// status is still `pending`.
pub fn pending_confirm_of(status: &str, expires_at: i64, timeout_seconds: i64, operation: String) -> (r: Option<
    PendingConfirmInfo,
>)
    ensures
        r is Some <==> status@ == "pending"@,
        r matches Some(p) ==> p.expires_at == expires_at && p.timeout_seconds == timeout_seconds
            && p.operation@ == operation@,
{
    if crate::text::str_eq(status, "pending") {
        Some(PendingConfirmInfo { expires_at, timeout_seconds, operation })
    } else {
        None
    }
}

} // verus!
