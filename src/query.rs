use vstd::prelude::*;

use crate::model::{PrivateMessageReport, ReportError, ReportStore};
use crate::pagination::{limit_and_offset, page_window};
use crate::view::{compose, compose_view, PrivateMessageReportView};

verus! {

/// The order in which a listing returns reports.
#[derive(Debug, PartialEq, Eq, Structural, Clone, Copy)]
pub enum ReportOrder {
    /// Oldest first: the backlog is cleared in arrival order.
    PublishedAscending,
    /// Newest first: recent activity comes first.
    PublishedDescending,
}

/// Unresolved-only listings go oldest first, full listings newest first.
pub open spec fn order_for(unresolved_only: bool) -> ReportOrder {
    if unresolved_only {
        ReportOrder::PublishedAscending
    } else {
        ReportOrder::PublishedDescending
    }
}

/// `a` may stand before `b` in a listing of the given order.
pub open spec fn in_order(ord: ReportOrder, a: PrivateMessageReportView, b: PrivateMessageReportView) -> bool {
    match ord {
        ReportOrder::PublishedAscending => a.private_message_report.published
            <= b.private_message_report.published,
        ReportOrder::PublishedDescending => a.private_message_report.published
            >= b.private_message_report.published,
    }
}

/// Every earlier view may stand before every later one.
pub open spec fn sorted_by(s: Seq<PrivateMessageReportView>, ord: ReportOrder) -> bool {
    forall|i: int, j: int| 0 <= i < j < s.len() ==> in_order(ord, #[trigger] s[i], #[trigger] s[j])
}

/// Places `x` after every view of `s` that may stand before it, and before the
/// rest.
pub open spec fn insert_sorted(
    s: Seq<PrivateMessageReportView>,
    x: PrivateMessageReportView,
    ord: ReportOrder,
) -> Seq<PrivateMessageReportView>
    decreases s.len(),
{
    if s.len() == 0 {
        seq![x]
    } else if in_order(ord, s.last(), x) {
        s.push(x)
    } else {
        insert_sorted(s.drop_last(), x, ord).push(s.last())
    }
}

/// The stable sort of `s` by publication time in the given order: views
/// with equal times keep their relative order.
pub open spec fn sort_views(s: Seq<PrivateMessageReportView>, ord: ReportOrder) -> Seq<
    PrivateMessageReportView,
>
    decreases s.len(),
{
    if s.len() == 0 {
        Seq::empty()
    } else {
        insert_sorted(sort_views(s.drop_last(), ord), s.last(), ord)
    }
}

/// A report is listed when it passes the filter and joins.
pub open spec fn is_listed(st: ReportStore, unresolved_only: bool, r: PrivateMessageReport) -> bool {
    (!unresolved_only || !r.resolved) && compose_view(st, r) is Some
}

/// The views of the listed reports among `rs`, in the order of `rs`.
pub open spec fn selected(st: ReportStore, unresolved_only: bool, rs: Seq<PrivateMessageReport>) -> Seq<
    PrivateMessageReportView,
>
    decreases rs.len(),
{
    if rs.len() == 0 {
        Seq::empty()
    } else {
        let earlier = selected(st, unresolved_only, rs.drop_last());
        if is_listed(st, unresolved_only, rs.last()) {
            earlier.push(compose_view(st, rs.last())->0)
        } else {
            earlier
        }
    }
}

/// Every listed report of the store, ordered as the filter asks, before
/// pagination.
pub open spec fn unpaged_listing(st: ReportStore, unresolved_only: bool) -> Seq<PrivateMessageReportView> {
    sort_views(selected(st, unresolved_only, st.reports@), order_for(unresolved_only))
}

/// At most `limit` views of `s`, starting at `offset`.
pub open spec fn page_of(s: Seq<PrivateMessageReportView>, limit: int, offset: int) -> Seq<
    PrivateMessageReportView,
> {
    if offset >= s.len() {
        Seq::empty()
    } else if offset + limit >= s.len() {
        s.subrange(offset, s.len() as int)
    } else {
        s.subrange(offset, offset + limit)
    }
}


/// The order a filter asks for.
pub fn order_of(unresolved_only: bool) -> (r: ReportOrder)
    ensures
        r == order_for(unresolved_only),
{
    if unresolved_only {
        ReportOrder::PublishedAscending
    } else {
        ReportOrder::PublishedDescending
    }
}

fn stands_before(ord: ReportOrder, a: &PrivateMessageReportView, b: &PrivateMessageReportView) -> (r: bool)
    ensures
        r == in_order(ord, *a, *b),
{
    match ord {
        ReportOrder::PublishedAscending => a.private_message_report.published
            <= b.private_message_report.published,
        ReportOrder::PublishedDescending => a.private_message_report.published
            >= b.private_message_report.published,
    }
}

/// Inserts `x` into `out` at the place that `insert_sorted` gives.
pub fn insert_in_order(out: &mut Vec<PrivateMessageReportView>, x: PrivateMessageReportView, ord: ReportOrder)
    ensures
        final(out)@ == insert_sorted(old(out)@, x, ord),
{
    let ghost s = out@;
    let mut p: usize = out.len();
    assert(s.take(p as int) == s);
    assert(insert_sorted(s, x, ord) + s.subrange(p as int, s.len() as int) == insert_sorted(s, x, ord));
    while p > 0 && !stands_before(ord, &out[p - 1], &x)
        invariant
            out@ == s,
            0 <= p <= s.len(),
            insert_sorted(s, x, ord) == insert_sorted(s.take(p as int), x, ord) + s.subrange(
                p as int,
                s.len() as int,
            ),
        decreases p,
    {
        let ghost t = s.take(p as int);
        assert(t.drop_last() == s.take(p - 1));
        assert(s.subrange(p - 1, s.len() as int) == seq![t.last()] + s.subrange(p as int, s.len() as int));
        assert(insert_sorted(t, x, ord) == insert_sorted(s.take(p - 1), x, ord).push(t.last()));
        assert(insert_sorted(s.take(p - 1), x, ord).push(t.last()) + s.subrange(p as int, s.len() as int)
            == insert_sorted(s.take(p - 1), x, ord) + s.subrange(p - 1, s.len() as int));
        p = p - 1;
    }
    proof {
        let t = s.take(p as int);
        if p == 0 {
            assert(t.len() == 0);
        } else {
            assert(t.last() == s[p - 1]);
        }
        assert(insert_sorted(t, x, ord) == t.push(x));
        assert(t.push(x) + s.subrange(p as int, s.len() as int) == s.insert(p as int, x));
    }
    out.insert(p, x);
}

/// Sorts views by publication time in the given order, keeping the relative
/// order of views with equal times.
pub fn sort_in_order(v: Vec<PrivateMessageReportView>, ord: ReportOrder) -> (r: Vec<PrivateMessageReportView>)
    ensures
        r@ == sort_views(v@, ord),
{
    let ghost s = v@;
    let mut rest = v;
    let mut out: Vec<PrivateMessageReportView> = Vec::new();
    let mut k: usize = 0;
    let n = rest.len();
    while rest.len() > 0
        invariant
            n == s.len(),
            0 <= k <= n,
            rest@ == s.subrange(k as int, n as int),
            out@ == sort_views(s.take(k as int), ord),
        decreases rest.len(),
    {
        let x = rest.remove(0);
        assert(x == s[k as int]);
        assert(s.take(k + 1).drop_last() == s.take(k as int));
        assert(rest@ == s.subrange(k + 1, n as int));
        insert_in_order(&mut out, x, ord);
        k = k + 1;
    }
    assert(s.take(k as int) == s);
    out
}

/// The views of the listed reports of the store, in store order.
pub fn select_views(st: &ReportStore, unresolved_only: bool) -> (r: Vec<PrivateMessageReportView>)
    requires
        st.well_formed(),
    ensures
        r@ == selected(*st, unresolved_only, st.reports@),
{
    let mut out: Vec<PrivateMessageReportView> = Vec::new();
    let mut i: usize = 0;
    while i < st.reports.len()
        invariant
            st.well_formed(),
            0 <= i <= st.reports@.len(),
            out@ == selected(*st, unresolved_only, st.reports@.take(i as int)),
        decreases st.reports@.len() - i,
    {
        let r = &st.reports[i];
        assert(st.reports@.take(i + 1).drop_last() == st.reports@.take(i as int));
        assert(st.reports@.take(i + 1).last() == st.reports@[i as int]);
        if !unresolved_only || !r.resolved {
            match compose(st, r) {
                Some(v) => out.push(v),
                None => {},
            }
        }
        i = i + 1;
    }
    assert(st.reports@.take(i as int) == st.reports@);
    out
}

/// At most `limit` views of `v`, starting at `offset`.
pub fn take_page(v: Vec<PrivateMessageReportView>, limit: i64, offset: i64) -> (r: Vec<PrivateMessageReportView>)
    requires
        limit >= 0,
        offset >= 0,
    ensures
        r@ == page_of(v@, limit as int, offset as int),
{
    let ghost s = v@;
    let mut rest = v;
    let mut out: Vec<PrivateMessageReportView> = Vec::new();
    let n = rest.len();
    if offset as u64 >= n as u64 {
        return out;
    }
    let start = offset as usize;
    let end: usize = if (limit as u64) >= (n - start) as u64 {
        n
    } else {
        start + limit as usize
    };
    let mut k: usize = start;
    while k < end
        invariant
            n == s.len(),
            start <= k <= end <= n,
            rest@ == s.subrange(0, start as int) + s.subrange(k as int, n as int),
            out@ == s.subrange(start as int, k as int),
        decreases end - k,
    {
        let x = rest.remove(start);
        assert(x == s[k as int]);
        assert(rest@ == s.subrange(0, start as int) + s.subrange(k + 1, n as int));
        out.push(x);
        assert(out@ == s.subrange(start as int, k + 1));
        k = k + 1;
    }
    out
}

/// What a listing returns: the page of the ordered listing that `page` and
/// `limit` select, or `InvalidArgument` when they are rejected.
pub open spec fn listing(st: ReportStore, q: PrivateMessageReportQuery) -> Result<
    Seq<PrivateMessageReportView>,
    ReportError,
> {
    match page_window(q.page, q.limit) {
        None => Err(ReportError::InvalidArgument),
        Some((l, o)) => Ok(page_of(unpaged_listing(st, q.unresolved_only), l as int, o as int)),
    }
}

/// The filter and the page of a report listing.
#[derive(Debug, Clone, Copy)]
pub struct PrivateMessageReportQuery {
    pub page: Option<i64>,
    pub limit: Option<i64>,
    pub unresolved_only: bool,
}

impl Default for PrivateMessageReportQuery {
    fn default() -> (r: Self)
        ensures
            r.page is None,
            r.limit is None,
            !r.unresolved_only,
    {
        PrivateMessageReportQuery { page: None, limit: None, unresolved_only: false }
    }
}

impl PrivateMessageReportQuery {
    /// Lists the reports that pass the filter, ordered oldest first when only
    /// unresolved reports are asked for and newest first otherwise, and
    /// returns the requested page.
    pub fn list(self, pool: &ReportStore) -> (r: Result<Vec<PrivateMessageReportView>, ReportError>)
        requires
            pool.well_formed(),
        ensures
            match r {
                Ok(v) => listing(*pool, self) == Ok::<Seq<PrivateMessageReportView>, ReportError>(v@),
                Err(e) => listing(*pool, self) == Err::<Seq<PrivateMessageReportView>, ReportError>(e),
            },
    {
        let (limit, offset) = match limit_and_offset(self.page, self.limit) {
            Ok(w) => w,
            Err(e) => return Err(e),
        };
        let chosen = select_views(pool, self.unresolved_only);
        let sorted = sort_in_order(chosen, order_of(self.unresolved_only));
        Ok(take_page(sorted, limit, offset))
    }
}

} // verus!
