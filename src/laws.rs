use vstd::prelude::*;

use crate::model::{person_by_id, PrivateMessageReport, ReportStore, report_fits};
use crate::query::{
    in_order, insert_sorted, is_listed, listing, order_for, page_of, selected, sort_views,
    sorted_by, unpaged_listing, PrivateMessageReportQuery, ReportOrder,
};
use crate::view::{compose_view, counts_as_pending, pending_count, PrivateMessageReportView};

verus! {

broadcast use vstd::seq_lib::group_to_multiset_ensures;

/// Inserting keeps the views, adds `x`, and keeps a sorted sequence sorted.
pub proof fn lemma_insert_sorted(s: Seq<PrivateMessageReportView>, x: PrivateMessageReportView, ord: ReportOrder)
    ensures
        insert_sorted(s, x, ord).len() == s.len() + 1,
        insert_sorted(s, x, ord).to_multiset() =~= s.to_multiset().insert(x),
        sorted_by(s, ord) ==> sorted_by(insert_sorted(s, x, ord), ord),
    decreases s.len(),
{
    if s.len() == 0 {
        assert(seq![x] == Seq::<PrivateMessageReportView>::empty().push(x));
    } else if in_order(ord, s.last(), x) {
    } else {
        let d = s.drop_last();
        let r = insert_sorted(d, x, ord);
        lemma_insert_sorted(d, x, ord);
        assert(d.push(s.last()) == s);
        if sorted_by(s, ord) {
            assert(sorted_by(d, ord));
            assert forall|k: int| 0 <= k < r.len() implies in_order(ord, #[trigger] r[k], s.last()) by {
                assert(r.contains(r[k]));
                assert(r.to_multiset().count(r[k]) > 0);
                if r[k] != x {
                    assert(d.to_multiset().count(r[k]) > 0);
                    assert(d.contains(r[k]));
                    let m = choose|m: int| 0 <= m < d.len() && d[m] == r[k];
                    assert(s[m] == d[m]);
                    assert(in_order(ord, s[m], s[s.len() - 1]));
                }
            }
            let t = r.push(s.last());
            assert forall|i: int, j: int| 0 <= i < j < t.len() implies in_order(ord, #[trigger] t[i], #[trigger] t[j]) by {
                if j == t.len() - 1 {
                    assert(t[i] == r[i]);
                } else {
                    assert(t[i] == r[i] && t[j] == r[j]);
                }
            }
        }
    }
}

/// Sorting keeps the views and yields a sorted sequence.
pub proof fn lemma_sort_views(s: Seq<PrivateMessageReportView>, ord: ReportOrder)
    ensures
        sort_views(s, ord).len() == s.len(),
        sort_views(s, ord).to_multiset() =~= s.to_multiset(),
        sorted_by(sort_views(s, ord), ord),
    decreases s.len(),
{
    if s.len() > 0 {
        let d = s.drop_last();
        lemma_sort_views(d, ord);
        lemma_insert_sorted(sort_views(d, ord), s.last(), ord);
        assert(d.push(s.last()) == s);
    }
}

/// A page of a sorted sequence is sorted, and holds views of the sequence.
pub proof fn lemma_page_of(s: Seq<PrivateMessageReportView>, limit: int, offset: int, ord: ReportOrder)
    requires
        0 <= limit,
        0 <= offset,
    ensures
        sorted_by(s, ord) ==> sorted_by(page_of(s, limit, offset), ord),
        forall|i: int|
            0 <= i < page_of(s, limit, offset).len() ==> #[trigger] page_of(s, limit, offset)[i]
                == s[offset + i],
        page_of(s, limit, offset).len() <= limit,
{
    let p = page_of(s, limit, offset);
    if sorted_by(s, ord) {
        assert forall|i: int, j: int| 0 <= i < j < p.len() implies in_order(ord, #[trigger] p[i], #[trigger] p[j]) by {
            assert(p[i] == s[offset + i] && p[j] == s[offset + j]);
        }
    }
}

/// What `selected` holds: views of listed reports only, and a view of each
/// listed report.
pub proof fn lemma_selected(st: ReportStore, unresolved_only: bool, rs: Seq<PrivateMessageReport>)
    ensures
        forall|v: PrivateMessageReportView|
            #[trigger] selected(st, unresolved_only, rs).contains(v) ==> exists|i: int|
                0 <= i < rs.len() && is_listed(st, unresolved_only, #[trigger] rs[i])
                    && compose_view(st, rs[i]) == Some(v),
        forall|i: int|
            0 <= i < rs.len() && is_listed(st, unresolved_only, #[trigger] rs[i]) ==> selected(
                st,
                unresolved_only,
                rs,
            ).contains(compose_view(st, rs[i])->0),
    decreases rs.len(),
{
    if rs.len() > 0 {
        let d = rs.drop_last();
        lemma_selected(st, unresolved_only, d);
        let e = selected(st, unresolved_only, d);
        let sel = selected(st, unresolved_only, rs);
        assert forall|v: PrivateMessageReportView| #[trigger] sel.contains(v) implies exists|i: int|
            0 <= i < rs.len() && is_listed(st, unresolved_only, #[trigger] rs[i]) && compose_view(st, rs[i])
                == Some(v) by {
            if e.contains(v) {
                let i = choose|i: int|
                    0 <= i < d.len() && is_listed(st, unresolved_only, #[trigger] d[i])
                        && compose_view(st, d[i]) == Some(v);
                assert(rs[i] == d[i]);
            } else {
                let k = choose|k: int| 0 <= k < sel.len() && sel[k] == v;
                assert(sel == e.push(compose_view(st, rs.last())->0));
                assert(k == e.len());
                assert(rs[rs.len() - 1] == rs.last());
            }
        }
        assert forall|i: int| 0 <= i < rs.len() && is_listed(st, unresolved_only, #[trigger] rs[i]) implies sel.contains(
            compose_view(st, rs[i])->0,
        ) by {
            if i < d.len() {
                assert(rs[i] == d[i]);
                let k = choose|k: int| 0 <= k < e.len() && e[k] == compose_view(st, d[i])->0;
                assert(sel[k] == e[k]);
            } else {
                assert(sel[sel.len() - 1] == compose_view(st, rs[i])->0);
            }
        }
    }
}

/// The pending count of reports of a well-formed store equals the number of
/// unresolved views they give.
pub proof fn lemma_pending_count(st: ReportStore, rs: Seq<PrivateMessageReport>)
    requires
        st.well_formed(),
        forall|i: int| 0 <= i < rs.len() ==> report_fits(#[trigger] rs[i], st.persons@),
    ensures
        pending_count(st, rs) == selected(st, true, rs).len(),
    decreases rs.len(),
{
    if rs.len() > 0 {
        let d = rs.drop_last();
        assert forall|i: int| 0 <= i < d.len() implies report_fits(#[trigger] d[i], st.persons@) by {
            assert(d[i] == rs[i]);
        }
        lemma_pending_count(st, d);
        let r = rs.last();
        assert(report_fits(rs[rs.len() - 1], st.persons@));
        if let Some(m) = crate::model::message_by_id(st.private_messages@, r.private_message_id) {
            let k = choose|k: int|
                0 <= k < st.private_messages@.len() && st.private_messages@[k].id == r.private_message_id;
            assert(person_by_id(st.persons@, st.private_messages@[k].creator_id) is Some);
        }
        assert(counts_as_pending(st, r) == is_listed(st, true, r));
    }
}

/// In a well-formed store, an unresolved report has no resolver, and a
/// resolved one names an existing person as its resolver.
pub proof fn resolution_state_is_consistent(st: ReportStore)
    requires
        st.well_formed(),
    ensures
        forall|i: int|
            0 <= i < st.reports@.len() && !(#[trigger] st.reports@[i]).resolved ==> st.reports@[i].resolver_id
                is None,
        forall|i: int|
            0 <= i < st.reports@.len() && (#[trigger] st.reports@[i]).resolved ==> (st.reports@[i].resolver_id
                matches Some(rid) && person_by_id(st.persons@, rid) is Some),
{
    assert forall|i: int| 0 <= i < st.reports@.len() implies report_fits(#[trigger] st.reports@[i], st.persons@) by {}
}

/// An unresolved-only listing holds unresolved reports alone, oldest first,
/// and before pagination it is exactly the unresolved reports that join.
pub proof fn unresolved_listing_is_pending_oldest_first(st: ReportStore, q: PrivateMessageReportQuery)
    requires
        st.well_formed(),
        q.unresolved_only,
    ensures
        unpaged_listing(st, true).to_multiset() =~= selected(st, true, st.reports@).to_multiset(),
        listing(st, q) matches Ok(v) ==> (forall|i: int|
            0 <= i < v.len() ==> !(#[trigger] v[i]).private_message_report.resolved),
        listing(st, q) matches Ok(v) ==> (forall|i: int, j: int|
            0 <= i < j < v.len() ==> (#[trigger] v[i]).private_message_report.published
                <= (#[trigger] v[j]).private_message_report.published),
{
    let sel = selected(st, true, st.reports@);
    let u = unpaged_listing(st, true);
    lemma_sort_views(sel, ReportOrder::PublishedAscending);
    lemma_selected(st, true, st.reports@);
    if let Ok(v) = listing(st, q) {
        let (l, o) = crate::pagination::page_window(q.page, q.limit)->0;
        lemma_page_of(u, l as int, o as int, ReportOrder::PublishedAscending);
        assert forall|i: int| 0 <= i < v.len() implies !(#[trigger] v[i]).private_message_report.resolved by {
            assert(v[i] == u[o + i]);
            assert(u.contains(u[o + i]));
            assert(u.to_multiset().count(u[o + i]) > 0);
            assert(sel.contains(v[i]));
        }
        assert forall|i: int, j: int| 0 <= i < j < v.len() implies (#[trigger] v[i]).private_message_report.published
            <= (#[trigger] v[j]).private_message_report.published by {
            assert(in_order(ReportOrder::PublishedAscending, v[i], v[j]));
        }
    }
}

/// A full listing, before pagination, holds a view of every report that
/// joins, resolved or not, and nothing else; every page of it is newest
/// first.
pub proof fn full_listing_is_complete_newest_first(st: ReportStore, q: PrivateMessageReportQuery)
    requires
        st.well_formed(),
        !q.unresolved_only,
    ensures
        unpaged_listing(st, false).to_multiset() =~= selected(st, false, st.reports@).to_multiset(),
        forall|i: int|
            0 <= i < st.reports@.len() && (#[trigger] compose_view(st, st.reports@[i])) is Some
                ==> unpaged_listing(st, false).contains(compose_view(st, st.reports@[i])->0),
        listing(st, q) matches Ok(v) ==> (forall|i: int, j: int|
            0 <= i < j < v.len() ==> (#[trigger] v[i]).private_message_report.published
                >= (#[trigger] v[j]).private_message_report.published),
{
    let sel = selected(st, false, st.reports@);
    let u = unpaged_listing(st, false);
    lemma_sort_views(sel, ReportOrder::PublishedDescending);
    lemma_selected(st, false, st.reports@);
    assert forall|i: int|
        0 <= i < st.reports@.len() && (#[trigger] compose_view(st, st.reports@[i])) is Some implies u.contains(
            compose_view(st, st.reports@[i])->0,
        ) by {
        assert(is_listed(st, false, st.reports@[i]));
        assert(sel.contains(compose_view(st, st.reports@[i])->0));
        assert(sel.to_multiset().count(compose_view(st, st.reports@[i])->0) > 0);
    }
    if let Ok(v) = listing(st, q) {
        let (l, o) = crate::pagination::page_window(q.page, q.limit)->0;
        lemma_page_of(u, l as int, o as int, ReportOrder::PublishedDescending);
        assert forall|i: int, j: int| 0 <= i < j < v.len() implies (#[trigger] v[i]).private_message_report.published
            >= (#[trigger] v[j]).private_message_report.published by {
            assert(in_order(ReportOrder::PublishedDescending, v[i], v[j]));
        }
    }
}

/// The unresolved count equals the length of the unresolved-only listing
/// before pagination.
pub proof fn pending_count_is_unpaged_listing_length(st: ReportStore)
    requires
        st.well_formed(),
    ensures
        pending_count(st, st.reports@) == unpaged_listing(st, true).len(),
{
    lemma_pending_count(st, st.reports@);
    lemma_sort_views(selected(st, true, st.reports@), order_for(true));
}

} // verus!
