use vstd::prelude::*;

use crate::model::{
    find_message, find_person, find_report_index, message_by_id, person_by_id, report_index,
    Person, PrivateMessage, PrivateMessageReport, ReportError, ReportStore,
};

verus! {

/// A report with its message, the message's author, the report's creator and,
/// once resolved, the resolver.
#[derive(Debug, PartialEq, Eq)]
pub struct PrivateMessageReportView {
    pub private_message_report: PrivateMessageReport,
    pub private_message: PrivateMessage,
    pub private_message_creator: Person,
    pub creator: Person,
    pub resolver: Option<Person>,
}

/// Joins a report to its message, the message's author and the report's
/// creator (all required) and to its resolver (optional).
pub open spec fn compose_view(st: ReportStore, r: PrivateMessageReport) -> Option<
    PrivateMessageReportView,
> {
    match message_by_id(st.private_messages@, r.private_message_id) {
        None => None,
        Some(m) => match (person_by_id(st.persons@, m.creator_id), person_by_id(st.persons@, r.creator_id)) {
            (Some(author), Some(creator)) => Some(
                PrivateMessageReportView {
                    private_message_report: r,
                    private_message: m,
                    private_message_creator: author,
                    creator: creator,
                    resolver: match r.resolver_id {
                        None => None,
                        Some(rid) => person_by_id(st.persons@, rid),
                    },
                },
            ),
            _ => None,
        },
    }
}

/// The view of the report with the given identifier, if it exists and joins.
pub open spec fn read_view(st: ReportStore, report_id: i32) -> Result<
    PrivateMessageReportView,
    ReportError,
> {
    match report_index(st.reports@, report_id) {
        None => Err(ReportError::NotFound),
        Some(i) => match compose_view(st, st.reports@[i]) {
            None => Err(ReportError::NotFound),
            Some(v) => Ok(v),
        },
    }
}

/// A report counts as pending when it is unresolved and its message exists.
pub open spec fn counts_as_pending(st: ReportStore, r: PrivateMessageReport) -> bool {
    !r.resolved && message_by_id(st.private_messages@, r.private_message_id) is Some
}

/// The number of pending reports among `rs`.
pub open spec fn pending_count(st: ReportStore, rs: Seq<PrivateMessageReport>) -> nat
    decreases rs.len(),
{
    if rs.len() == 0 {
        0
    } else {
        pending_count(st, rs.drop_last()) + if counts_as_pending(st, rs.last()) {
            1nat
        } else {
            0nat
        }
    }
}

/// Builds the view of one report of the store.
pub fn compose(st: &ReportStore, r: &PrivateMessageReport) -> (v: Option<PrivateMessageReportView>)
    requires
        st.well_formed(),
    ensures
        v == compose_view(*st, *r),
{
    let m = match find_message(&st.private_messages, r.private_message_id) {
        Some(m) => m,
        None => return None,
    };
    let author = match find_person(&st.persons, m.creator_id) {
        Some(p) => p,
        None => return None,
    };
    let creator = match find_person(&st.persons, r.creator_id) {
        Some(p) => p,
        None => return None,
    };
    let resolver = match r.resolver_id {
        None => None,
        Some(rid) => find_person(&st.persons, rid),
    };
    Some(
        PrivateMessageReportView {
            private_message_report: r.duplicate(),
            private_message: m,
            private_message_creator: author,
            creator,
            resolver,
        },
    )
}

impl PrivateMessageReportView {
    /// The view of the report with the given identifier; `NotFound` when no
    /// such report exists or it does not join to its message.
    pub fn read(pool: &ReportStore, report_id: i32) -> (r: Result<Self, ReportError>)
        requires
            pool.well_formed(),
        ensures
            r == read_view(*pool, report_id),
    {
        match find_report_index(&pool.reports, report_id) {
            None => Err(ReportError::NotFound),
            Some(i) => match compose(pool, &pool.reports[i]) {
                None => Err(ReportError::NotFound),
                Some(v) => Ok(v),
            },
        }
    }

    /// The number of unresolved reports whose message exists.
    pub fn get_report_count(pool: &ReportStore) -> (r: u64)
        requires
            pool.well_formed(),
        ensures
            r == pending_count(*pool, pool.reports@),
    {
        let mut n: u64 = 0;
        let mut i: usize = 0;
        while i < pool.reports.len()
            invariant
                pool.well_formed(),
                0 <= i <= pool.reports@.len(),
                n == pending_count(*pool, pool.reports@.take(i as int)),
                n <= i,
            decreases pool.reports@.len() - i,
        {
            let r = &pool.reports[i];
            assert(pool.reports@.take(i + 1).drop_last() == pool.reports@.take(i as int));
            let counted = !r.resolved && find_message(&pool.private_messages, r.private_message_id).is_some();
            if counted {
                n = n + 1;
            }
            i = i + 1;
        }
        assert(pool.reports@.take(i as int) == pool.reports@);
        n
    }
}

} // verus!
