use db_views::model::{Person, PrivateMessage, PrivateMessageReport, ReportError, ReportStore};
use db_views::pagination::limit_and_offset;
use db_views::query::PrivateMessageReportQuery;
use db_views::view::PrivateMessageReportView;

fn person(id: i32, name: &str) -> Person {
    Person { id, name: name.to_string() }
}

fn message(id: i32, creator_id: i32, recipient_id: i32, content: &str) -> PrivateMessage {
    PrivateMessage { id, creator_id, recipient_id, content: content.to_string() }
}

fn report(id: i32, creator_id: i32, pm: &PrivateMessage, reason: &str, published: i64) -> PrivateMessageReport {
    PrivateMessageReport {
        id,
        creator_id,
        private_message_id: pm.id,
        original_pm_text: pm.content.clone(),
        reason: reason.to_string(),
        resolved: false,
        resolver_id: None,
        published,
    }
}

fn unresolved_only() -> PrivateMessageReportQuery {
    PrivateMessageReportQuery { unresolved_only: true, ..Default::default() }
}

/// timmy messages jessica; jessica reports the message.
fn reported_store() -> ReportStore {
    let mut store = ReportStore::new();
    store.insert_person(person(1, "timmy_mrv")).unwrap();
    store.insert_person(person(2, "jessica_mrv")).unwrap();
    let pm = message(1, 1, 2, "something offensive");
    store.insert_private_message(message(1, 1, 2, "something offensive")).unwrap();
    store.insert_report(report(1, 2, &pm, "its offensive", 100)).unwrap();
    store
}

/// Three reports by jessica, published at times 30, 10 and 20.
fn three_report_store() -> ReportStore {
    let mut store = reported_store();
    let pm = message(1, 1, 2, "something offensive");
    let mut first = report(1, 2, &pm, "a", 30);
    first.id = 10;
    store.insert_report(first).unwrap();
    store.insert_report(report(11, 2, &pm, "b", 10)).unwrap();
    store.insert_report(report(12, 2, &pm, "c", 20)).unwrap();
    store
}

fn published_of(views: &[PrivateMessageReportView]) -> Vec<i64> {
    views.iter().map(|v| v.private_message_report.published).collect()
}

#[test]
fn test_crud() {
    let mut store = ReportStore::new();
    let timmy = person(1, "timmy_mrv");
    let jessica = person(2, "jessica_mrv");
    store.insert_person(person(1, "timmy_mrv")).unwrap();
    store.insert_person(person(2, "jessica_mrv")).unwrap();

    // timmy sends private message to jessica
    let pm = message(1, timmy.id, jessica.id, "something offensive");
    store.insert_private_message(message(1, timmy.id, jessica.id, "something offensive")).unwrap();

    // jessica reports private message
    let pm_report = report(1, jessica.id, &pm, "its offensive", 100);
    store.insert_report(report(1, jessica.id, &pm, "its offensive", 100)).unwrap();

    let reports = PrivateMessageReportQuery::default().list(&store).unwrap();
    assert_eq!(1, reports.len());
    assert!(!reports[0].private_message_report.resolved);
    assert_eq!(timmy.name, reports[0].private_message_creator.name);
    assert_eq!(jessica.name, reports[0].creator.name);
    assert_eq!(pm_report.reason, reports[0].private_message_report.reason);
    assert_eq!(pm.content, reports[0].private_message.content);

    let admin = person(3, "admin_mrv");
    store.insert_person(person(3, "admin_mrv")).unwrap();

    // admin resolves the report (after taking appropriate action)
    store.resolve(pm_report.id, admin.id).unwrap();

    let reports = PrivateMessageReportQuery { unresolved_only: false, ..Default::default() }
        .list(&store)
        .unwrap();
    assert_eq!(1, reports.len());
    assert!(reports[0].private_message_report.resolved);
    assert!(reports[0].resolver.is_some());
    assert_eq!(Some(&admin.name), reports[0].resolver.as_ref().map(|r| &r.name));
}

#[test]
fn reported_message_is_listed_as_unresolved() {
    let store = reported_store();
    let reports = unresolved_only().list(&store).unwrap();
    assert_eq!(reports.len(), 1);
    assert!(!reports[0].private_message_report.resolved);
    assert_eq!(reports[0].creator.name, "jessica_mrv");
    assert_eq!(reports[0].private_message_creator.name, "timmy_mrv");
    assert_eq!(reports[0].private_message_report.reason, "its offensive");
    assert_eq!(reports[0].private_message_report.original_pm_text, "something offensive");
    assert_eq!(reports[0].resolver, None);
    assert_eq!(PrivateMessageReportView::get_report_count(&store), 1);
}

#[test]
fn resolved_report_leaves_the_unresolved_listing() {
    let mut store = reported_store();
    store.insert_person(person(3, "admin_mrv")).unwrap();
    assert_eq!(store.resolve(1, 3), Ok(()));

    let all = PrivateMessageReportQuery::default().list(&store).unwrap();
    assert_eq!(all.len(), 1);
    assert!(all[0].private_message_report.resolved);
    assert_eq!(all[0].private_message_report.resolver_id, Some(3));
    assert_eq!(all[0].resolver.as_ref().map(|r| r.name.clone()), Some("admin_mrv".to_string()));

    assert!(unresolved_only().list(&store).unwrap().is_empty());
    assert_eq!(PrivateMessageReportView::get_report_count(&store), 0);
}

#[test]
fn empty_listing_is_not_an_error() {
    let store = ReportStore::new();
    assert_eq!(unresolved_only().list(&store), Ok(vec![]));
    assert_eq!(PrivateMessageReportQuery::default().list(&store), Ok(vec![]));
    assert_eq!(PrivateMessageReportView::get_report_count(&store), 0);
}

#[test]
fn reading_a_missing_report_is_not_found() {
    let store = reported_store();
    assert_eq!(PrivateMessageReportView::read(&store, 42), Err(ReportError::NotFound));
    assert_eq!(PrivateMessageReportView::read(&ReportStore::new(), 1), Err(ReportError::NotFound));
}

#[test]
fn reading_twice_gives_the_same_view() {
    let store = reported_store();
    let first = PrivateMessageReportView::read(&store, 1).unwrap();
    let second = PrivateMessageReportView::read(&store, 1).unwrap();
    assert_eq!(first, second);
    assert_eq!(first.private_message.content, "something offensive");
    assert_eq!(first.creator.name, "jessica_mrv");
}

#[test]
fn unresolved_listing_is_oldest_first() {
    let store = three_report_store();
    let reports = unresolved_only().list(&store).unwrap();
    assert_eq!(published_of(&reports), vec![10, 20, 30, 100]);
}

#[test]
fn full_listing_is_newest_first() {
    let mut store = three_report_store();
    store.resolve(12, 1).unwrap();
    let reports = PrivateMessageReportQuery::default().list(&store).unwrap();
    assert_eq!(published_of(&reports), vec![100, 30, 20, 10]);
    let pending = unresolved_only().list(&store).unwrap();
    assert_eq!(published_of(&pending), vec![10, 30, 100]);
    assert_eq!(PrivateMessageReportView::get_report_count(&store), pending.len() as u64);
}

#[test]
fn equal_times_keep_store_order() {
    let mut store = reported_store();
    let pm = message(1, 1, 2, "something offensive");
    store.insert_report(report(2, 1, &pm, "second", 100)).unwrap();
    let asc = unresolved_only().list(&store).unwrap();
    let desc = PrivateMessageReportQuery::default().list(&store).unwrap();
    assert_eq!(asc.iter().map(|v| v.private_message_report.id).collect::<Vec<_>>(), vec![1, 2]);
    assert_eq!(desc.iter().map(|v| v.private_message_report.id).collect::<Vec<_>>(), vec![1, 2]);
}

#[test]
fn listing_returns_the_requested_page() {
    let store = three_report_store();
    let page = PrivateMessageReportQuery { page: Some(2), limit: Some(3), unresolved_only: true };
    assert_eq!(published_of(&page.list(&store).unwrap()), vec![100]);
    let first = PrivateMessageReportQuery { page: Some(1), limit: Some(2), unresolved_only: false };
    assert_eq!(published_of(&first.list(&store).unwrap()), vec![100, 30]);
    let beyond = PrivateMessageReportQuery { page: Some(5), limit: Some(2), unresolved_only: false };
    assert_eq!(beyond.list(&store), Ok(vec![]));
}

#[test]
fn listing_rejects_bad_pages() {
    let store = reported_store();
    let zero_page = PrivateMessageReportQuery { page: Some(0), limit: None, unresolved_only: false };
    assert_eq!(zero_page.list(&store), Err(ReportError::InvalidArgument));
    let big_limit = PrivateMessageReportQuery { page: None, limit: Some(51), unresolved_only: true };
    assert_eq!(big_limit.list(&store), Err(ReportError::InvalidArgument));
}

#[test]
fn pagination_limits_and_offsets() {
    assert_eq!(limit_and_offset(None, None), Ok((10, 0)));
    assert_eq!(limit_and_offset(Some(3), Some(20)), Ok((20, 40)));
    assert_eq!(limit_and_offset(Some(1), Some(50)), Ok((50, 0)));
    assert_eq!(limit_and_offset(Some(0), None), Err(ReportError::InvalidArgument));
    assert_eq!(limit_and_offset(Some(-1), None), Err(ReportError::InvalidArgument));
    assert_eq!(limit_and_offset(None, Some(0)), Err(ReportError::InvalidArgument));
    assert_eq!(limit_and_offset(None, Some(51)), Err(ReportError::InvalidArgument));
    assert_eq!(limit_and_offset(Some(i64::MAX), Some(50)), Err(ReportError::InvalidArgument));
}

#[test]
fn report_without_its_message_is_left_out() {
    let mut store = reported_store();
    let missing = message(99, 1, 2, "gone");
    store.insert_report(report(2, 2, &missing, "orphan", 5)).unwrap();
    assert_eq!(PrivateMessageReportView::read(&store, 2), Err(ReportError::NotFound));
    assert_eq!(PrivateMessageReportView::get_report_count(&store), 1);
    assert_eq!(unresolved_only().list(&store).unwrap().len(), 1);
    assert_eq!(PrivateMessageReportQuery::default().list(&store).unwrap().len(), 1);
}

#[test]
fn store_rejects_broken_rows() {
    let mut store = reported_store();
    assert_eq!(store.insert_person(person(1, "again")), Err(ReportError::StoreError));
    assert_eq!(store.insert_private_message(message(1, 1, 2, "dup")), Err(ReportError::StoreError));
    assert_eq!(store.insert_private_message(message(2, 7, 2, "ghost")), Err(ReportError::StoreError));
    let pm = message(1, 1, 2, "something offensive");
    assert_eq!(store.insert_report(report(1, 2, &pm, "dup", 1)), Err(ReportError::StoreError));
    assert_eq!(store.insert_report(report(2, 7, &pm, "stranger", 1)), Err(ReportError::StoreError));
    let mut no_resolver = report(3, 2, &pm, "half done", 1);
    no_resolver.resolved = true;
    assert_eq!(store.insert_report(no_resolver), Err(ReportError::StoreError));
    let mut stray_resolver = report(4, 2, &pm, "stray", 1);
    stray_resolver.resolver_id = Some(1);
    assert_eq!(store.insert_report(stray_resolver), Err(ReportError::StoreError));
    assert_eq!(store.reports.len(), 1);
}

#[test]
fn resolve_errors_and_re_resolution() {
    let mut store = reported_store();
    assert_eq!(store.resolve(9, 1), Err(ReportError::NotFound));
    assert_eq!(store.resolve(1, 9), Err(ReportError::StoreError));
    assert!(!store.reports[0].resolved);
    store.insert_person(person(3, "admin_mrv")).unwrap();
    store.resolve(1, 3).unwrap();
    store.resolve(1, 1).unwrap();
    let view = PrivateMessageReportView::read(&store, 1).unwrap();
    assert!(view.private_message_report.resolved);
    assert_eq!(view.resolver.map(|r| r.name), Some("timmy_mrv".to_string()));
}
