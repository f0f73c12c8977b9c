use vstd::prelude::*;

verus! {

/// A person record, as joined into a report view.
#[derive(Debug, PartialEq, Eq)]
pub struct Person {
    pub id: i32,
    pub name: String,
}

impl Person {
    /// A field-by-field copy.
    pub fn duplicate(&self) -> (r: Person)
        ensures
            r == *self,
    {
        Person { id: self.id, name: self.name.clone() }
    }
}

/// Finds the person with the given identifier.
pub open spec fn person_by_id(persons: Seq<Person>, id: i32) -> Option<Person> {
    if exists|i: int| 0 <= i < persons.len() && persons[i].id == id {
        Some(persons[choose|i: int| 0 <= i < persons.len() && persons[i].id == id])
    } else {
        None
    }
}

/// No two persons share an identifier.
pub open spec fn persons_unique(persons: Seq<Person>) -> bool {
    forall|i: int, j: int|
        0 <= i < persons.len() && 0 <= j < persons.len() && persons[i].id == persons[j].id ==> i == j
}

/// A person found before stays found after another person is added.
pub proof fn lemma_person_push(persons: Seq<Person>, p: Person)
    requires
        persons_unique(persons),
        person_by_id(persons, p.id) is None,
    ensures
        persons_unique(persons.push(p)),
        forall|id: i32|
            person_by_id(persons, id) is Some ==> #[trigger] person_by_id(persons.push(p), id)
                == person_by_id(persons, id),
{
    let q = persons.push(p);
    assert forall|i: int, j: int| 0 <= i < q.len() && 0 <= j < q.len() && q[i].id == q[j].id implies i == j by {
        if i < persons.len() && j == persons.len() {
            assert(persons[i].id == p.id);
        } else if j < persons.len() && i == persons.len() {
            assert(persons[j].id == p.id);
        }
    }
    assert forall|id: i32| person_by_id(persons, id) is Some implies #[trigger] person_by_id(q, id)
        == person_by_id(persons, id) by {
        let k = choose|i: int| 0 <= i < persons.len() && persons[i].id == id;
        assert(q[k].id == id);
        let m = choose|i: int| 0 <= i < q.len() && q[i].id == id;
        assert(q[m].id == q[k].id);
    }
}

/// Looks up a person by identifier and copies it out.
pub fn find_person(persons: &Vec<Person>, id: i32) -> (r: Option<Person>)
    requires
        persons_unique(persons@),
    ensures
        r == person_by_id(persons@, id),
{
    let mut i: usize = 0;
    while i < persons.len()
        invariant
            0 <= i <= persons.len(),
            persons_unique(persons@),
            forall|k: int| 0 <= k < i ==> persons@[k].id != id,
        decreases persons.len() - i,
    {
        if persons[i].id == id {
            let r = persons[i].duplicate();
            assert(exists|k: int| 0 <= k < persons@.len() && persons@[k].id == id) by {
                assert(persons@[i as int].id == id);
            }
            let ghost j = choose|k: int| 0 <= k < persons@.len() && persons@[k].id == id;
            assert(persons@[j].id == persons@[i as int].id);
            assert(j == i);
            return Some(r);
        }
        i = i + 1;
    }
    None
}


/// A private message between two persons.
#[derive(Debug, PartialEq, Eq)]
pub struct PrivateMessage {
    pub id: i32,
    pub creator_id: i32,
    pub recipient_id: i32,
    pub content: String,
}

impl PrivateMessage {
    /// A field-by-field copy.
    pub fn duplicate(&self) -> (r: PrivateMessage)
        ensures
            r == *self,
    {
        PrivateMessage {
            id: self.id,
            creator_id: self.creator_id,
            recipient_id: self.recipient_id,
            content: self.content.clone(),
        }
    }
}

/// Finds the message with the given identifier.
pub open spec fn message_by_id(messages: Seq<PrivateMessage>, id: i32) -> Option<PrivateMessage> {
    if exists|i: int| 0 <= i < messages.len() && messages[i].id == id {
        Some(messages[choose|i: int| 0 <= i < messages.len() && messages[i].id == id])
    } else {
        None
    }
}

/// No two messages share an identifier.
pub open spec fn messages_unique(messages: Seq<PrivateMessage>) -> bool {
    forall|i: int, j: int|
        0 <= i < messages.len() && 0 <= j < messages.len() && messages[i].id == messages[j].id
            ==> i == j
}

/// Looks up a message by identifier and copies it out.
pub fn find_message(messages: &Vec<PrivateMessage>, id: i32) -> (r: Option<PrivateMessage>)
    requires
        messages_unique(messages@),
    ensures
        r == message_by_id(messages@, id),
{
    let mut i: usize = 0;
    while i < messages.len()
        invariant
            0 <= i <= messages.len(),
            messages_unique(messages@),
            forall|k: int| 0 <= k < i ==> messages@[k].id != id,
        decreases messages.len() - i,
    {
        if messages[i].id == id {
            let r = messages[i].duplicate();
            assert(messages@[i as int].id == id);
            let ghost j = choose|k: int| 0 <= k < messages@.len() && messages@[k].id == id;
            assert(messages@[j].id == messages@[i as int].id);
            return Some(r);
        }
        i = i + 1;
    }
    None
}

/// A report filed by a person against a private message.
#[derive(Debug, PartialEq, Eq)]
pub struct PrivateMessageReport {
    pub id: i32,
    pub creator_id: i32,
    pub private_message_id: i32,
    /// The message's text as it stood when the report was filed.
    pub original_pm_text: String,
    pub reason: String,
    pub resolved: bool,
    pub resolver_id: Option<i32>,
    pub published: i64,
}

impl PrivateMessageReport {
    /// A field-by-field copy.
    pub fn duplicate(&self) -> (r: PrivateMessageReport)
        ensures
            r == *self,
    {
        PrivateMessageReport {
            id: self.id,
            creator_id: self.creator_id,
            private_message_id: self.private_message_id,
            original_pm_text: self.original_pm_text.clone(),
            reason: self.reason.clone(),
            resolved: self.resolved,
            resolver_id: self.resolver_id,
            published: self.published,
        }
    }
}

/// The position of the report with the given identifier.
pub open spec fn report_index(reports: Seq<PrivateMessageReport>, id: i32) -> Option<int> {
    if exists|i: int| 0 <= i < reports.len() && reports[i].id == id {
        Some(choose|i: int| 0 <= i < reports.len() && reports[i].id == id)
    } else {
        None
    }
}

/// No two reports share an identifier.
pub open spec fn reports_unique(reports: Seq<PrivateMessageReport>) -> bool {
    forall|i: int, j: int|
        0 <= i < reports.len() && 0 <= j < reports.len() && reports[i].id == reports[j].id
            ==> i == j
}

/// Finds the position of a report by identifier.
pub fn find_report_index(reports: &Vec<PrivateMessageReport>, id: i32) -> (r: Option<usize>)
    requires
        reports_unique(reports@),
    ensures
        r matches Some(i) ==> report_index(reports@, id) == Some(i as int),
        r is None ==> report_index(reports@, id) is None,
{
    let mut i: usize = 0;
    while i < reports.len()
        invariant
            0 <= i <= reports.len(),
            reports_unique(reports@),
            forall|k: int| 0 <= k < i ==> reports@[k].id != id,
        decreases reports.len() - i,
    {
        if reports[i].id == id {
            assert(reports@[i as int].id == id);
            let ghost j = choose|k: int| 0 <= k < reports@.len() && reports@[k].id == id;
            assert(reports@[j].id == reports@[i as int].id);
            return Some(i);
        }
        i = i + 1;
    }
    None
}

/// Why an operation on the report store failed.
#[derive(Debug, PartialEq, Eq, Structural, Clone, Copy)]
pub enum ReportError {
    /// The requested report does not exist, or does not join to its message
    /// and persons.
    NotFound,
    /// The page or limit of a listing was rejected.
    InvalidArgument,
    /// A write would break the store's integrity: a duplicate identifier or a
    /// reference to a row that does not exist.
    StoreError,
}

/// The persons, messages and reports that the report views are built from.
#[derive(Debug, PartialEq, Eq)]
pub struct ReportStore {
    pub persons: Vec<Person>,
    pub private_messages: Vec<PrivateMessage>,
    pub reports: Vec<PrivateMessageReport>,
}

/// A report's resolution state is consistent: unresolved reports have no
/// resolver, resolved ones name an existing person.
pub open spec fn resolution_consistent(r: PrivateMessageReport, persons: Seq<Person>) -> bool {
    if r.resolved {
        r.resolver_id matches Some(rid) && person_by_id(persons, rid) is Some
    } else {
        r.resolver_id is None
    }
}

/// A report may stand in a store holding these persons.
pub open spec fn report_fits(r: PrivateMessageReport, persons: Seq<Person>) -> bool {
    &&& person_by_id(persons, r.creator_id) is Some
    &&& resolution_consistent(r, persons)
}

impl ReportStore {
    /// Identifiers are unique in each table; every message's author and every
    /// report's creator exist; each report's resolution state is consistent.
    pub open spec fn well_formed(&self) -> bool {
        &&& persons_unique(self.persons@)
        &&& messages_unique(self.private_messages@)
        &&& reports_unique(self.reports@)
        &&& forall|i: int|
            0 <= i < self.private_messages@.len() ==> person_by_id(
                self.persons@,
                #[trigger] self.private_messages@[i].creator_id,
            ) is Some
        &&& forall|i: int|
            0 <= i < self.reports@.len() ==> report_fits(#[trigger] self.reports@[i], self.persons@)
    }

    /// An empty store.
    pub fn new() -> (r: ReportStore)
        ensures
            r.well_formed(),
            r.persons@.len() == 0,
            r.private_messages@.len() == 0,
            r.reports@.len() == 0,
    {
        ReportStore { persons: Vec::new(), private_messages: Vec::new(), reports: Vec::new() }
    }

    /// Adds a person; fails when the identifier is taken.
    pub fn insert_person(&mut self, person: Person) -> (r: Result<(), ReportError>)
        requires
            old(self).well_formed(),
        ensures
            final(self).well_formed(),
            r is Err <==> person_by_id(old(self).persons@, person.id) is Some,
            r is Err ==> r == Err::<(), ReportError>(ReportError::StoreError) && *final(self) == *old(self),
            r is Ok ==> final(self).persons@ == old(self).persons@.push(person),
            final(self).private_messages@ == old(self).private_messages@,
            final(self).reports@ == old(self).reports@,
    {
        if find_person(&self.persons, person.id).is_some() {
            return Err(ReportError::StoreError);
        }
        let ghost ps = self.persons@;
        self.persons.push(person);
        proof {
            lemma_person_push(ps, person);
        }
        Ok(())
    }

    /// Adds a message; fails when the identifier is taken or its author does
    /// not exist.
    pub fn insert_private_message(&mut self, message: PrivateMessage) -> (r: Result<(), ReportError>)
        requires
            old(self).well_formed(),
        ensures
            final(self).well_formed(),
            r is Err <==> (message_by_id(old(self).private_messages@, message.id) is Some
                || person_by_id(old(self).persons@, message.creator_id) is None),
            r is Err ==> r == Err::<(), ReportError>(ReportError::StoreError) && *final(self) == *old(self),
            r is Ok ==> final(self).private_messages@ == old(self).private_messages@.push(message),
            final(self).persons@ == old(self).persons@,
            final(self).reports@ == old(self).reports@,
    {
        if find_message(&self.private_messages, message.id).is_some() || find_person(
            &self.persons,
            message.creator_id,
        ).is_none() {
            return Err(ReportError::StoreError);
        }
        let ghost ms = self.private_messages@;
        self.private_messages.push(message);
        proof {
            assert forall|i: int, j: int|
                0 <= i < self.private_messages@.len() && 0 <= j < self.private_messages@.len()
                    && self.private_messages@[i].id == self.private_messages@[j].id implies i == j by {
                if i < ms.len() && j == ms.len() {
                    assert(ms[i].id == message.id);
                } else if j < ms.len() && i == ms.len() {
                    assert(ms[j].id == message.id);
                }
            }
            assert forall|i: int| 0 <= i < self.private_messages@.len() implies person_by_id(
                self.persons@,
                #[trigger] self.private_messages@[i].creator_id,
            ) is Some by {
                if i < ms.len() {
                    assert(self.private_messages@[i] == ms[i]);
                }
            }
        }
        Ok(())
    }

    /// Adds a report; fails when the identifier is taken, its creator does
    /// not exist, or its resolution state is inconsistent.
    pub fn insert_report(&mut self, report: PrivateMessageReport) -> (r: Result<(), ReportError>)
        requires
            old(self).well_formed(),
        ensures
            final(self).well_formed(),
            r is Err <==> (report_index(old(self).reports@, report.id) is Some
                || !report_fits(report, old(self).persons@)),
            r is Err ==> r == Err::<(), ReportError>(ReportError::StoreError) && *final(self) == *old(self),
            r is Ok ==> final(self).reports@ == old(self).reports@.push(report),
            final(self).persons@ == old(self).persons@,
            final(self).private_messages@ == old(self).private_messages@,
    {
        if find_report_index(&self.reports, report.id).is_some() {
            return Err(ReportError::StoreError);
        }
        if find_person(&self.persons, report.creator_id).is_none() {
            return Err(ReportError::StoreError);
        }
        let consistent = if report.resolved {
            match report.resolver_id {
                Some(rid) => find_person(&self.persons, rid).is_some(),
                None => false,
            }
        } else {
            report.resolver_id.is_none()
        };
        if !consistent {
            return Err(ReportError::StoreError);
        }
        let ghost rs = self.reports@;
        self.reports.push(report);
        proof {
            assert forall|i: int, j: int|
                0 <= i < self.reports@.len() && 0 <= j < self.reports@.len()
                    && self.reports@[i].id == self.reports@[j].id implies i == j by {
                if i < rs.len() && j == rs.len() {
                    assert(rs[i].id == report.id);
                } else if j < rs.len() && i == rs.len() {
                    assert(rs[j].id == report.id);
                }
            }
            assert forall|i: int| 0 <= i < self.reports@.len() implies report_fits(
                #[trigger] self.reports@[i],
                self.persons@,
            ) by {
                if i < rs.len() {
                    assert(self.reports@[i] == rs[i]);
                }
            }
        }
        Ok(())
    }

    /// Marks a report resolved by the given person. Resolving a resolved
    /// report again replaces its resolver.
    pub fn resolve(&mut self, report_id: i32, resolver_id: i32) -> (r: Result<(), ReportError>)
        requires
            old(self).well_formed(),
        ensures
            final(self).well_formed(),
            final(self).persons@ == old(self).persons@,
            final(self).private_messages@ == old(self).private_messages@,
            report_index(old(self).reports@, report_id) is None ==> r == Err::<(), ReportError>(
                ReportError::NotFound,
            ),
            report_index(old(self).reports@, report_id) is Some && person_by_id(
                old(self).persons@,
                resolver_id,
            ) is None ==> r == Err::<(), ReportError>(ReportError::StoreError),
            r is Err ==> *final(self) == *old(self),
            r is Ok <==> (report_index(old(self).reports@, report_id) is Some && person_by_id(
                old(self).persons@,
                resolver_id,
            ) is Some),
            r is Ok ==> ({
                let i = report_index(old(self).reports@, report_id)->0;
                let before = old(self).reports@[i];
                final(self).reports@ == old(self).reports@.update(
                    i,
                    PrivateMessageReport { resolved: true, resolver_id: Some(resolver_id), ..before },
                )
            }),
    {
        let idx = match find_report_index(&self.reports, report_id) {
            Some(i) => i,
            None => return Err(ReportError::NotFound),
        };
        if find_person(&self.persons, resolver_id).is_none() {
            return Err(ReportError::StoreError);
        }
        let ghost rs = self.reports@;
        let mut updated = self.reports[idx].duplicate();
        updated.resolved = true;
        updated.resolver_id = Some(resolver_id);
        self.reports[idx] = updated;
        proof {
            assert forall|i: int, j: int|
                0 <= i < self.reports@.len() && 0 <= j < self.reports@.len()
                    && self.reports@[i].id == self.reports@[j].id implies i == j by {
                assert(rs[i].id == self.reports@[i].id);
                assert(rs[j].id == self.reports@[j].id);
            }
            assert forall|i: int| 0 <= i < self.reports@.len() implies report_fits(
                #[trigger] self.reports@[i],
                self.persons@,
            ) by {
                if i != idx {
                    assert(self.reports@[i] == rs[i]);
                }
                assert(report_fits(rs[i], self.persons@));
            }
        }
        Ok(())
    }
}

} // verus!
