//! Convergence: the repositories that a company keeps are brought in line
//! with those that GitHub lists. The converger says which call to make next,
//! is told how the call went, and keeps a record.

use vstd::prelude::*;
use crate::index::{holds_key, key_sorted, without, lemma_without, IdentityIndex};
use crate::repos::{GithubRepo, NewRepo};

verus! {

/// What was asked of the store or of the mirror.
#[derive(Clone, Copy, Debug, PartialEq, Eq, Structural)]
pub enum Operation {
    /// A listed repository that the company did not keep was put in the
    /// store.
    Create,
    /// A listed repository that the company kept was written over in the
    /// store.
    Update,
    /// A kept repository that is no longer listed was taken out of the
    /// store.
    Delete,
    /// A repository put in the store was written to the mirror.
    MirrorUpsert,
    /// A repository taken out of the store was taken out of the mirror.
    MirrorDelete,
}

/// How a call ended.
#[derive(Debug, PartialEq, Clone)]
pub enum Outcome {
    Done,
    /// The call failed, with the error that was given.
    Failed(String),
}

/// One line of the record: the name of a repository, what was asked, and
/// how it ended.
#[derive(Debug, PartialEq, Clone)]
pub struct ConvergeEntry {
    pub key: String,
    pub operation: Operation,
    pub outcome: Outcome,
}

/// The call that the converger asks for.
pub enum ConvergeAction<'a> {
    /// Put the repository in the store, over the one of its name if there
    /// is one.
    StoreUpsert(&'a NewRepo),
    /// Write the repository to the mirror.
    MirrorUpsert(&'a NewRepo),
    /// Take the repository out of the store.
    StoreDelete(&'a GithubRepo),
    /// Take the repository out of the mirror.
    MirrorDelete(&'a GithubRepo),
    /// Nothing is left to do.
    Finished,
}

/// The call that the converger asks for, as a value of its own.
pub enum ConvergeActionView {
    StoreUpsert(NewRepo),
    MirrorUpsert(NewRepo),
    StoreDelete(GithubRepo),
    MirrorDelete(GithubRepo),
    Finished,
}

impl<'a> View for ConvergeAction<'a> {
    type V = ConvergeActionView;

    open spec fn view(&self) -> ConvergeActionView {
        match *self {
            ConvergeAction::StoreUpsert(record) => ConvergeActionView::StoreUpsert(*record),
            ConvergeAction::MirrorUpsert(record) => ConvergeActionView::MirrorUpsert(*record),
            ConvergeAction::StoreDelete(record) => ConvergeActionView::StoreDelete(*record),
            ConvergeAction::MirrorDelete(record) => ConvergeActionView::MirrorDelete(*record),
            ConvergeAction::Finished => ConvergeActionView::Finished,
        }
    }
}

impl ConvergeActionView {
    /// The call is about a repository of this company, or about none.
    pub open spec fn concerns(self, tenant: i32) -> bool {
        match self {
            ConvergeActionView::StoreUpsert(record) => record.cio_company_id == tenant,
            ConvergeActionView::MirrorUpsert(record) => record.cio_company_id == tenant,
            ConvergeActionView::StoreDelete(record) => record.repo.cio_company_id == tenant,
            ConvergeActionView::MirrorDelete(record) => record.repo.cio_company_id == tenant,
            ConvergeActionView::Finished => true,
        }
    }
}

/// The records of a listing that belong to a company, in the order of the
/// listing.
pub open spec fn of_company(records: Seq<NewRepo>, tenant: i32) -> Seq<NewRepo>
    decreases records.len(),
{
    if records.len() == 0 {
        Seq::empty()
    } else if records.last().cio_company_id == tenant {
        of_company(records.drop_last(), tenant).push(records.last())
    } else {
        of_company(records.drop_last(), tenant)
    }
}

/// Every record of `of_company` belongs to the company.
pub proof fn lemma_of_company(records: Seq<NewRepo>, tenant: i32)
    ensures
        forall|i: int|
            0 <= i < of_company(records, tenant).len() ==> (#[trigger] of_company(
                records,
                tenant,
            )[i]).cio_company_id == tenant,
    decreases records.len(),
{
    if records.len() > 0 {
        lemma_of_company(records.drop_last(), tenant);
        let kept = of_company(records, tenant);
        let before = of_company(records.drop_last(), tenant);
        assert forall|i: int| 0 <= i < kept.len() implies (#[trigger] kept[i]).cio_company_id
            == tenant by {
            if i < before.len() {
                assert(kept[i] == before[i]);
            }
        }
    }
}

/// One of the first `upto` records goes by the name `key`.
pub open spec fn lists(remote: Seq<NewRepo>, upto: int, key: Seq<char>) -> bool {
    exists|i: int| 0 <= i < upto && i < remote.len() && #[trigger] remote[i].key() == key
}

/// The line that a call about the repository named `key` leaves in the
/// record.
pub open spec fn line(
    key: String,
    operation: Operation,
    answer: Result<(), String>,
) -> ConvergeEntry {
    ConvergeEntry {
        key,
        operation,
        outcome: match answer {
            Ok(_) => Outcome::Done,
            Err(error) => Outcome::Failed(error),
        },
    }
}

/// The state of a convergence run.
pub struct ConvergerView {
    /// The company whose repositories are converged.
    pub tenant: i32,
    /// The repositories of the company that GitHub lists, in the order of
    /// the listing.
    pub remote: Seq<NewRepo>,
    /// The listed repository at hand; the length of `remote` once all have
    /// been put in the store.
    pub at: int,
    /// The kept repositories that no listed repository has matched so far,
    /// in the order of keys.
    pub working: Seq<GithubRepo>,
    /// The store took the change at hand, and the mirror is to follow.
    pub mirror_due: bool,
    /// The record so far.
    pub entries: Seq<ConvergeEntry>,
}

impl ConvergerView {
    /// The state is one that a run can be in.
    pub open spec fn wf(self) -> bool {
        &&& 0 <= self.at <= self.remote.len()
        &&& key_sorted(self.working)
        &&& forall|i: int|
            0 <= i < self.working.len() ==> (#[trigger] self.working[i]).repo.cio_company_id
                == self.tenant
        &&& forall|i: int|
            0 <= i < self.remote.len() ==> (#[trigger] self.remote[i]).cio_company_id == self.tenant
        &&& self.mirror_due ==> !self.finished()
    }

    /// Listed repositories are still to be put in the store.
    pub open spec fn upserting(self) -> bool {
        self.at < self.remote.len()
    }

    /// The run is over: every listed repository has been put in the store,
    /// and no kept repository is left unmatched.
    pub open spec fn finished(self) -> bool {
        self.at >= self.remote.len() && self.working.len() == 0
    }

    /// The state in which a run starts: nothing is done yet, and the kept
    /// repositories of the index are all unmatched.
    pub open spec fn start(tenant: i32, listed: Seq<NewRepo>, index: Seq<GithubRepo>) -> Self {
        ConvergerView {
            tenant,
            remote: of_company(listed, tenant),
            at: 0,
            working: index,
            mirror_due: false,
            entries: Seq::empty(),
        }
    }

    /// The call that is asked for in this state.
    pub open spec fn action(self) -> ConvergeActionView {
        if self.upserting() {
            if self.mirror_due {
                ConvergeActionView::MirrorUpsert(self.remote[self.at])
            } else {
                ConvergeActionView::StoreUpsert(self.remote[self.at])
            }
        } else if self.working.len() > 0 {
            if self.mirror_due {
                ConvergeActionView::MirrorDelete(self.working[0])
            } else {
                ConvergeActionView::StoreDelete(self.working[0])
            }
        } else {
            ConvergeActionView::Finished
        }
    }

    /// The state after the call asked for has been answered. A listed
    /// repository is matched whether the store took it or not; the mirror is
    /// written only after the store took the change; and a failure is noted
    /// and the run goes on.
    pub open spec fn step(self, answer: Result<(), String>) -> Self {
        if self.upserting() {
            let record = self.remote[self.at];
            if self.mirror_due {
                ConvergerView {
                    at: self.at + 1,
                    mirror_due: false,
                    entries: self.entries.push(line(record.name, Operation::MirrorUpsert, answer)),
                    ..self
                }
            } else {
                let operation = if holds_key(self.working, record.key()) {
                    Operation::Update
                } else {
                    Operation::Create
                };
                ConvergerView {
                    at: if answer is Ok {
                        self.at
                    } else {
                        self.at + 1
                    },
                    working: without(self.working, record.key()),
                    mirror_due: answer is Ok,
                    entries: self.entries.push(line(record.name, operation, answer)),
                    ..self
                }
            }
        } else if self.working.len() > 0 {
            let record = self.working[0];
            if self.mirror_due {
                ConvergerView {
                    working: self.working.drop_first(),
                    mirror_due: false,
                    entries: self.entries.push(
                        line(record.repo.name, Operation::MirrorDelete, answer),
                    ),
                    ..self
                }
            } else {
                ConvergerView {
                    working: if answer is Ok {
                        self.working
                    } else {
                        self.working.drop_first()
                    },
                    mirror_due: answer is Ok,
                    entries: self.entries.push(line(record.repo.name, Operation::Delete, answer)),
                    ..self
                }
            }
        } else {
            self
        }
    }
}

/// A step takes a state that a run can be in to another such state.
pub proof fn lemma_step_wf(state: ConvergerView, answer: Result<(), String>)
    requires
        state.wf(),
    ensures
        state.step(answer).wf(),
{
    let next = state.step(answer);
    if state.upserting() {
        if !state.mirror_due {
            lemma_without(state.working, state.remote[state.at].key());
            assert forall|i: int| 0 <= i < next.working.len() implies
                (#[trigger] next.working[i]).repo.cio_company_id
                == next.tenant by {
                assert(state.working.contains(next.working[i]));
            }
        }
    } else if state.working.len() > 0 {
        let rest = state.working.drop_first();
        assert forall|i: int, j: int| 0 <= i < j < rest.len() implies crate::text::precedes(
            #[trigger] rest[i].key(),
            #[trigger] rest[j].key(),
        ) by {
            assert(crate::text::precedes(state.working[i + 1].key(), state.working[j + 1].key()));
        }
        assert forall|i: int| 0 <= i < rest.len() implies (#[trigger] rest[i]).repo.cio_company_id
            == state.tenant by {
            assert(rest[i] == state.working[i + 1]);
        }
    }
}

/// The number of lines that tell of this operation, ended this way.
pub open spec fn tally(entries: Seq<ConvergeEntry>, operation: Operation, done: bool) -> nat
    decreases entries.len(),
{
    if entries.len() == 0 {
        0
    } else {
        tally(entries.drop_last(), operation, done) + if entries.last().operation == operation
            && (entries.last().outcome is Done) == done {
            1nat
        } else {
            0nat
        }
    }
}

/// A call that failed: the name of the repository, what was asked, and the
/// error.
#[derive(Debug, PartialEq, Clone)]
pub struct Failure {
    pub key: String,
    pub operation: Operation,
    pub error: String,
}

/// The failures that a record tells of, in the order of the record.
pub open spec fn failures_of(entries: Seq<ConvergeEntry>) -> Seq<Failure>
    decreases entries.len(),
{
    if entries.len() == 0 {
        Seq::empty()
    } else {
        match entries.last().outcome {
            Outcome::Done => failures_of(entries.drop_last()),
            Outcome::Failed(error) => failures_of(entries.drop_last()).push(
                Failure { key: entries.last().key, operation: entries.last().operation, error },
            ),
        }
    }
}

/// What a convergence run did: how many repositories were created, updated
/// and deleted in the store, how many calls to the store and to the mirror
/// failed, and each failure with the repository's name and the error.
#[derive(Debug, PartialEq, Clone)]
pub struct ConvergeReport {
    pub created: usize,
    pub updated: usize,
    pub deleted: usize,
    /// The calls to the store that failed.
    pub failed: usize,
    /// The calls to the mirror that failed. They take no success of the
    /// store back.
    pub mirror_failed: usize,
    pub failures: Vec<Failure>,
}

impl ConvergeReport {
    /// The report sums up the record `entries`.
    pub open spec fn sums_up(&self, entries: Seq<ConvergeEntry>) -> bool {
        &&& self.created == tally(entries, Operation::Create, true)
        &&& self.updated == tally(entries, Operation::Update, true)
        &&& self.deleted == tally(entries, Operation::Delete, true)
        &&& self.failed == tally(entries, Operation::Create, false) + tally(
            entries,
            Operation::Update,
            false,
        ) + tally(entries, Operation::Delete, false)
        &&& self.mirror_failed == tally(entries, Operation::MirrorUpsert, false) + tally(
            entries,
            Operation::MirrorDelete,
            false,
        )
        &&& self.failures@ == failures_of(entries)
    }

    /// Sums up a record.
    pub fn of_entries(entries: Vec<ConvergeEntry>) -> (report: ConvergeReport)
        ensures
            report.sums_up(entries@),
    {
        let mut report = ConvergeReport {
            created: 0,
            updated: 0,
            deleted: 0,
            failed: 0,
            mirror_failed: 0,
            failures: Vec::new(),
        };
        let total = entries.len();
        for entry in it: entries
            invariant
                it.seq().len() == total,
                report.sums_up(it.seq().take(it.index() as int)),
                report.created + report.updated + report.deleted + report.failed
                    + report.mirror_failed <= it.index(),
        {
            proof {
                let upto = it.seq().take(it.index() + 1);
                assert(upto.drop_last() =~= it.seq().take(it.index() as int));
                assert(upto.last() == entry);
            }
            match entry.outcome {
                Outcome::Done => {
                    match entry.operation {
                        Operation::Create => {
                            report.created += 1;
                        },
                        Operation::Update => {
                            report.updated += 1;
                        },
                        Operation::Delete => {
                            report.deleted += 1;
                        },
                        _ => {},
                    }
                },
                Outcome::Failed(error) => {
                    match entry.operation {
                        Operation::MirrorUpsert => {
                            report.mirror_failed += 1;
                        },
                        Operation::MirrorDelete => {
                            report.mirror_failed += 1;
                        },
                        _ => {
                            report.failed += 1;
                        },
                    }
                    report.failures.push(
                        Failure { key: entry.key, operation: entry.operation, error },
                    );
                },
            }
        }
        assert(entries@.take(entries@.len() as int) =~= entries@);
        report
    }
}

/// A convergence run: the repositories that GitHub lists for a company, the
/// kept repositories that none of them has matched so far, and the record.
pub struct Converger {
    remote: Vec<NewRepo>,
    at: usize,
    working: IdentityIndex,
    mirror_due: bool,
    entries: Vec<ConvergeEntry>,
}

impl View for Converger {
    type V = ConvergerView;

    closed spec fn view(&self) -> ConvergerView {
        ConvergerView {
            tenant: self.working.tenant(),
            remote: self.remote@,
            at: self.at as int,
            working: self.working@,
            mirror_due: self.mirror_due,
            entries: self.entries@,
        }
    }
}

fn keep_company(records: Vec<NewRepo>, tenant: i32) -> (kept: Vec<NewRepo>)
    ensures
        kept@ == of_company(records@, tenant),
{
    let mut kept: Vec<NewRepo> = Vec::new();
    for record in it: records
        invariant
            kept@ == of_company(it.seq().take(it.index() as int), tenant),
    {
        proof {
            let upto = it.seq().take(it.index() + 1);
            assert(upto.drop_last() =~= it.seq().take(it.index() as int));
            assert(upto.last() == record);
        }
        if record.cio_company_id == tenant {
            kept.push(record);
        }
    }
    assert(records@.take(records@.len() as int) =~= records@);
    kept
}

impl Converger {
    /// Starts a run for the company of the index, with a listing that was
    /// read in full. Listed repositories of another company are passed over.
    pub fn begin(remote_records: Vec<NewRepo>, persisted_index: IdentityIndex) -> (run: Converger)
        ensures
            run@ == ConvergerView::start(
                persisted_index.tenant(),
                remote_records@,
                persisted_index@,
            ),
            persisted_index.wf() ==> run@.wf(),
    {
        let tenant = persisted_index.company();
        proof {
            lemma_of_company(remote_records@, tenant);
        }
        let remote = keep_company(remote_records, tenant);
        Converger {
            remote,
            at: 0,
            working: persisted_index,
            mirror_due: false,
            entries: Vec::new(),
        }
    }

    /// Whether the run is over.
    pub fn is_finished(&self) -> (over: bool)
        ensures
            over == self@.finished(),
    {
        self.at >= self.remote.len() && self.working.len() == 0
    }

    /// The call to make next. It is about a repository of the company of
    /// the run, never about another's.
    pub fn action(&self) -> (asked: ConvergeAction<'_>)
        ensures
            asked@ == self@.action(),
            self@.wf() ==> asked@.concerns(self@.tenant),
    {
        if self.at < self.remote.len() {
            if self.mirror_due {
                ConvergeAction::MirrorUpsert(&self.remote[self.at])
            } else {
                ConvergeAction::StoreUpsert(&self.remote[self.at])
            }
        } else {
            match self.working.first() {
                Some(record) => {
                    if self.mirror_due {
                        ConvergeAction::MirrorDelete(record)
                    } else {
                        ConvergeAction::StoreDelete(record)
                    }
                },
                None => ConvergeAction::Finished,
            }
        }
    }

    /// Takes the answer to the call that was asked for, and moves on.
    pub fn advance(&mut self, answer: Result<(), String>)
        ensures
            final(self)@ == old(self)@.step(answer),
            old(self)@.wf() ==> final(self)@.wf(),
    {
        proof {
            if self@.wf() {
                lemma_step_wf(self@, answer);
            }
        }
        let done = answer.is_ok();
        let outcome = match answer {
            Ok(_) => Outcome::Done,
            Err(error) => Outcome::Failed(error),
        };
        if self.at < self.remote.len() {
            let key = self.remote[self.at].name.clone();
            if self.mirror_due {
                self.entries.push(
                    ConvergeEntry { key, operation: Operation::MirrorUpsert, outcome },
                );
                self.at = self.at + 1;
                self.mirror_due = false;
            } else {
                let operation = if self.working.has(key.as_str()) {
                    Operation::Update
                } else {
                    Operation::Create
                };
                self.working.remove(key.as_str());
                self.entries.push(ConvergeEntry { key, operation, outcome });
                if done {
                    self.mirror_due = true;
                } else {
                    self.at = self.at + 1;
                }
            }
        } else {
            let key = match self.working.first() {
                Some(record) => record.repo.name.clone(),
                None => {
                    return ;
                },
            };
            if self.mirror_due {
                self.entries.push(
                    ConvergeEntry { key, operation: Operation::MirrorDelete, outcome },
                );
                self.working.drop_first();
                self.mirror_due = false;
            } else {
                self.entries.push(ConvergeEntry { key, operation: Operation::Delete, outcome });
                if done {
                    self.mirror_due = true;
                } else {
                    self.working.drop_first();
                }
            }
        }
    }

    /// The record so far.
    pub fn entries(&self) -> (entries: &Vec<ConvergeEntry>)
        ensures
            entries@ == self@.entries,
    {
        &self.entries
    }

    /// Ends the run and sums up its record.
    pub fn into_report(self) -> (report: ConvergeReport)
        ensures
            report.sums_up(self@.entries),
    {
        ConvergeReport::of_entries(self.entries)
    }
}

} // verus!
