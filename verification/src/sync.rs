//! A run from its two readings: what GitHub lists, page by page, and what
//! the company keeps.

use vstd::prelude::*;
use crate::converge::{of_company, Converger, ConvergerView};
use crate::enforce::{Enforcer, EnforcerView};
use crate::error::RunError;
use crate::index::{clashes, first_clash, key_sorted, IdentityIndex};
use crate::policy::{Policy, Team};
use crate::repos::{GithubRepo, NewRepo, Repo};
use crate::teams::{ascending, wanted};

verus! {

/// The page at `at` is the first that failed.
pub open spec fn first_failed_at(pages: Seq<Result<Vec<Repo>, String>>, at: int) -> bool {
    &&& 0 <= at < pages.len()
    &&& pages[at] is Err
    &&& forall|k: int| 0 <= k < at ==> (#[trigger] pages[k]) is Ok
}

/// Every page was read.
pub open spec fn all_read(pages: Seq<Result<Vec<Repo>, String>>) -> bool {
    forall|k: int| 0 <= k < pages.len() ==> (#[trigger] pages[k]) is Ok
}

/// The repositories of all pages that were read, in the order of the
/// listing.
pub open spec fn flattened(pages: Seq<Result<Vec<Repo>, String>>) -> Seq<Repo>
    decreases pages.len(),
{
    if pages.len() == 0 {
        Seq::empty()
    } else {
        flattened(pages.drop_last()) + match pages.last() {
            Ok(page) => page@,
            Err(_) => Seq::empty(),
        }
    }
}

/// The repository at `at` is the first that cannot be recorded.
pub open spec fn first_unrecordable_at(repos: Seq<Repo>, at: int) -> bool {
    &&& 0 <= at < repos.len()
    &&& !repos[at].recordable()
    &&& forall|k: int| 0 <= k < at ==> (#[trigger] repos[k]).recordable()
}

/// Every repository can be recorded.
pub open spec fn all_recordable(repos: Seq<Repo>) -> bool {
    forall|k: int| 0 <= k < repos.len() ==> (#[trigger] repos[k]).recordable()
}

/// The records are those of the repositories, one for one, for the company
/// given.
pub open spec fn record_each(records: Seq<NewRepo>, repos: Seq<Repo>, cio_company_id: i32) -> bool {
    &&& records.len() == repos.len()
    &&& forall|i: int|
        0 <= i < records.len() ==> (#[trigger] records[i]).records(&repos[i], cio_company_id)
}

/// What a listing comes to. It is all or nothing: where a page failed, the
/// error of the first such page and no record; where a repository cannot be
/// recorded, the name of the first such repository and no record; else the
/// record of every repository listed, in the order of the listing.
pub open spec fn listing_outcome(
    pages: Seq<Result<Vec<Repo>, String>>,
    cio_company_id: i32,
    listed: Result<Vec<NewRepo>, RunError>,
) -> bool {
    match listed {
        Ok(records) => {
            &&& all_read(pages)
            &&& all_recordable(flattened(pages))
            &&& record_each(records@, flattened(pages), cio_company_id)
        },
        Err(RunError::RemoteUnavailable(error)) => exists|at: int|
            #[trigger] first_failed_at(pages, at) && pages[at] == Err::<Vec<Repo>, String>(error),
        Err(RunError::Unrecordable(name)) => {
            &&& all_read(pages)
            &&& exists|at: int|
                #[trigger] first_unrecordable_at(flattened(pages), at) && flattened(pages)[at].name
                    == name
        },
        Err(RunError::IntegrityViolation(_)) => false,
    }
}

fn failed_page(pages: &Vec<Result<Vec<Repo>, String>>) -> (failed: Option<String>)
    ensures
        match failed {
            Some(error) => exists|at: int|
                #[trigger] first_failed_at(pages@, at) && pages@[at] == Err::<Vec<Repo>, String>(
                    error,
                ),
            None => all_read(pages@),
        },
{
    let mut at: usize = 0;
    while at < pages.len()
        invariant
            at <= pages.len(),
            forall|k: int| 0 <= k < at ==> (#[trigger] pages@[k]) is Ok,
        decreases pages.len() - at,
    {
        match &pages[at] {
            Err(error) => {
                let error = error.clone();
                assert(first_failed_at(pages@, at as int));
                return Some(error);
            },
            Ok(_) => {},
        }
        at += 1;
    }
    None
}

fn flatten(pages: Vec<Result<Vec<Repo>, String>>) -> (repos: Vec<Repo>)
    ensures
        repos@ == flattened(pages@),
{
    let mut repos: Vec<Repo> = Vec::new();
    for page in it: pages
        invariant
            repos@ == flattened(it.seq().take(it.index() as int)),
    {
        proof {
            let upto = it.seq().take(it.index() + 1);
            assert(upto.drop_last() =~= it.seq().take(it.index() as int));
            assert(upto.last() == page);
        }
        match page {
            Ok(mut page) => {
                repos.append(&mut page);
            },
            Err(_) => {
                assert(repos@ + Seq::<Repo>::empty() =~= repos@);
            },
        }
    }
    assert(pages@.take(pages@.len() as int) =~= pages@);
    repos
}

fn record_all(repos: Vec<Repo>, cio_company_id: i32) -> (recorded: Result<Vec<NewRepo>, String>)
    ensures
        match recorded {
            Ok(records) => all_recordable(repos@) && record_each(records@, repos@, cio_company_id),
            Err(name) => exists|at: int|
                #[trigger] first_unrecordable_at(repos@, at) && repos@[at].name == name,
        },
{
    let mut records: Vec<NewRepo> = Vec::new();
    for r in it: repos
        invariant
            it.seq() == repos@,
            records.len() == it.index(),
            forall|k: int| 0 <= k < it.index() ==> (#[trigger] repos@[k]).recordable(),
            forall|i: int|
                0 <= i < records.len() ==> (#[trigger] records@[i]).records(
                    &repos@[i],
                    cio_company_id,
                ),
    {
        let ghost at = it.index() as int;
        let name = r.name.clone();
        match NewRepo::try_new(r, cio_company_id) {
            Some(record) => {
                records.push(record);
            },
            None => {
                assert(first_unrecordable_at(repos@, at));
                return Err(name);
            },
        }
    }
    Ok(records)
}

/// List all the GitHub repositories for our org, from the pages that GitHub
/// sent, each as it was read or with the error of reading it.
pub fn list_all_github_repos(
    pages: Vec<Result<Vec<Repo>, String>>,
    cio_company_id: i32,
) -> (listed: Result<Vec<NewRepo>, RunError>)
    ensures
        listing_outcome(pages@, cio_company_id, listed),
{
    match failed_page(&pages) {
        Some(error) => Err(RunError::RemoteUnavailable(error)),
        None => {
            match record_all(flatten(pages), cio_company_id) {
                Ok(records) => Ok(records),
                Err(name) => Err(RunError::Unrecordable(name)),
            }
        },
    }
}

proof fn lemma_all_of_company(records: Seq<NewRepo>, tenant: i32)
    requires
        forall|i: int| 0 <= i < records.len() ==> (#[trigger] records[i]).cio_company_id == tenant,
    ensures
        of_company(records, tenant) == records,
    decreases records.len(),
{
    if records.len() > 0 {
        lemma_all_of_company(records.drop_last(), tenant);
        assert(records.drop_last().push(records.last()) =~= records);
    } else {
        assert(records =~= Seq::<NewRepo>::empty());
    }
}

/// Sync the repos with our database: starts the run that brings what the
/// company keeps in line with what GitHub lists. No run is started, and so
/// nothing is changed, where the listing is not whole or where two kept
/// repositories of the company go by one name.
pub fn refresh_db_github_repos(
    pages: Vec<Result<Vec<Repo>, String>>,
    persisted: Vec<GithubRepo>,
    cio_company_id: i32,
) -> (started: Result<Converger, RunError>)
    ensures
        match started {
            Ok(run) => {
                &&& all_read(pages@)
                &&& all_recordable(flattened(pages@))
                &&& !clashes(persisted@, cio_company_id)
                &&& run@.wf()
                &&& run@ == ConvergerView::start(cio_company_id, run@.remote, run@.working)
                &&& record_each(run@.remote, flattened(pages@), cio_company_id)
                &&& key_sorted(run@.working)
                &&& forall|r: GithubRepo|
                    run@.working.contains(r) <==> persisted@.contains(r) && r.repo.cio_company_id
                        == cio_company_id
            },
            Err(RunError::IntegrityViolation(key)) => {
                &&& all_read(pages@)
                &&& all_recordable(flattened(pages@))
                &&& first_clash(persisted@, cio_company_id, key@)
            },
            Err(error) => listing_outcome(pages@, cio_company_id, Err(error)),
        },
{
    let records = match list_all_github_repos(pages, cio_company_id) {
        Ok(records) => records,
        Err(error) => {
            return Err(error);
        },
    };
    let index = match IdentityIndex::build(cio_company_id, persisted) {
        Ok(index) => index,
        Err(error) => {
            return Err(error);
        },
    };
    proof {
        lemma_all_of_company(records@, cio_company_id);
    }
    Ok(Converger::begin(records, index))
}

/// Set default configurations for all repos in the GitHub organization:
/// starts the run that holds every repository kept for the company to the
/// policy that the company runs with.
///
/// The defaults are as follows:
///
/// - Give the GitHub teams: "eng" and "all", push access to every repository.
/// - Adds protection to the default branch to disallow force pushes.
/// - Leaves archived repositories and `fluffy-tribble` alone.
pub fn sync_repo_settings(
    repos: Vec<GithubRepo>,
    org_teams: Vec<Team>,
    cio_company_id: i32,
) -> (run: Enforcer)
    ensures
        run@.wf(),
        run@ == EnforcerView::start(run@.policy, repos@, run@.groups),
        run@.policy.tenant == cio_company_id,
        run@.policy.required_groups@.len() == 2,
        run@.policy.required_groups@[0]@ == "all"@,
        run@.policy.required_groups@[1]@ == "eng"@,
        run@.policy.skip@.len() == 1,
        run@.policy.skip@[0]@ == "fluffy-tribble"@,
        ascending(run@.groups),
        forall|i: int|
            0 <= i < run@.groups.len() ==> wanted(
                run@.policy.required_groups@,
                org_teams@,
            ).contains_key(#[trigger] run@.groups[i].id) && wanted(
                run@.policy.required_groups@,
                org_teams@,
            )[run@.groups[i].id] == run@.groups[i].name,
        forall|id: u64|
            wanted(run@.policy.required_groups@, org_teams@).contains_key(id) ==> exists|i: int|
                0 <= i < run@.groups.len() && #[trigger] run@.groups[i].id == id,
{
    Enforcer::begin(Policy::company_default(cio_company_id), repos, org_teams)
}

} // verus!
