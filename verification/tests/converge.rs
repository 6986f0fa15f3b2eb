use cio::converge::{
    ConvergeAction, ConvergeEntry, ConvergeReport, Converger, Failure, Operation, Outcome,
};
use cio::enforce::{EnforceAction, Event};
use cio::error::RunError;
use cio::index::IdentityIndex;
use cio::policy::{Branch, Team};
use cio::repos::{GitHubUser, GithubRepo, NewRepo, Repo};
use cio::sync::{list_all_github_repos, refresh_db_github_repos, sync_repo_settings};
use cio::timestamp::Timestamp;

fn record(company: i32, name: &str) -> NewRepo {
    NewRepo {
        github_id: format!("id-{}", name),
        owner: String::new(),
        name: name.to_string(),
        full_name: String::new(),
        description: String::new(),
        private: false,
        fork: false,
        url: String::new(),
        html_url: String::new(),
        archive_url: String::new(),
        assignees_url: String::new(),
        blobs_url: String::new(),
        branches_url: String::new(),
        clone_url: String::new(),
        collaborators_url: String::new(),
        comments_url: String::new(),
        commits_url: String::new(),
        compare_url: String::new(),
        contents_url: String::new(),
        contributors_url: String::new(),
        deployments_url: String::new(),
        downloads_url: String::new(),
        events_url: String::new(),
        forks_url: String::new(),
        git_commits_url: String::new(),
        git_refs_url: String::new(),
        git_tags_url: String::new(),
        git_url: String::new(),
        hooks_url: String::new(),
        issue_comment_url: String::new(),
        issue_events_url: String::new(),
        issues_url: String::new(),
        keys_url: String::new(),
        labels_url: String::new(),
        languages_url: String::new(),
        merges_url: String::new(),
        milestones_url: String::new(),
        mirror_url: String::new(),
        notifications_url: String::new(),
        pulls_url: String::new(),
        releases_url: String::new(),
        ssh_url: String::new(),
        stargazers_url: String::new(),
        statuses_url: String::new(),
        subscribers_url: String::new(),
        subscription_url: String::new(),
        svn_url: String::new(),
        tags_url: String::new(),
        teams_url: String::new(),
        trees_url: String::new(),
        homepage: String::new(),
        language: String::new(),
        forks_count: 0,
        stargazers_count: 0,
        watchers_count: 0,
        size: 0,
        default_branch: "main".to_string(),
        open_issues_count: 0,
        has_issues: false,
        has_wiki: false,
        has_pages: false,
        has_downloads: false,
        archived: false,
        pushed_at: Timestamp { secs: 0, nanos: 0 },
        created_at: Timestamp { secs: 0, nanos: 0 },
        updated_at: Timestamp { secs: 0, nanos: 0 },
        cio_company_id: company,
    }
}

fn kept(id: i32, company: i32, name: &str) -> GithubRepo {
    GithubRepo { id, airtable_record_id: String::new(), repo: record(company, name) }
}
fn listed(id: u64, name: &str) -> Repo {
    Repo {
        id: id,
        owner: GitHubUser { login: "oxide".to_string(), ..GitHubUser::default() },
        name: name.to_string(),
        full_name: format!("oxide/{}", name),
        description: None,
        private: false,
        fork: false,
        url: String::new(),
        html_url: String::new(),
        archive_url: String::new(),
        assignees_url: String::new(),
        blobs_url: String::new(),
        branches_url: String::new(),
        clone_url: String::new(),
        collaborators_url: String::new(),
        comments_url: String::new(),
        commits_url: String::new(),
        compare_url: String::new(),
        contents_url: String::new(),
        contributors_url: String::new(),
        deployments_url: String::new(),
        downloads_url: String::new(),
        events_url: String::new(),
        forks_url: String::new(),
        git_commits_url: String::new(),
        git_refs_url: String::new(),
        git_tags_url: String::new(),
        git_url: String::new(),
        hooks_url: String::new(),
        issue_comment_url: String::new(),
        issue_events_url: String::new(),
        issues_url: String::new(),
        keys_url: String::new(),
        labels_url: String::new(),
        languages_url: String::new(),
        merges_url: String::new(),
        milestones_url: String::new(),
        mirror_url: None,
        notifications_url: String::new(),
        pulls_url: String::new(),
        releases_url: String::new(),
        ssh_url: String::new(),
        stargazers_url: String::new(),
        statuses_url: String::new(),
        subscribers_url: String::new(),
        subscription_url: String::new(),
        svn_url: String::new(),
        tags_url: String::new(),
        teams_url: String::new(),
        trees_url: String::new(),
        homepage: None,
        language: None,
        forks_count: 0,
        stargazers_count: 0,
        watchers_count: 0,
        size: 0,
        default_branch: "main".to_string(),
        open_issues_count: 0,
        has_issues: false,
        has_wiki: false,
        has_pages: false,
        has_downloads: false,
        archived: false,
        pushed_at: "2021-03-04T05:06:07Z".to_string(),
        created_at: "2021-03-04T05:06:07Z".to_string(),
        updated_at: "2021-03-04T05:06:07Z".to_string(),
    }
}

/// A store and a mirror in memory, with calls that can be made to fail.
struct Memory {
    rows: Vec<GithubRepo>,
    mirror: Vec<(i32, String)>,
    next_id: i32,
    refuse_store: Vec<String>,
    refuse_mirror: Vec<String>,
    calls: Vec<String>,
}

impl Memory {
    fn holding(rows: Vec<GithubRepo>) -> Memory {
        let mirror = rows.iter().map(|r| (r.repo.cio_company_id, r.repo.name.clone())).collect();
        Memory {
            rows,
            mirror,
            next_id: 100,
            refuse_store: Vec::new(),
            refuse_mirror: Vec::new(),
            calls: Vec::new(),
        }
    }

    fn find_all(&self, company: i32) -> Vec<GithubRepo> {
        self.rows.iter().filter(|r| r.repo.cio_company_id == company).cloned().collect()
    }

    fn names(&self, company: i32) -> Vec<String> {
        let mut names: Vec<String> =
            self.find_all(company).into_iter().map(|r| r.repo.name).collect();
        names.sort();
        names
    }

    fn answer(&mut self, asked: ConvergeAction<'_>) -> Option<Result<(), String>> {
        match asked {
            ConvergeAction::StoreUpsert(record) => {
                self.calls.push(format!("upsert {}", record.name));
                if self.refuse_store.contains(&record.name) {
                    return Some(Err(format!("store refused {}", record.name)));
                }
                let company = record.cio_company_id;
                match self
                    .rows
                    .iter_mut()
                    .find(|r| r.repo.cio_company_id == company && r.repo.name == record.name)
                {
                    Some(row) => row.repo = record.clone(),
                    None => {
                        self.rows.push(GithubRepo {
                            id: self.next_id,
                            airtable_record_id: String::new(),
                            repo: record.clone(),
                        });
                        self.next_id += 1;
                    }
                }
                Some(Ok(()))
            }
            ConvergeAction::MirrorUpsert(record) => {
                self.calls.push(format!("mirror {}", record.name));
                if self.refuse_mirror.contains(&record.name) {
                    return Some(Err(format!("mirror refused {}", record.name)));
                }
                let line = (record.cio_company_id, record.name.clone());
                if !self.mirror.contains(&line) {
                    self.mirror.push(line);
                }
                Some(Ok(()))
            }
            ConvergeAction::StoreDelete(kept) => {
                self.calls.push(format!("delete {}", kept.repo.name));
                if self.refuse_store.contains(&kept.repo.name) {
                    return Some(Err(format!("store refused {}", kept.repo.name)));
                }
                let company = kept.repo.cio_company_id;
                self.rows
                    .retain(|r| !(r.repo.cio_company_id == company && r.repo.name == kept.repo.name));
                Some(Ok(()))
            }
            ConvergeAction::MirrorDelete(kept) => {
                self.calls.push(format!("unmirror {}", kept.repo.name));
                if self.refuse_mirror.contains(&kept.repo.name) {
                    return Some(Err(format!("mirror refused {}", kept.repo.name)));
                }
                let line = (kept.repo.cio_company_id, kept.repo.name.clone());
                self.mirror.retain(|l| *l != line);
                Some(Ok(()))
            }
            ConvergeAction::Finished => None,
        }
    }
}

fn drive(run: &mut Converger, memory: &mut Memory) {
    loop {
        let answer = match memory.answer(run.action()) {
            Some(answer) => answer,
            None => break,
        };
        run.advance(answer);
    }
}

fn converge(company: i32, remote: Vec<NewRepo>, memory: &mut Memory) -> ConvergeReport {
    let index = IdentityIndex::build(company, memory.find_all(company)).unwrap();
    let mut run = Converger::begin(remote, index);
    drive(&mut run, memory);
    assert!(run.is_finished());
    run.into_report()
}

fn names(list: &[&str]) -> Vec<String> {
    list.iter().map(|n| n.to_string()).collect()
}

fn failure(key: &str, operation: Operation, error: &str) -> Failure {
    Failure { key: key.to_string(), operation, error: error.to_string() }
}

#[test]
fn index_holds_the_company_by_name() {
    let index = IdentityIndex::build(
        1,
        vec![kept(1, 1, "gamma"), kept(2, 2, "alpha"), kept(3, 1, "beta"), kept(4, 1, "delta")],
    )
    .unwrap();
    assert_eq!(index.company(), 1);
    assert_eq!(index.len(), 3);
    assert!(index.has("beta"));
    assert!(index.has("gamma"));
    assert!(index.has("delta"));
    assert!(!index.has("alpha"));
    assert!(!index.has("bet"));
    assert_eq!(index.first().unwrap().repo.name, "beta");
    assert_eq!(index.get("gamma").map(|r| r.id), Some(1));
    assert_eq!(index.get("delta").map(|r| r.id), Some(4));
    assert_eq!(index.get("alpha").map(|r| r.id), None);
}

#[test]
fn index_of_nothing_is_empty() {
    let index = IdentityIndex::build(1, Vec::new()).unwrap();
    assert_eq!(index.len(), 0);
    assert!(!index.has(""));
    let index = IdentityIndex::build(1, vec![kept(1, 2, "alpha")]).unwrap();
    assert_eq!(index.len(), 0);
}

#[test]
fn index_refuses_two_of_one_name() {
    let built = IdentityIndex::build(
        1,
        vec![kept(1, 1, "alpha"), kept(2, 1, "beta"), kept(3, 1, "alpha"), kept(4, 1, "beta")],
    );
    assert_eq!(built.err(), Some(RunError::IntegrityViolation("alpha".to_string())));
}

#[test]
fn index_takes_one_name_in_two_companies() {
    let rows = vec![kept(1, 1, "alpha"), kept(2, 2, "alpha"), kept(3, 2, "alpha")];
    let index = IdentityIndex::build(1, rows.clone()).unwrap();
    assert_eq!(index.len(), 1);
    assert_eq!(
        IdentityIndex::build(2, rows).err(),
        Some(RunError::IntegrityViolation("alpha".to_string()))
    );
}

#[test]
fn index_gives_up_names() {
    let mut index =
        IdentityIndex::build(1, vec![kept(1, 1, "c"), kept(2, 1, "a"), kept(3, 1, "b")]).unwrap();
    index.remove("b");
    assert_eq!(index.len(), 2);
    assert!(!index.has("b"));
    index.remove("b");
    index.remove("zz");
    assert_eq!(index.len(), 2);
    assert_eq!(index.first().unwrap().repo.name, "a");
    index.drop_first();
    assert_eq!(index.len(), 1);
    assert_eq!(index.first().unwrap().repo.name, "c");
    index.drop_first();
    assert_eq!(index.len(), 0);
    assert!(index.first().is_none());
    index.drop_first();
    assert_eq!(index.len(), 0);
}

#[test]
fn converge_creates_updates_and_deletes() {
    let mut memory = Memory::holding(vec![kept(1, 1, "beta"), kept(2, 1, "gamma")]);
    let mut beta = record(1, "beta");
    beta.description = "now described".to_string();
    let report = converge(1, vec![record(1, "alpha"), beta.clone()], &mut memory);
    assert_eq!(report.created, 1);
    assert_eq!(report.updated, 1);
    assert_eq!(report.deleted, 1);
    assert_eq!(report.failed, 0);
    assert_eq!(report.mirror_failed, 0);
    assert_eq!(report.failures, Vec::<Failure>::new());
    assert_eq!(memory.names(1), names(&["alpha", "beta"]));
    let kept_beta = memory.rows.iter().find(|r| r.repo.name == "beta").unwrap();
    assert_eq!(kept_beta.id, 1);
    assert_eq!(kept_beta.repo, beta);
    let kept_alpha = memory.rows.iter().find(|r| r.repo.name == "alpha").unwrap();
    assert_eq!(kept_alpha.id, 100);
    assert_eq!(
        memory.calls,
        vec![
            "upsert alpha",
            "mirror alpha",
            "upsert beta",
            "mirror beta",
            "delete gamma",
            "unmirror gamma",
        ]
    );
    assert_eq!(memory.mirror, vec![(1, "beta".to_string()), (1, "alpha".to_string())]);
}

#[test]
fn converge_leaves_exactly_what_is_listed() {
    let cases: Vec<(Vec<&str>, Vec<&str>)> = vec![
        (vec![], vec![]),
        (vec!["a"], vec![]),
        (vec![], vec!["a"]),
        (vec!["a", "b", "c"], vec!["c", "d", "e"]),
        (vec!["z", "y", "x"], vec!["x", "y", "z"]),
        (vec!["m"], vec!["a", "b", "c", "d"]),
    ];
    for (listed, held) in cases {
        let rows = held.iter().enumerate().map(|(i, n)| kept(i as i32, 1, n)).collect();
        let mut memory = Memory::holding(rows);
        let remote = listed.iter().map(|n| record(1, n)).collect();
        let report = converge(1, remote, &mut memory);
        let mut expected = names(&listed);
        expected.sort();
        assert_eq!(memory.names(1), expected);
        assert_eq!(report.created + report.updated, listed.len());
        assert_eq!(report.failed, 0);
    }
}

#[test]
fn converge_deletes_in_the_order_of_names() {
    let mut memory = Memory::holding(vec![
        kept(1, 1, "delta"),
        kept(2, 1, "alpha"),
        kept(3, 1, "charlie"),
        kept(4, 1, "bravo"),
    ]);
    let report = converge(1, vec![record(1, "charlie")], &mut memory);
    assert_eq!(
        memory.calls,
        vec![
            "upsert charlie",
            "mirror charlie",
            "delete alpha",
            "unmirror alpha",
            "delete bravo",
            "unmirror bravo",
            "delete delta",
            "unmirror delta",
        ]
    );
    assert_eq!(report.deleted, 3);
    assert_eq!(report.updated, 1);
    assert_eq!(report.created, 0);
}

#[test]
fn converge_leaves_other_companies_alone() {
    let mut memory = Memory::holding(vec![
        kept(1, 1, "alpha"),
        kept(2, 2, "alpha"),
        kept(3, 2, "beta"),
        kept(4, 1, "gamma"),
    ]);
    let before: Vec<GithubRepo> = memory.find_all(2);
    let mut changed = record(1, "alpha");
    changed.description = "of company one".to_string();
    let report = converge(1, vec![changed, record(1, "beta")], &mut memory);
    assert_eq!(memory.find_all(2), before);
    assert_eq!(memory.names(1), names(&["alpha", "beta"]));
    assert_eq!(report.created, 1);
    assert_eq!(report.updated, 1);
    assert_eq!(report.deleted, 1);
}

#[test]
fn converge_passes_over_listed_repositories_of_another_company() {
    let mut memory = Memory::holding(vec![kept(1, 2, "alpha")]);
    let report = converge(1, vec![record(2, "alpha"), record(1, "beta"), record(3, "x")], &mut memory);
    assert_eq!(memory.calls, vec!["upsert beta", "mirror beta"]);
    assert_eq!(report.created, 1);
    assert_eq!(memory.names(2), names(&["alpha"]));
}

#[test]
fn failed_upsert_stays_with_its_repository() {
    let mut memory = Memory::holding(vec![kept(1, 1, "y")]);
    memory.refuse_store.push("x".to_string());
    let report = converge(1, vec![record(1, "x"), record(1, "y"), record(1, "z")], &mut memory);
    assert_eq!(
        memory.calls,
        vec!["upsert x", "upsert y", "mirror y", "upsert z", "mirror z"]
    );
    assert_eq!(report.created, 1);
    assert_eq!(report.updated, 1);
    assert_eq!(report.deleted, 0);
    assert_eq!(report.failed, 1);
    assert_eq!(report.failures, vec![failure("x", Operation::Create, "store refused x")]);
    assert_eq!(memory.names(1), names(&["y", "z"]));
}

#[test]
fn failed_upsert_of_a_kept_repository_does_not_delete_it() {
    let mut memory = Memory::holding(vec![kept(1, 1, "x"), kept(2, 1, "old")]);
    memory.refuse_store.push("x".to_string());
    let report = converge(1, vec![record(1, "x")], &mut memory);
    assert_eq!(memory.calls, vec!["upsert x", "delete old", "unmirror old"]);
    assert_eq!(report.failures, vec![failure("x", Operation::Update, "store refused x")]);
    assert_eq!(report.deleted, 1);
    assert_eq!(memory.names(1), names(&["x"]));
}

#[test]
fn failed_delete_stays_with_its_repository() {
    let mut memory = Memory::holding(vec![kept(1, 1, "a"), kept(2, 1, "b"), kept(3, 1, "c")]);
    memory.refuse_store.push("b".to_string());
    let report = converge(1, Vec::new(), &mut memory);
    assert_eq!(
        memory.calls,
        vec!["delete a", "unmirror a", "delete b", "delete c", "unmirror c"]
    );
    assert_eq!(report.deleted, 2);
    assert_eq!(report.failed, 1);
    assert_eq!(report.failures, vec![failure("b", Operation::Delete, "store refused b")]);
    assert_eq!(memory.names(1), names(&["b"]));
}

#[test]
fn failed_mirror_takes_nothing_back() {
    let mut memory = Memory::holding(vec![kept(1, 1, "old")]);
    memory.refuse_mirror.push("new".to_string());
    memory.refuse_mirror.push("old".to_string());
    let report = converge(1, vec![record(1, "new"), record(1, "next")], &mut memory);
    assert_eq!(
        memory.calls,
        vec!["upsert new", "mirror new", "upsert next", "mirror next", "delete old", "unmirror old"]
    );
    assert_eq!(report.created, 2);
    assert_eq!(report.deleted, 1);
    assert_eq!(report.failed, 0);
    assert_eq!(report.mirror_failed, 2);
    assert_eq!(
        report.failures,
        vec![
            failure("new", Operation::MirrorUpsert, "mirror refused new"),
            failure("old", Operation::MirrorDelete, "mirror refused old"),
        ]
    );
    assert_eq!(memory.names(1), names(&["new", "next"]));
    assert_eq!(memory.mirror, vec![(1, "old".to_string()), (1, "next".to_string())]);
}

#[test]
fn name_listed_twice_is_offered_twice() {
    let mut memory = Memory::holding(vec![kept(1, 1, "a")]);
    let mut later = record(1, "a");
    later.description = "the later one".to_string();
    let report = converge(1, vec![record(1, "a"), later.clone()], &mut memory);
    assert_eq!(memory.calls, vec!["upsert a", "mirror a", "upsert a", "mirror a"]);
    assert_eq!(report.updated, 1);
    assert_eq!(report.created, 1);
    assert_eq!(memory.names(1), names(&["a"]));
    assert_eq!(memory.rows[0].repo, later);
}

#[test]
fn run_tells_its_record_as_it_goes() {
    let index = IdentityIndex::build(1, vec![kept(1, 1, "b")]).unwrap();
    let mut run = Converger::begin(vec![record(1, "a")], index);
    assert!(!run.is_finished());
    assert!(matches!(run.action(), ConvergeAction::StoreUpsert(r) if r.name == "a"));
    run.advance(Ok(()));
    assert!(matches!(run.action(), ConvergeAction::MirrorUpsert(r) if r.name == "a"));
    run.advance(Err("lag".to_string()));
    assert!(matches!(run.action(), ConvergeAction::StoreDelete(r) if r.repo.name == "b"));
    run.advance(Ok(()));
    assert!(matches!(run.action(), ConvergeAction::MirrorDelete(r) if r.id == 1));
    assert_eq!(
        run.entries(),
        &vec![
            ConvergeEntry {
                key: "a".to_string(),
                operation: Operation::Create,
                outcome: Outcome::Done
            },
            ConvergeEntry {
                key: "a".to_string(),
                operation: Operation::MirrorUpsert,
                outcome: Outcome::Failed("lag".to_string())
            },
            ConvergeEntry {
                key: "b".to_string(),
                operation: Operation::Delete,
                outcome: Outcome::Done
            },
        ]
    );
    run.advance(Ok(()));
    assert!(run.is_finished());
    assert!(matches!(run.action(), ConvergeAction::Finished));
    run.advance(Err("late".to_string()));
    assert!(run.is_finished());
    assert_eq!(run.entries().len(), 4);
}

#[test]
fn report_sums_up_a_record() {
    let line = |key: &str, operation, outcome| ConvergeEntry { key: key.to_string(), operation, outcome };
    let failed = |error: &str| Outcome::Failed(error.to_string());
    let report = ConvergeReport::of_entries(vec![
        line("a", Operation::Create, Outcome::Done),
        line("a", Operation::MirrorUpsert, Outcome::Done),
        line("b", Operation::Create, failed("e1")),
        line("c", Operation::Update, Outcome::Done),
        line("c", Operation::MirrorUpsert, failed("e2")),
        line("d", Operation::Update, failed("e3")),
        line("e", Operation::Create, Outcome::Done),
        line("e", Operation::MirrorUpsert, Outcome::Done),
        line("f", Operation::Delete, Outcome::Done),
        line("f", Operation::MirrorDelete, failed("e4")),
        line("g", Operation::Delete, failed("e5")),
    ]);
    assert_eq!(report.created, 2);
    assert_eq!(report.updated, 1);
    assert_eq!(report.deleted, 1);
    assert_eq!(report.failed, 3);
    assert_eq!(report.mirror_failed, 2);
    assert_eq!(
        report.failures,
        vec![
            failure("b", Operation::Create, "e1"),
            failure("c", Operation::MirrorUpsert, "e2"),
            failure("d", Operation::Update, "e3"),
            failure("f", Operation::MirrorDelete, "e4"),
            failure("g", Operation::Delete, "e5"),
        ]
    );
    let empty = ConvergeReport::of_entries(Vec::new());
    assert_eq!(empty.created + empty.updated + empty.deleted + empty.failed, 0);
}

#[test]
fn listing_records_every_page_in_order() {
    let pages = vec![
        Ok(vec![listed(1, "a"), listed(2, "b")]),
        Ok(Vec::new()),
        Ok(vec![listed(3, "c")]),
    ];
    let records = list_all_github_repos(pages, 7).unwrap();
    assert_eq!(records.len(), 3);
    assert_eq!(records[0], NewRepo::new(listed(1, "a"), 7));
    assert_eq!(records[1], NewRepo::new(listed(2, "b"), 7));
    assert_eq!(records[2], NewRepo::new(listed(3, "c"), 7));
    assert_eq!(records[2].github_id, "3");
    assert_eq!(records[2].cio_company_id, 7);
    assert_eq!(list_all_github_repos(Vec::new(), 7), Ok(Vec::new()));
}

#[test]
fn listing_is_all_or_nothing() {
    let pages = vec![
        Ok(vec![listed(1, "a")]),
        Err("connection reset".to_string()),
        Ok(vec![listed(3, "c")]),
        Err("second failure".to_string()),
    ];
    assert_eq!(
        list_all_github_repos(pages, 1),
        Err(RunError::RemoteUnavailable("connection reset".to_string()))
    );
}

#[test]
fn listing_names_the_repository_that_cannot_be_recorded() {
    let mut odd = listed(2, "odd");
    odd.created_at = "last week".to_string();
    let mut big = listed(3, "big");
    big.size = u64::MAX;
    let pages = vec![Ok(vec![listed(1, "a")]), Ok(vec![odd.clone(), big])];
    assert_eq!(list_all_github_repos(pages, 1), Err(RunError::Unrecordable("odd".to_string())));
    let pages = vec![Ok(vec![odd]), Err("timeout".to_string())];
    assert_eq!(
        list_all_github_repos(pages, 1),
        Err(RunError::RemoteUnavailable("timeout".to_string()))
    );
}

#[test]
fn failed_listing_starts_no_run() {
    let memory = Memory::holding(vec![kept(1, 1, "alpha"), kept(2, 1, "beta")]);
    let before = memory.rows.clone();
    let pages = vec![
        Ok(vec![listed(1, "alpha")]),
        Err("network error".to_string()),
    ];
    let started = refresh_db_github_repos(pages, memory.find_all(1), 1);
    assert_eq!(started.err(), Some(RunError::RemoteUnavailable("network error".to_string())));
    assert_eq!(memory.rows, before);
    assert_eq!(memory.calls, Vec::<String>::new());
}

#[test]
fn clash_of_names_starts_no_run() {
    let memory = Memory::holding(vec![kept(1, 1, "alpha"), kept(2, 1, "alpha")]);
    let before = memory.rows.clone();
    let started = refresh_db_github_repos(vec![Ok(vec![listed(1, "alpha")])], memory.find_all(1), 1);
    assert_eq!(started.err(), Some(RunError::IntegrityViolation("alpha".to_string())));
    assert_eq!(memory.rows, before);
    assert_eq!(memory.calls, Vec::<String>::new());
}

#[test]
fn failed_listing_is_told_before_a_clash() {
    let rows = vec![kept(1, 1, "alpha"), kept(2, 1, "alpha")];
    let started = refresh_db_github_repos(vec![Err("down".to_string())], rows, 1);
    assert_eq!(started.err(), Some(RunError::RemoteUnavailable("down".to_string())));
}

#[test]
fn refresh_converges_the_store() {
    let mut memory = Memory::holding(vec![kept(1, 1, "beta"), kept(2, 1, "gamma"), kept(3, 2, "gamma")]);
    let pages = vec![Ok(vec![listed(10, "alpha")]), Ok(vec![listed(11, "beta")])];
    let mut run = refresh_db_github_repos(pages, memory.rows.clone(), 1).ok().unwrap();
    drive(&mut run, &mut memory);
    let report = run.into_report();
    assert_eq!((report.created, report.updated, report.deleted), (1, 1, 1));
    assert_eq!(memory.names(1), names(&["alpha", "beta"]));
    assert_eq!(memory.names(2), names(&["gamma"]));
    let beta = memory.rows.iter().find(|r| r.repo.name == "beta").unwrap();
    assert_eq!(beta.repo.github_id, "11");
}

#[test]
fn test_cron_github_repos() {
    let company = 1;
    let mut memory = Memory::holding(vec![kept(1, company, "beta"), kept(2, company, "gone")]);

    let org = vec![
        Team { id: 1, name: "all".to_string(), permission: String::new() },
        Team { id: 2, name: "eng".to_string(), permission: String::new() },
    ];
    let mut settings = sync_repo_settings(memory.find_all(company), org, company);
    let mut writes = 0;
    loop {
        let event = match settings.action() {
            EnforceAction::ReadProtection(_) => {
                Event::Branch(Ok(Branch { name: "main".to_string(), protected: Some(false) }))
            }
            EnforceAction::ListGrants(_) => Event::Teams(Ok(Vec::new())),
            EnforceAction::UpdateProtection(_, _) | EnforceAction::Grant(_, _, _) => {
                writes += 1;
                Event::Written(Ok(()))
            }
            EnforceAction::Finished => break,
        };
        settings.advance(event);
    }
    let settings = settings.into_report();
    assert_eq!(writes, 6);
    assert_eq!(settings.change_count(), 6);
    assert_eq!(settings.failure_count(), 0);

    let pages = vec![Ok(vec![listed(10, "alpha"), listed(11, "beta")])];
    let mut run = refresh_db_github_repos(pages, memory.find_all(company), company).ok().unwrap();
    drive(&mut run, &mut memory);
    let report = run.into_report();
    assert_eq!((report.created, report.updated, report.deleted, report.failed), (1, 1, 1, 0));
    assert_eq!(memory.names(company), names(&["alpha", "beta"]));
    assert_eq!(memory.mirror, vec![(1, "beta".to_string()), (1, "alpha".to_string())]);
}

#[test]
fn settings_run_follows_the_company_policy() {
    let mut archived = kept(3, 1, "old");
    archived.repo.archived = true;
    let repos = vec![kept(1, 1, "fluffy-tribble"), kept(2, 2, "foreign"), archived, kept(4, 1, "alpha")];
    let org = vec![
        Team { id: 9, name: "eng".to_string(), permission: String::new() },
        Team { id: 8, name: "ops".to_string(), permission: String::new() },
        Team { id: 7, name: "all".to_string(), permission: String::new() },
    ];
    let mut run = sync_repo_settings(repos, org, 1);
    let mut calls = Vec::new();
    loop {
        let event = match run.action() {
            EnforceAction::ReadProtection(r) => {
                calls.push(format!("read {}", r.repo.name));
                Event::Branch(Ok(Branch { name: "main".to_string(), protected: Some(true) }))
            }
            EnforceAction::ListGrants(r) => {
                calls.push(format!("list {}", r.repo.name));
                Event::Teams(Ok(Vec::new()))
            }
            EnforceAction::Grant(r, group, level) => {
                calls.push(format!("grant {} {} {}", r.repo.name, group.name, level.text()));
                Event::Written(Ok(()))
            }
            EnforceAction::UpdateProtection(r, _) => {
                calls.push(format!("protect {}", r.repo.name));
                Event::Written(Ok(()))
            }
            EnforceAction::Finished => break,
        };
        run.advance(event);
    }
    assert_eq!(calls, vec!["read alpha", "list alpha", "grant alpha all push", "grant alpha eng push"]);
}

#[test]
fn index_names_the_first_clash() {
    let built = IdentityIndex::build(
        1,
        vec![kept(1, 1, "b"), kept(2, 1, "a"), kept(3, 1, "c"), kept(4, 1, "a"), kept(5, 1, "b")],
    );
    assert_eq!(built.err(), Some(RunError::IntegrityViolation("a".to_string())));
    let built = IdentityIndex::build(
        1,
        vec![kept(1, 1, "b"), kept(2, 1, "a"), kept(3, 1, "b"), kept(4, 1, "a")],
    );
    assert_eq!(built.err(), Some(RunError::IntegrityViolation("b".to_string())));
}
