//! GitHub repositories: as GitHub lists them, as the company keeps them, and
//! the step from the one to the other.

use vstd::prelude::*;
use crate::text::{decimal, decimal_text};
use crate::timestamp::Timestamp;

verus! {

/// The data type for a GitHub user.
#[derive(Debug, Default, PartialEq, Clone)]
pub struct GitHubUser {
    pub login: String,
    pub id: u64,
    pub name: String,
    pub username: String,
    pub email: String,
    pub avatar_url: String,
    pub gravatar_id: String,
    pub url: String,
    pub html_url: String,
    pub followers_url: String,
    pub following_url: String,
    pub gists_url: String,
    pub starred_url: String,
    pub subscriptions_url: String,
    pub organizations_url: String,
    pub repos_url: String,
    pub events_url: String,
    pub received_events_url: String,
    pub site_admin: bool,
}

/// A repository as GitHub lists it: every count as GitHub sends it, every
/// date still as text, and what GitHub may leave out as an `Option`.
#[derive(Debug, PartialEq, Clone)]
pub struct Repo {
    pub id: u64,
    pub owner: GitHubUser,
    pub name: String,
    pub full_name: String,
    pub description: Option<String>,
    pub private: bool,
    pub fork: bool,
    pub url: String,
    pub html_url: String,
    pub archive_url: String,
    pub assignees_url: String,
    pub blobs_url: String,
    pub branches_url: String,
    pub clone_url: String,
    pub collaborators_url: String,
    pub comments_url: String,
    pub commits_url: String,
    pub compare_url: String,
    pub contents_url: String,
    pub contributors_url: String,
    pub deployments_url: String,
    pub downloads_url: String,
    pub events_url: String,
    pub forks_url: String,
    pub git_commits_url: String,
    pub git_refs_url: String,
    pub git_tags_url: String,
    pub git_url: String,
    pub hooks_url: String,
    pub issue_comment_url: String,
    pub issue_events_url: String,
    pub issues_url: String,
    pub keys_url: String,
    pub labels_url: String,
    pub languages_url: String,
    pub merges_url: String,
    pub milestones_url: String,
    pub mirror_url: Option<String>,
    pub notifications_url: String,
    pub pulls_url: String,
    pub releases_url: String,
    pub ssh_url: String,
    pub stargazers_url: String,
    pub statuses_url: String,
    pub subscribers_url: String,
    pub subscription_url: String,
    pub svn_url: String,
    pub tags_url: String,
    pub teams_url: String,
    pub trees_url: String,
    pub homepage: Option<String>,
    pub language: Option<String>,
    pub forks_count: u64,
    pub stargazers_count: u64,
    pub watchers_count: u64,
    pub size: u64,
    pub default_branch: String,
    pub open_issues_count: u64,
    pub has_issues: bool,
    pub has_wiki: bool,
    pub has_pages: bool,
    pub has_downloads: bool,
    pub archived: bool,
    pub pushed_at: String,
    pub created_at: String,
    pub updated_at: String,
}

/// The data type for a GitHub repository, as the company records it.
#[derive(Debug, PartialEq, Clone)]
pub struct NewRepo {
    pub github_id: String,
    pub owner: String,
    pub name: String,
    pub full_name: String,
    pub description: String,
    pub private: bool,
    pub fork: bool,
    pub url: String,
    pub html_url: String,
    pub archive_url: String,
    pub assignees_url: String,
    pub blobs_url: String,
    pub branches_url: String,
    pub clone_url: String,
    pub collaborators_url: String,
    pub comments_url: String,
    pub commits_url: String,
    pub compare_url: String,
    pub contents_url: String,
    pub contributors_url: String,
    pub deployments_url: String,
    pub downloads_url: String,
    pub events_url: String,
    pub forks_url: String,
    pub git_commits_url: String,
    pub git_refs_url: String,
    pub git_tags_url: String,
    pub git_url: String,
    pub hooks_url: String,
    pub issue_comment_url: String,
    pub issue_events_url: String,
    pub issues_url: String,
    pub keys_url: String,
    pub labels_url: String,
    pub languages_url: String,
    pub merges_url: String,
    pub milestones_url: String,
    pub mirror_url: String,
    pub notifications_url: String,
    pub pulls_url: String,
    pub releases_url: String,
    pub ssh_url: String,
    pub stargazers_url: String,
    pub statuses_url: String,
    pub subscribers_url: String,
    pub subscription_url: String,
    pub svn_url: String,
    pub tags_url: String,
    pub teams_url: String,
    pub trees_url: String,
    pub homepage: String,
    pub language: String,
    pub forks_count: i32,
    pub stargazers_count: i32,
    pub watchers_count: i32,
    pub size: i32,
    pub default_branch: String,
    pub open_issues_count: i32,
    pub has_issues: bool,
    pub has_wiki: bool,
    pub has_pages: bool,
    pub has_downloads: bool,
    pub archived: bool,
    pub pushed_at: Timestamp,
    pub created_at: Timestamp,
    pub updated_at: Timestamp,
    /// The CIO company ID.
    pub cio_company_id: i32,
}

/// A repository as the company's store holds it: the record and what the
/// store adds to find it again.
#[derive(Debug, PartialEq, Clone)]
pub struct GithubRepo {
    pub id: i32,
    pub airtable_record_id: String,
    pub repo: NewRepo,
}

/// The text of a value that GitHub may leave out: empty where it did.
pub open spec fn text_or_empty(value: Option<String>) -> Seq<char> {
    match value {
        Some(text) => text@,
        None => Seq::empty(),
    }
}

fn unwrap_or_empty(value: Option<String>) -> (text: String)
    ensures
        text@ == text_or_empty(value),
{
    match value {
        Some(text) => text,
        None => String::new(),
    }
}

fn count_fits(count: u64) -> (fits: bool)
    ensures
        fits == (count <= i32::MAX),
{
    count <= 2147483647
}

impl Repo {
    /// Every count of the repository fits the company's record.
    pub open spec fn counts_fit(&self) -> bool {
        &&& self.forks_count <= i32::MAX
        &&& self.stargazers_count <= i32::MAX
        &&& self.watchers_count <= i32::MAX
        &&& self.size <= i32::MAX
        &&& self.open_issues_count <= i32::MAX
    }

    /// Every date of the repository is an RFC 3339 date and time.
    pub open spec fn dates_read(&self) -> bool {
        &&& Timestamp::of_text(self.pushed_at@) is Some
        &&& Timestamp::of_text(self.created_at@) is Some
        &&& Timestamp::of_text(self.updated_at@) is Some
    }

    /// The repository can be recorded: its counts fit and its dates read.
    pub open spec fn recordable(&self) -> bool {
        self.counts_fit() && self.dates_read()
    }

    fn check_counts(&self) -> (fit: bool)
        ensures
            fit == self.counts_fit(),
    {
        count_fits(self.forks_count)
            && count_fits(self.stargazers_count)
            && count_fits(self.watchers_count)
            && count_fits(self.size)
            && count_fits(self.open_issues_count)
    }
}

impl NewRepo {
    /// The key by which a listed repository and a kept one are matched: the
    /// repository's name.
    pub open spec fn key(&self) -> Seq<char> {
        self.name@
    }

    /// The record says of the repository `r`, seen at the three instants
    /// given and owned by the company given, what GitHub said of it.
    pub open spec fn carries(
        &self,
        r: &Repo,
        pushed_at: Timestamp,
        created_at: Timestamp,
        updated_at: Timestamp,
        cio_company_id: i32,
    ) -> bool {
        &&& self.github_id@ == decimal(r.id as nat)
        &&& self.owner@ == r.owner.login@
        &&& self.name@ == r.name@
        &&& self.full_name@ == r.full_name@
        &&& self.description@ == text_or_empty(r.description)
        &&& self.private == r.private
        &&& self.fork == r.fork
        &&& self.url@ == r.url@
        &&& self.html_url@ == r.html_url@
        &&& self.archive_url@ == r.archive_url@
        &&& self.assignees_url@ == r.assignees_url@
        &&& self.blobs_url@ == r.blobs_url@
        &&& self.branches_url@ == r.branches_url@
        &&& self.clone_url@ == r.clone_url@
        &&& self.collaborators_url@ == r.collaborators_url@
        &&& self.comments_url@ == r.comments_url@
        &&& self.commits_url@ == r.commits_url@
        &&& self.compare_url@ == r.compare_url@
        &&& self.contents_url@ == r.contents_url@
        &&& self.contributors_url@ == r.contributors_url@
        &&& self.deployments_url@ == r.deployments_url@
        &&& self.downloads_url@ == r.downloads_url@
        &&& self.events_url@ == r.events_url@
        &&& self.forks_url@ == r.forks_url@
        &&& self.git_commits_url@ == r.git_commits_url@
        &&& self.git_refs_url@ == r.git_refs_url@
        &&& self.git_tags_url@ == r.git_tags_url@
        &&& self.git_url@ == r.git_url@
        &&& self.hooks_url@ == r.hooks_url@
        &&& self.issue_comment_url@ == r.issue_comment_url@
        &&& self.issue_events_url@ == r.issue_events_url@
        &&& self.issues_url@ == r.issues_url@
        &&& self.keys_url@ == r.keys_url@
        &&& self.labels_url@ == r.labels_url@
        &&& self.languages_url@ == r.languages_url@
        &&& self.merges_url@ == r.merges_url@
        &&& self.milestones_url@ == r.milestones_url@
        &&& self.mirror_url@ == text_or_empty(r.mirror_url)
        &&& self.notifications_url@ == r.notifications_url@
        &&& self.pulls_url@ == r.pulls_url@
        &&& self.releases_url@ == r.releases_url@
        &&& self.ssh_url@ == r.ssh_url@
        &&& self.stargazers_url@ == r.stargazers_url@
        &&& self.statuses_url@ == r.statuses_url@
        &&& self.subscribers_url@ == r.subscribers_url@
        &&& self.subscription_url@ == r.subscription_url@
        &&& self.svn_url@ == r.svn_url@
        &&& self.tags_url@ == r.tags_url@
        &&& self.teams_url@ == r.teams_url@
        &&& self.trees_url@ == r.trees_url@
        &&& self.homepage@ == text_or_empty(r.homepage)
        &&& self.language@ == text_or_empty(r.language)
        &&& self.forks_count == r.forks_count
        &&& self.stargazers_count == r.stargazers_count
        &&& self.watchers_count == r.watchers_count
        &&& self.size == r.size
        &&& self.default_branch@ == r.default_branch@
        &&& self.open_issues_count == r.open_issues_count
        &&& self.has_issues == r.has_issues
        &&& self.has_wiki == r.has_wiki
        &&& self.has_pages == r.has_pages
        &&& self.has_downloads == r.has_downloads
        &&& self.archived == r.archived
        &&& self.pushed_at == pushed_at
        &&& self.created_at == created_at
        &&& self.updated_at == updated_at
        &&& self.cio_company_id == cio_company_id
    }

    /// The record is the one that `r` gives for the company given: it
    /// carries what GitHub said, each date read as RFC 3339.
    pub open spec fn records(&self, r: &Repo, cio_company_id: i32) -> bool {
        &&& Timestamp::of_text(r.pushed_at@) == Some(self.pushed_at)
        &&& Timestamp::of_text(r.created_at@) == Some(self.created_at)
        &&& Timestamp::of_text(r.updated_at@) == Some(self.updated_at)
        &&& self.carries(r, self.pushed_at, self.created_at, self.updated_at, cio_company_id)
    }

    /// Puts the record together from a repository whose dates have been read
    /// already.
    pub fn from_parts(
        r: Repo,
        pushed_at: Timestamp,
        created_at: Timestamp,
        updated_at: Timestamp,
        cio_company_id: i32,
    ) -> (record: NewRepo)
        requires
            r.counts_fit(),
        ensures
            record.carries(&r, pushed_at, created_at, updated_at, cio_company_id),
    {
        NewRepo {
            github_id: decimal_text(r.id),
            owner: r.owner.login,
            name: r.name,
            full_name: r.full_name,
            description: unwrap_or_empty(r.description),
            private: r.private,
            fork: r.fork,
            url: r.url,
            html_url: r.html_url,
            archive_url: r.archive_url,
            assignees_url: r.assignees_url,
            blobs_url: r.blobs_url,
            branches_url: r.branches_url,
            clone_url: r.clone_url,
            collaborators_url: r.collaborators_url,
            comments_url: r.comments_url,
            commits_url: r.commits_url,
            compare_url: r.compare_url,
            contents_url: r.contents_url,
            contributors_url: r.contributors_url,
            deployments_url: r.deployments_url,
            downloads_url: r.downloads_url,
            events_url: r.events_url,
            forks_url: r.forks_url,
            git_commits_url: r.git_commits_url,
            git_refs_url: r.git_refs_url,
            git_tags_url: r.git_tags_url,
            git_url: r.git_url,
            hooks_url: r.hooks_url,
            issue_comment_url: r.issue_comment_url,
            issue_events_url: r.issue_events_url,
            issues_url: r.issues_url,
            keys_url: r.keys_url,
            labels_url: r.labels_url,
            languages_url: r.languages_url,
            merges_url: r.merges_url,
            milestones_url: r.milestones_url,
            mirror_url: unwrap_or_empty(r.mirror_url),
            notifications_url: r.notifications_url,
            pulls_url: r.pulls_url,
            releases_url: r.releases_url,
            ssh_url: r.ssh_url,
            stargazers_url: r.stargazers_url,
            statuses_url: r.statuses_url,
            subscribers_url: r.subscribers_url,
            subscription_url: r.subscription_url,
            svn_url: r.svn_url,
            tags_url: r.tags_url,
            teams_url: r.teams_url,
            trees_url: r.trees_url,
            homepage: unwrap_or_empty(r.homepage),
            language: unwrap_or_empty(r.language),
            forks_count: r.forks_count as i32,
            stargazers_count: r.stargazers_count as i32,
            watchers_count: r.watchers_count as i32,
            size: r.size as i32,
            default_branch: r.default_branch,
            open_issues_count: r.open_issues_count as i32,
            has_issues: r.has_issues,
            has_wiki: r.has_wiki,
            has_pages: r.has_pages,
            has_downloads: r.has_downloads,
            archived: r.archived,
            pushed_at,
            created_at,
            updated_at,
            cio_company_id,
        }
    }

    /// Records a repository for a company. The counts must fit and the dates
    /// must read; `try_new` takes any repository.
    pub fn new(r: Repo, cio_company_id: i32) -> (record: NewRepo)
        requires
            r.recordable(),
        ensures
            record.records(&r, cio_company_id),
    {
        let pushed_at = Timestamp::parse(r.pushed_at.as_str()).unwrap();
        let created_at = Timestamp::parse(r.created_at.as_str()).unwrap();
        let updated_at = Timestamp::parse(r.updated_at.as_str()).unwrap();
        NewRepo::from_parts(r, pushed_at, created_at, updated_at, cio_company_id)
    }

    /// Records a repository for a company, or tells that it cannot be
    /// recorded: a count does not fit, or a date does not read.
    pub fn try_new(r: Repo, cio_company_id: i32) -> (record: Option<NewRepo>)
        ensures
            record is Some <==> r.recordable(),
            record is Some ==> record->Some_0.records(&r, cio_company_id),
    {
        if !r.check_counts() {
            return None;
        }
        if Timestamp::parse(r.pushed_at.as_str()).is_none() {
            return None;
        }
        if Timestamp::parse(r.created_at.as_str()).is_none() {
            return None;
        }
        if Timestamp::parse(r.updated_at.as_str()).is_none() {
            return None;
        }
        Some(NewRepo::new(r, cio_company_id))
    }
}

impl GithubRepo {
    /// The key by which the kept repository is matched: its name.
    pub open spec fn key(&self) -> Seq<char> {
        self.repo.name@
    }
}

} // verus!
