//! The settings policy of a company and what GitHub reports about a
//! repository's settings.

use vstd::prelude::*;
use crate::repos::GithubRepo;
use crate::text::{contains, occurs_in, same_text};

verus! {

/// A team as GitHub lists it, for an organization or on one repository. On a
/// repository `permission` is the access that the team holds there.
#[derive(Debug, PartialEq, Clone)]
pub struct Team {
    pub id: u64,
    pub name: String,
    pub permission: String,
}

/// A branch as GitHub reports it.
#[derive(Debug, PartialEq, Clone)]
pub struct Branch {
    pub name: String,
    pub protected: Option<bool>,
}

/// The protection asked for a branch.
#[derive(Debug, PartialEq, Clone)]
pub struct Protection {
    /// The rule binds administrators too.
    pub enforce_admins: bool,
    /// History may be rewritten by a forced push.
    pub allow_force_pushes: bool,
    /// The status checks that a change must pass, if any are asked for.
    pub required_status_checks: Option<Vec<String>>,
    /// The number of approving reviews that a change needs, if any is asked
    /// for.
    pub required_approving_reviews: Option<u8>,
}

impl Protection {
    /// The protection that the policy asks for: no forced push, for
    /// administrators as for everybody, and nothing asked about status checks
    /// or reviews, which are configured elsewhere.
    pub open spec fn is_minimal(&self) -> bool {
        &&& self.enforce_admins
        &&& !self.allow_force_pushes
        &&& self.required_status_checks is None
        &&& self.required_approving_reviews is None
    }

    /// The protection that the policy asks for.
    pub fn minimal() -> (rule: Protection)
        ensures
            rule.is_minimal(),
    {
        Protection {
            enforce_admins: true,
            allow_force_pushes: false,
            required_status_checks: None,
            required_approving_reviews: None,
        }
    }
}

/// The access that a team can be given on a repository.
#[derive(Clone, Copy, Debug, PartialEq, Eq, Structural)]
pub enum Permission {
    Pull,
    Push,
    Admin,
}

impl Permission {
    /// The word by which GitHub knows the permission.
    pub open spec fn name(self) -> Seq<char> {
        match self {
            Permission::Pull => "pull"@,
            Permission::Push => "push"@,
            Permission::Admin => "admin"@,
        }
    }

    /// The word by which GitHub knows the permission.
    pub fn text(self) -> (word: String)
        ensures
            word@ == self.name(),
    {
        permission_text(self)
    }
}

/// Writes a permission as `hubcaps::teams::Permission` displays it: `pull`,
/// `push` or `admin`, the three arms of its `Display`.
#[verifier::external_body]
fn permission_text(level: Permission) -> (word: String)
    ensures
        word@ == level.name(),
{
    let outside = match level {
        Permission::Pull => hubcaps::teams::Permission::Pull,
        Permission::Push => hubcaps::teams::Permission::Push,
        Permission::Admin => hubcaps::teams::Permission::Admin,
    };
    outside.to_string()
}

/// What `str::to_lowercase` makes of a text: each character replaced by its
/// lowercase form as Unicode defines it.
pub uninterp spec fn lowercase_of(text: Seq<char>) -> Seq<char>;

/// Calls `str::to_lowercase`. The contract only names the outcome, which
/// depends on the text alone.
#[verifier::external_body]
fn lowercase(text: &str) -> (lowered: String)
    ensures
        lowered@ == lowercase_of(text@),
{
    text.to_lowercase()
}

/// A team with this permission may write: it holds `push`, or `admin` in
/// whatever case GitHub spells it, which is more.
pub open spec fn may_write(permission: Seq<char>) -> bool {
    permission == Permission::Push.name() || lowercase_of(permission) == Permission::Admin.name()
}

/// Whether a permission, given with its lowercase form, lets a team write:
/// the permission is `push`, or its lowercase form is `admin`.
pub fn grants_write(permission: &str, lowered: &str) -> (enough: bool)
    ensures
        enough == (permission@ == Permission::Push.name() || lowered@ == Permission::Admin.name()),
{
    let push = Permission::Push.text();
    same_text(permission, push.as_str()) || same_text(lowered, "admin")
}

/// Whether a permission lets a team write.
pub fn holds_write(permission: &str) -> (enough: bool)
    ensures
        enough == may_write(permission@),
{
    let lowered = lowercase(permission);
    grants_write(permission, lowered.as_str())
}

/// The error tells of a repository without any history yet: it speaks of an
/// `empty repository`. Such a repository has no branch to protect, and the
/// error is expected.
pub open spec fn expected_empty_state(error: Seq<char>) -> bool {
    occurs_in("empty repository"@, error)
}

/// Whether an error tells of a repository without any history yet.
pub fn is_expected_empty_state(error: &str) -> (expected: bool)
    ensures
        expected == expected_empty_state(error@),
{
    contains(error, "empty repository")
}

/// The error tells that GitHub found nothing: it carries the status `404`. A
/// repository from before teams were given access answers so when asked for
/// its teams.
pub open spec fn not_found(error: Seq<char>) -> bool {
    occurs_in("404"@, error)
}

/// Whether an error tells that GitHub found nothing.
pub fn is_not_found(error: &str) -> (missing: bool)
    ensures
        missing == not_found(error@),
{
    contains(error, "404")
}

/// The policy of a company for its repositories: the teams that must be able
/// to write to every repository, and the repositories that are left alone.
/// Besides, the default branch of every repository must refuse forced pushes.
#[derive(Debug, PartialEq, Clone)]
pub struct Policy {
    /// The company that the policy is for.
    pub tenant: i32,
    /// The names of the teams that must hold write access everywhere.
    pub required_groups: Vec<String>,
    /// The names of the repositories that are skipped entirely.
    pub skip: Vec<String>,
}

/// `name` is one of `names`.
pub open spec fn listed(names: Seq<String>, name: Seq<char>) -> bool {
    exists|i: int| 0 <= i < names.len() && #[trigger] names[i]@ == name
}

/// Whether `name` is one of `names`.
pub fn is_listed(names: &Vec<String>, name: &str) -> (found: bool)
    ensures
        found == listed(names@, name@),
{
    let mut i: usize = 0;
    while i < names.len()
        invariant
            i <= names.len(),
            forall|k: int| 0 <= k < i ==> names@[k]@ != name@,
        decreases names.len() - i,
    {
        if same_text(names[i].as_str(), name) {
            return true;
        }
        i += 1;
    }
    false
}

impl Policy {
    /// The policy leaves the repository alone: it belongs to another
    /// company, it is archived, or its name is on the skip list.
    pub open spec fn exempts(&self, repo: &GithubRepo) -> bool {
        ||| repo.repo.cio_company_id != self.tenant
        ||| repo.repo.archived
        ||| listed(self.skip@, repo.repo.name@)
    }

    /// Whether the policy leaves the repository alone.
    pub fn skips(&self, repo: &GithubRepo) -> (skipped: bool)
        ensures
            skipped == self.exempts(repo),
    {
        repo.repo.cio_company_id != self.tenant || repo.repo.archived || is_listed(
            &self.skip,
            repo.repo.name.as_str(),
        )
    }

    /// The policy that the company runs with: the teams `all` and `eng`
    /// write everywhere, and `fluffy-tribble` is left alone.
    pub fn company_default(tenant: i32) -> (policy: Policy)
        ensures
            policy.tenant == tenant,
            policy.required_groups@.len() == 2,
            policy.required_groups@[0]@ == "all"@,
            policy.required_groups@[1]@ == "eng"@,
            policy.skip@.len() == 1,
            policy.skip@[0]@ == "fluffy-tribble"@,
    {
        let mut required_groups: Vec<String> = Vec::new();
        required_groups.push("all".to_owned());
        required_groups.push("eng".to_owned());
        let mut skip: Vec<String> = Vec::new();
        skip.push("fluffy-tribble".to_owned());
        Policy { tenant, required_groups, skip }
    }
}

} // verus!
