//! Enforcement of the settings policy, one repository after the other: the
//! enforcer says which call to make next, is told how the call went, and
//! keeps a record of every repository and every action.

use vstd::prelude::*;
use crate::policy::{
    expected_empty_state, is_expected_empty_state, is_not_found, not_found, Branch, Permission,
    Policy, Protection, Team,
};
use crate::repos::GithubRepo;
use crate::teams::{granted, required_teams, wanted, ascending, writes, Grants, Group};

verus! {

/// Where the enforcer stands with the repository at hand.
#[derive(Clone, Copy, Debug, PartialEq, Eq, Structural)]
pub enum Phase {
    /// The protection of the default branch is to be read.
    ReadProtection,
    /// The default branch is to be protected.
    UpdateProtection,
    /// The teams of the repository are to be listed.
    ListGrants,
    /// A team is to be given write access.
    Grant,
}

/// An action on a repository.
#[derive(Clone, Copy, Debug, PartialEq, Eq, Structural)]
pub enum Step {
    ReadProtection,
    UpdateProtection,
    ListGrants,
    /// Write access for the team with this id.
    Grant(u64),
}

impl Step {
    /// The action changes something at GitHub.
    pub open spec fn is_write(self) -> bool {
        self is UpdateProtection || self is Grant
    }
}

/// How an action on a repository ended.
#[derive(Debug, PartialEq, Clone)]
pub enum Verdict {
    /// The repository met the policy already: nothing was changed.
    Compliant,
    /// The change was made.
    Applied,
    /// The call failed in a way that is expected and is no error.
    Suppressed,
    /// The call failed, with the error that GitHub gave.
    Failed(String),
}

/// One line of the record: a repository, an action, and how it ended.
#[derive(Debug, PartialEq, Clone)]
pub struct Entry {
    pub resource: String,
    pub step: Step,
    pub verdict: Verdict,
}

/// What came back from the call that the enforcer asked for.
#[derive(Debug)]
pub enum Event {
    /// The default branch, or the error of reading it.
    Branch(Result<Branch, String>),
    /// The teams of the repository, or the error of listing them.
    Teams(Result<Vec<Team>, String>),
    /// A change was made, or the error of making it.
    Written(Result<(), String>),
}

/// The call that the enforcer asks for.
pub enum EnforceAction<'a> {
    /// Read the default branch of the repository.
    ReadProtection(&'a GithubRepo),
    /// Protect the default branch of the repository.
    UpdateProtection(&'a GithubRepo, Protection),
    /// List the teams of the repository.
    ListGrants(&'a GithubRepo),
    /// Give the team this permission on the repository.
    Grant(&'a GithubRepo, &'a Group, Permission),
    /// Nothing is left to do.
    Finished,
}

/// The call that the enforcer asks for, as a value of its own.
pub enum EnforceActionView {
    ReadProtection(GithubRepo),
    UpdateProtection(GithubRepo, Protection),
    ListGrants(GithubRepo),
    Grant(GithubRepo, Group, Permission),
    Finished,
}

impl<'a> View for EnforceAction<'a> {
    type V = EnforceActionView;

    open spec fn view(&self) -> EnforceActionView {
        match *self {
            EnforceAction::ReadProtection(repo) => EnforceActionView::ReadProtection(*repo),
            EnforceAction::UpdateProtection(repo, rule) => EnforceActionView::UpdateProtection(
                *repo,
                rule,
            ),
            EnforceAction::ListGrants(repo) => EnforceActionView::ListGrants(*repo),
            EnforceAction::Grant(repo, group, level) => EnforceActionView::Grant(
                *repo,
                *group,
                level,
            ),
            EnforceAction::Finished => EnforceActionView::Finished,
        }
    }
}

impl EnforceActionView {
    /// The call changes something at GitHub.
    pub open spec fn is_write(self) -> bool {
        self is UpdateProtection || self is Grant
    }
}

/// The first repository from `from` on that the policy does not leave alone,
/// or the length of the list where there is none.
pub open spec fn next_target(policy: Policy, repos: Seq<GithubRepo>, from: int) -> int
    decreases repos.len() - from,
{
    if from >= repos.len() {
        repos.len() as int
    } else if !policy.exempts(&repos[from]) {
        from
    } else {
        next_target(policy, repos, from + 1)
    }
}

/// The first group from `from` on that may not write under the access held,
/// or the length of the list where there is none.
pub open spec fn next_needy(groups: Seq<Group>, held: Map<u64, String>, from: int) -> int
    decreases groups.len() - from,
{
    if from >= groups.len() {
        groups.len() as int
    } else if !writes(held, groups[from].id) {
        from
    } else {
        next_needy(groups, held, from + 1)
    }
}

/// The lines that say of the groups from `from` up to `to` that each holds
/// write access on the repository already.
pub open spec fn held_entries(resource: String, groups: Seq<Group>, from: int, to: int) -> Seq<
    Entry,
>
    decreases to - from,
{
    if from >= to {
        Seq::empty()
    } else {
        held_entries(resource, groups, from, to - 1).push(
            Entry { resource, step: Step::Grant(groups[to - 1].id), verdict: Verdict::Compliant },
        )
    }
}

/// The number of lines that tell of a failure.
pub open spec fn failures(entries: Seq<Entry>) -> nat
    decreases entries.len(),
{
    if entries.len() == 0 {
        0
    } else {
        failures(entries.drop_last()) + if entries.last().verdict is Failed {
            1nat
        } else {
            0nat
        }
    }
}

/// The number of lines that tell of a change asked of GitHub, whether it
/// was made or not.
pub open spec fn changes(entries: Seq<Entry>) -> nat
    decreases entries.len(),
{
    if entries.len() == 0 {
        0
    } else {
        changes(entries.drop_last()) + if entries.last().step.is_write()
            && !(entries.last().verdict is Compliant) {
            1nat
        } else {
            0nat
        }
    }
}

/// The state of an enforcement run.
pub struct EnforcerView {
    pub policy: Policy,
    /// The repositories that the company keeps.
    pub repos: Seq<GithubRepo>,
    /// The teams that must be able to write, in the rising order of their ids.
    pub groups: Seq<Group>,
    /// The repository at hand; the length of `repos` when the run is over.
    pub at: int,
    pub phase: Phase,
    /// The access held on the repository at hand, once its teams are listed.
    pub held: Map<u64, String>,
    /// The group at hand, in the phase `Grant`.
    pub group: int,
    /// The record so far.
    pub entries: Seq<Entry>,
}

impl EnforcerView {
    /// The state is one that a run can be in.
    pub open spec fn wf(self) -> bool {
        &&& 0 <= self.at <= self.repos.len()
        &&& self.at < self.repos.len() ==> !self.policy.exempts(&self.repos[self.at])
        &&& self.phase is Grant ==> 0 <= self.group < self.groups.len() && !writes(
            self.held,
            self.groups[self.group].id,
        )
    }

    /// The run is over.
    pub open spec fn finished(self) -> bool {
        self.at >= self.repos.len()
    }

    /// The state in which a run starts.
    pub open spec fn start(policy: Policy, repos: Seq<GithubRepo>, groups: Seq<Group>) -> Self {
        EnforcerView {
            policy,
            repos,
            groups,
            at: next_target(policy, repos, 0),
            phase: Phase::ReadProtection,
            held: Map::empty(),
            group: 0,
            entries: Seq::empty(),
        }
    }

    /// The call that is asked for in this state.
    pub open spec fn action(self) -> EnforceActionView {
        if self.finished() {
            EnforceActionView::Finished
        } else {
            match self.phase {
                Phase::ReadProtection => EnforceActionView::ReadProtection(self.repos[self.at]),
                Phase::UpdateProtection => EnforceActionView::UpdateProtection(
                    self.repos[self.at],
                    Protection {
                        enforce_admins: true,
                        allow_force_pushes: false,
                        required_status_checks: None,
                        required_approving_reviews: None,
                    },
                ),
                Phase::ListGrants => EnforceActionView::ListGrants(self.repos[self.at]),
                Phase::Grant => if 0 <= self.group < self.groups.len() {
                    EnforceActionView::Grant(
                        self.repos[self.at],
                        self.groups[self.group],
                        Permission::Push,
                    )
                } else {
                    EnforceActionView::Finished
                },
            }
        }
    }

    /// The state with one more line in the record, about the repository at
    /// hand.
    pub open spec fn noted(self, step: Step, verdict: Verdict) -> Self {
        EnforcerView {
            entries: self.entries.push(
                Entry { resource: self.repos[self.at].repo.name, step, verdict },
            ),
            ..self
        }
    }

    /// The state once the groups from `from` on have been looked at: those
    /// that may write already are noted as compliant, and the run stops at
    /// the first that may not, or goes on to the next repository.
    pub open spec fn sought(self, from: int) -> Self {
        let needy = next_needy(self.groups, self.held, from);
        let entries = self.entries + held_entries(
            self.repos[self.at].repo.name,
            self.groups,
            from,
            needy,
        );
        if needy < self.groups.len() {
            EnforcerView { phase: Phase::Grant, group: needy, entries, ..self }
        } else {
            EnforcerView {
                at: next_target(self.policy, self.repos, self.at + 1),
                phase: Phase::ReadProtection,
                held: Map::empty(),
                group: 0,
                entries,
                ..self
            }
        }
    }

    /// The state after the call asked for has been answered. An answer that
    /// does not fit the call, or that comes when no call is asked for,
    /// changes nothing.
    pub open spec fn step(self, event: Event) -> Self {
        if self.finished() || (self.phase is Grant && !(0 <= self.group < self.groups.len())) {
            self
        } else {
            match (self.phase, event) {
                (Phase::ReadProtection, Event::Branch(Ok(branch))) => {
                    if branch.protected == Some(true) {
                        EnforcerView {
                            phase: Phase::ListGrants,
                            ..self.noted(Step::ReadProtection, Verdict::Compliant)
                        }
                    } else {
                        EnforcerView { phase: Phase::UpdateProtection, ..self }
                    }
                },
                (Phase::ReadProtection, Event::Branch(Err(error))) => EnforcerView {
                    phase: Phase::UpdateProtection,
                    ..self.noted(
                        Step::ReadProtection,
                        if expected_empty_state(error@) {
                            Verdict::Suppressed
                        } else {
                            Verdict::Failed(error)
                        },
                    )
                },
                (Phase::UpdateProtection, Event::Written(Ok(_))) => EnforcerView {
                    phase: Phase::ListGrants,
                    ..self.noted(Step::UpdateProtection, Verdict::Applied)
                },
                (Phase::UpdateProtection, Event::Written(Err(error))) => EnforcerView {
                    phase: Phase::ListGrants,
                    ..self.noted(
                        Step::UpdateProtection,
                        if expected_empty_state(error@) {
                            Verdict::Suppressed
                        } else {
                            Verdict::Failed(error)
                        },
                    )
                },
                (Phase::ListGrants, Event::Teams(Ok(teams))) => EnforcerView {
                    held: granted(teams@),
                    ..self
                }.sought(0),
                (Phase::ListGrants, Event::Teams(Err(error))) => EnforcerView {
                    held: Map::empty(),
                    ..self.noted(
                        Step::ListGrants,
                        if not_found(error@) {
                            Verdict::Suppressed
                        } else {
                            Verdict::Failed(error)
                        },
                    )
                }.sought(0),
                (Phase::Grant, Event::Written(Ok(_))) => self.noted(
                    Step::Grant(self.groups[self.group].id),
                    Verdict::Applied,
                ).sought(self.group + 1),
                (Phase::Grant, Event::Written(Err(error))) => self.noted(
                    Step::Grant(self.groups[self.group].id),
                    Verdict::Failed(error),
                ).sought(self.group + 1),
                _ => self,
            }
        }
    }
}

/// `next_target` stays within the list and stops at a repository that the
/// policy does not leave alone.
pub proof fn lemma_next_target(policy: Policy, repos: Seq<GithubRepo>, from: int)
    requires
        0 <= from,
    ensures
        from <= next_target(policy, repos, from) <= repos.len() || (from > repos.len()
            && next_target(policy, repos, from) == repos.len()),
        next_target(policy, repos, from) < repos.len() ==> !policy.exempts(
            &repos[next_target(policy, repos, from)],
        ),
        forall|k: int| from <= k < next_target(policy, repos, from) ==> policy.exempts(&repos[k]),
    decreases repos.len() - from,
{
    if from < repos.len() && policy.exempts(&repos[from]) {
        lemma_next_target(policy, repos, from + 1);
    }
}

/// `next_needy` stays within the list and stops at a group that may not
/// write.
pub proof fn lemma_next_needy(groups: Seq<Group>, held: Map<u64, String>, from: int)
    requires
        0 <= from,
    ensures
        from <= next_needy(groups, held, from) <= groups.len() || (from > groups.len()
            && next_needy(groups, held, from) == groups.len()),
        next_needy(groups, held, from) < groups.len() ==> !writes(
            held,
            groups[next_needy(groups, held, from)].id,
        ),
        forall|k: int| from <= k < next_needy(groups, held, from) ==> writes(held, groups[k].id),
    decreases groups.len() - from,
{
    if from < groups.len() && writes(held, groups[from].id) {
        lemma_next_needy(groups, held, from + 1);
    }
}

proof fn lemma_needy_found(groups: Seq<Group>, held: Map<u64, String>, from: int, stop: int)
    requires
        0 <= from <= stop <= groups.len(),
        forall|k: int| from <= k < stop ==> writes(held, groups[k].id),
        stop < groups.len() ==> !writes(held, groups[stop].id),
    ensures
        next_needy(groups, held, from) == stop,
    decreases stop - from,
{
    if from < stop {
        lemma_needy_found(groups, held, from + 1, stop);
    }
}

proof fn lemma_target_found(policy: Policy, repos: Seq<GithubRepo>, from: int, stop: int)
    requires
        0 <= from <= stop <= repos.len(),
        forall|k: int| from <= k < stop ==> policy.exempts(&repos[k]),
        stop < repos.len() ==> !policy.exempts(&repos[stop]),
    ensures
        next_target(policy, repos, from) == stop,
    decreases stop - from,
{
    if from < stop {
        lemma_target_found(policy, repos, from + 1, stop);
    }
}

/// A step takes a state that a run can be in to another such state.
pub proof fn lemma_step_wf(state: EnforcerView, event: Event)
    requires
        state.wf(),
    ensures
        state.step(event).wf(),
{
    if !state.finished() {
        lemma_next_target(state.policy, state.repos, state.at + 1);
        lemma_next_needy(state.groups, state.step(event).held, 0);
        if state.phase is Grant {
            lemma_next_needy(state.groups, state.held, state.group + 1);
        }
    }
}

/// The answer shows that the repository at hand meets the policy: its
/// default branch is protected, or every team that must be able to write may
/// write already.
pub open spec fn compliant_answer(state: EnforcerView, event: Event) -> bool {
    match (state.phase, event) {
        (Phase::ReadProtection, Event::Branch(Ok(branch))) => branch.protected == Some(true),
        (Phase::ListGrants, Event::Teams(Ok(teams))) => forall|i: int|
            0 <= i < state.groups.len() ==> writes(granted(teams@), #[trigger] state.groups[i].id),
        _ => false,
    }
}

/// The state after a run has been given these answers, one after the other.
pub open spec fn run(state: EnforcerView, events: Seq<Event>) -> EnforcerView
    decreases events.len(),
{
    if events.len() == 0 {
        state
    } else {
        run(state.step(events[0]), events.drop_first())
    }
}

/// Every answer given to the run shows that the repository then at hand
/// meets the policy.
pub open spec fn all_compliant(state: EnforcerView, events: Seq<Event>) -> bool
    decreases events.len(),
{
    events.len() == 0 || ((state.finished() || compliant_answer(state, events[0]))
        && all_compliant(state.step(events[0]), events.drop_first()))
}

/// The run asks for no change at GitHub: not in this state, and in none that
/// these answers lead to.
pub open spec fn quiet(state: EnforcerView, events: Seq<Event>) -> bool
    decreases events.len(),
{
    !state.action().is_write() && (events.len() == 0 || quiet(
        state.step(events[0]),
        events.drop_first(),
    ))
}

proof fn lemma_held_entries_are_neutral(
    entries: Seq<Entry>,
    resource: String,
    groups: Seq<Group>,
    from: int,
    to: int,
)
    ensures
        changes(entries + held_entries(resource, groups, from, to)) == changes(entries),
        failures(entries + held_entries(resource, groups, from, to)) == failures(entries),
    decreases to - from,
{
    if from >= to {
        assert(entries + held_entries(resource, groups, from, to) =~= entries);
    } else {
        lemma_held_entries_are_neutral(entries, resource, groups, from, to - 1);
        let shorter = entries + held_entries(resource, groups, from, to - 1);
        let longer = entries + held_entries(resource, groups, from, to);
        assert(longer.drop_last() =~= shorter);
    }
}

/// Enforcement is idempotent: where every answer shows that the repository
/// at hand meets the policy already, the run asks for no change at GitHub,
/// and its record gains no change and no failure.
pub proof fn lemma_enforcement_idempotent(state: EnforcerView, events: Seq<Event>)
    requires
        state.wf(),
        !state.action().is_write(),
        all_compliant(state, events),
    ensures
        quiet(state, events),
        changes(run(state, events).entries) == changes(state.entries),
        failures(run(state, events).entries) == failures(state.entries),
    decreases events.len(),
{
    if events.len() > 0 {
        let event = events[0];
        let next = state.step(event);
        lemma_step_wf(state, event);
        if !state.finished() {
            match (state.phase, event) {
                (Phase::ReadProtection, Event::Branch(Ok(branch))) => {
                    assert(next.entries.drop_last() =~= state.entries);
                },
                (Phase::ListGrants, Event::Teams(Ok(teams))) => {
                    let held = granted(teams@);
                    lemma_needy_found(state.groups, held, 0, state.groups.len() as int);
                    lemma_held_entries_are_neutral(
                        state.entries,
                        state.repos[state.at].repo.name,
                        state.groups,
                        0,
                        state.groups.len() as int,
                    );
                },
                _ => {},
            }
        }
        lemma_enforcement_idempotent(next, events.drop_first());
    }
}

/// A run over repositories that all meet the policy already asks for no
/// change at GitHub and reports no failure: from its start to wherever the
/// answers take it, every call is a reading, and the record tells of no
/// change and of no failure.
pub proof fn lemma_compliant_run_is_quiet(
    policy: Policy,
    repos: Seq<GithubRepo>,
    groups: Seq<Group>,
    events: Seq<Event>,
)
    requires
        all_compliant(EnforcerView::start(policy, repos, groups), events),
    ensures
        quiet(EnforcerView::start(policy, repos, groups), events),
        changes(run(EnforcerView::start(policy, repos, groups), events).entries) == 0,
        failures(run(EnforcerView::start(policy, repos, groups), events).entries) == 0,
{
    lemma_next_target(policy, repos, 0);
    lemma_enforcement_idempotent(EnforcerView::start(policy, repos, groups), events);
}

/// An enforcement run: the repositories of a company, the teams that must be
/// able to write, and the record of what was found and done so far.
pub struct Enforcer {
    policy: Policy,
    repos: Vec<GithubRepo>,
    groups: Vec<Group>,
    at: usize,
    phase: Phase,
    held: Grants,
    group: usize,
    entries: Vec<Entry>,
}

impl View for Enforcer {
    type V = EnforcerView;

    closed spec fn view(&self) -> EnforcerView {
        EnforcerView {
            policy: self.policy,
            repos: self.repos@,
            groups: self.groups@,
            at: self.at as int,
            phase: self.phase,
            held: self.held@,
            group: self.group as int,
            entries: self.entries@,
        }
    }
}

impl Enforcer {
    /// Starts a run for the repositories that the company keeps, given the
    /// teams of its organization. The run stands at the first repository
    /// that the policy does not leave alone, and asks for its protection.
    pub fn begin(policy: Policy, repos: Vec<GithubRepo>, org_teams: Vec<Team>) -> (run: Enforcer)
        ensures
            run@.wf(),
            run@ == EnforcerView::start(policy, repos@, run@.groups),
            ascending(run@.groups),
            forall|i: int|
                0 <= i < run@.groups.len() ==> wanted(
                    policy.required_groups@,
                    org_teams@,
                ).contains_key(#[trigger] run@.groups[i].id) && wanted(
                    policy.required_groups@,
                    org_teams@,
                )[run@.groups[i].id] == run@.groups[i].name,
            forall|id: u64|
                wanted(policy.required_groups@, org_teams@).contains_key(id) ==> exists|i: int|
                    0 <= i < run@.groups.len() && #[trigger] run@.groups[i].id == id,
    {
        let groups = required_teams(&policy.required_groups, org_teams);
        let mut run = Enforcer {
            policy,
            repos,
            groups,
            at: 0,
            phase: Phase::ReadProtection,
            held: Grants::none(),
            group: 0,
            entries: Vec::new(),
        };
        run.seek_target(0);
        run
    }

    /// Moves to the first repository from `from` on that the policy does
    /// not leave alone.
    fn seek_target(&mut self, from: usize)
        requires
            from <= old(self).repos.len(),
        ensures
            final(self)@ == (EnforcerView {
                at: next_target(old(self)@.policy, old(self)@.repos, from as int),
                ..old(self)@
            }),
            final(self)@.at <= final(self)@.repos.len(),
            final(self)@.at < final(self)@.repos.len() ==> !final(self)@.policy.exempts(
                &final(self)@.repos[final(self)@.at],
            ),
    {
        let mut at: usize = from;
        while at < self.repos.len() && self.policy.skips(&self.repos[at])
            invariant
                from <= at <= self.repos.len(),
                *self == *old(self),
                forall|k: int| from <= k < at ==> self.policy.exempts(&self.repos@[k]),
            decreases self.repos.len() - at,
        {
            at += 1;
        }
        proof {
            lemma_target_found(self.policy, self.repos@, from as int, at as int);
        }
        self.at = at;
    }

    /// Adds a line about the repository at hand to the record.
    fn note(&mut self, step: Step, verdict: Verdict)
        requires
            old(self).at < old(self).repos.len(),
        ensures
            final(self)@ == old(self)@.noted(step, verdict),
    {
        let resource = self.repos[self.at].repo.name.clone();
        self.entries.push(Entry { resource, step, verdict });
    }

    /// Looks at the groups from `from` on, and goes on to the next
    /// repository where none is left that may not write.
    fn seek_needy(&mut self, from: usize)
        requires
            old(self).at < old(self).repos.len(),
            from <= old(self).groups.len(),
        ensures
            final(self)@ == old(self)@.sought(from as int),
    {
        let ghost before = self@;
        let mut group: usize = from;
        while group < self.groups.len() && self.held.lets_write(self.groups[group].id)
            invariant
                from <= group <= self.groups.len(),
                self.at < self.repos.len(),
                self@ == (EnforcerView {
                    entries: before.entries + held_entries(
                        before.repos[before.at].repo.name,
                        before.groups,
                        from as int,
                        group as int,
                    ),
                    ..before
                }),
                forall|k: int| from <= k < group ==> writes(before.held, before.groups[k].id),
            decreases self.groups.len() - group,
        {
            let id = self.groups[group].id;
            self.note(Step::Grant(id), Verdict::Compliant);
            proof {
                let resource = before.repos[before.at].repo.name;
                assert(before.entries + held_entries(
                    resource,
                    before.groups,
                    from as int,
                    group as int + 1,
                ) =~= (before.entries + held_entries(
                    resource,
                    before.groups,
                    from as int,
                    group as int,
                )).push(
                    Entry { resource, step: Step::Grant(id), verdict: Verdict::Compliant },
                ));
            }
            group += 1;
        }
        proof {
            lemma_needy_found(before.groups, before.held, from as int, group as int);
        }
        if group < self.groups.len() {
            self.phase = Phase::Grant;
            self.group = group;
        } else {
            let next: usize = self.at + 1;
            self.phase = Phase::ReadProtection;
            self.held = Grants::none();
            self.group = 0;
            self.seek_target(next);
        }
    }

    /// Whether the run is over.
    pub fn is_finished(&self) -> (over: bool)
        ensures
            over == self@.finished(),
    {
        self.at >= self.repos.len()
    }

    /// The call to make next.
    pub fn action(&self) -> (asked: EnforceAction<'_>)
        ensures
            asked@ == self@.action(),
    {
        if self.at >= self.repos.len() {
            EnforceAction::Finished
        } else {
            match self.phase {
                Phase::ReadProtection => EnforceAction::ReadProtection(&self.repos[self.at]),
                Phase::UpdateProtection => EnforceAction::UpdateProtection(
                    &self.repos[self.at],
                    Protection::minimal(),
                ),
                Phase::ListGrants => EnforceAction::ListGrants(&self.repos[self.at]),
                Phase::Grant => if self.group < self.groups.len() {
                    EnforceAction::Grant(
                        &self.repos[self.at],
                        &self.groups[self.group],
                        Permission::Push,
                    )
                } else {
                    EnforceAction::Finished
                },
            }
        }
    }

    /// Takes the answer to the call that was asked for, and moves on.
    pub fn advance(&mut self, event: Event)
        ensures
            final(self)@ == old(self)@.step(event),
            old(self)@.wf() ==> final(self)@.wf(),
    {
        proof {
            if self@.wf() {
                lemma_step_wf(self@, event);
            }
        }
        if self.at >= self.repos.len() {
            return ;
        }
        match self.phase {
            Phase::ReadProtection => match event {
                Event::Branch(Ok(branch)) => {
                    let protected = match branch.protected {
                        Some(protected) => protected,
                        None => false,
                    };
                    if protected {
                        self.note(Step::ReadProtection, Verdict::Compliant);
                        self.phase = Phase::ListGrants;
                    } else {
                        self.phase = Phase::UpdateProtection;
                    }
                },
                Event::Branch(Err(error)) => {
                    if is_expected_empty_state(error.as_str()) {
                        self.note(Step::ReadProtection, Verdict::Suppressed);
                    } else {
                        self.note(Step::ReadProtection, Verdict::Failed(error));
                    }
                    self.phase = Phase::UpdateProtection;
                },
                _ => {},
            },
            Phase::UpdateProtection => match event {
                Event::Written(Ok(_)) => {
                    self.note(Step::UpdateProtection, Verdict::Applied);
                    self.phase = Phase::ListGrants;
                },
                Event::Written(Err(error)) => {
                    if is_expected_empty_state(error.as_str()) {
                        self.note(Step::UpdateProtection, Verdict::Suppressed);
                    } else {
                        self.note(Step::UpdateProtection, Verdict::Failed(error));
                    }
                    self.phase = Phase::ListGrants;
                },
                _ => {},
            },
            Phase::ListGrants => match event {
                Event::Teams(Ok(teams)) => {
                    self.held = Grants::of_teams(teams);
                    self.seek_needy(0);
                },
                Event::Teams(Err(error)) => {
                    if is_not_found(error.as_str()) {
                        self.note(Step::ListGrants, Verdict::Suppressed);
                    } else {
                        self.note(Step::ListGrants, Verdict::Failed(error));
                    }
                    self.held = Grants::none();
                    self.seek_needy(0);
                },
                _ => {},
            },
            Phase::Grant => {
                if self.group >= self.groups.len() {
                    return ;
                }
                let id = self.groups[self.group].id;
                let next: usize = self.group + 1;
                match event {
                    Event::Written(Ok(_)) => {
                        self.note(Step::Grant(id), Verdict::Applied);
                        self.seek_needy(next);
                    },
                    Event::Written(Err(error)) => {
                        self.note(Step::Grant(id), Verdict::Failed(error));
                        self.seek_needy(next);
                    },
                    _ => {},
                }
            },
        }
    }

    /// The record so far.
    pub fn entries(&self) -> (entries: &Vec<Entry>)
        ensures
            entries@ == self@.entries,
    {
        &self.entries
    }

    /// Ends the run and hands out its record.
    pub fn into_report(self) -> (report: EnforceReport)
        ensures
            report.entries@ == self@.entries,
    {
        EnforceReport { entries: self.entries }
    }
}

/// The record of an enforcement run: for every repository, every action
/// and how it ended.
#[derive(Debug, PartialEq, Clone)]
pub struct EnforceReport {
    pub entries: Vec<Entry>,
}

impl EnforceReport {
    /// The number of actions that failed.
    pub fn failure_count(&self) -> (count: usize)
        ensures
            count == failures(self.entries@),
    {
        let mut count: usize = 0;
        let mut i: usize = 0;
        while i < self.entries.len()
            invariant
                i <= self.entries.len(),
                count <= i,
                count == failures(self.entries@.take(i as int)),
            decreases self.entries.len() - i,
        {
            proof {
                assert(self.entries@.take(i + 1).drop_last() =~= self.entries@.take(i as int));
            }
            match self.entries[i].verdict {
                Verdict::Failed(_) => {
                    count += 1;
                },
                _ => {},
            }
            i += 1;
        }
        assert(self.entries@.take(i as int) =~= self.entries@);
        count
    }

    /// The number of changes that were asked of GitHub.
    pub fn change_count(&self) -> (count: usize)
        ensures
            count == changes(self.entries@),
    {
        let mut count: usize = 0;
        let mut i: usize = 0;
        while i < self.entries.len()
            invariant
                i <= self.entries.len(),
                count <= i,
                count == changes(self.entries@.take(i as int)),
            decreases self.entries.len() - i,
        {
            proof {
                assert(self.entries@.take(i + 1).drop_last() =~= self.entries@.take(i as int));
            }
            let write = match self.entries[i].step {
                Step::UpdateProtection => true,
                Step::Grant(_) => true,
                _ => false,
            };
            let compliant = match self.entries[i].verdict {
                Verdict::Compliant => true,
                _ => false,
            };
            if write && !compliant {
                count += 1;
            }
            i += 1;
        }
        assert(self.entries@.take(i as int) =~= self.entries@);
        count
    }
}

} // verus!
