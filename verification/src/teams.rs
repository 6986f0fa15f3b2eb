//! Teams by their GitHub id: the teams that the policy names, and the access
//! that teams hold on one repository.

use std::collections::BTreeMap;
use vstd::prelude::*;
use vstd::std_specs::btree::increasing_seq;
use vstd::std_specs::cmp::OrdSpec;
use vstd::std_specs::iter::IteratorSpec;
use crate::policy::{holds_write, listed, may_write, is_listed, Team};

verus! {

broadcast use {vstd::std_specs::btree::group_btree_axioms, vstd::laws_cmp::group_laws_cmp};

/// A team that the policy names, found among the organization's teams.
#[derive(Debug, PartialEq, Clone)]
pub struct Group {
    pub id: u64,
    pub name: String,
}

/// The teams of an organization that the policy names, by id. Where two
/// teams of the list share an id, the later one counts.
pub open spec fn wanted(required: Seq<String>, teams: Seq<Team>) -> Map<u64, String>
    decreases teams.len(),
{
    if teams.len() == 0 {
        Map::empty()
    } else {
        let before = wanted(required, teams.drop_last());
        if listed(required, teams.last().name@) {
            before.insert(teams.last().id, teams.last().name)
        } else {
            before
        }
    }
}

/// The access that the teams of a list hold, by id. Where two teams of the
/// list share an id, the later one counts.
pub open spec fn granted(teams: Seq<Team>) -> Map<u64, String>
    decreases teams.len(),
{
    if teams.len() == 0 {
        Map::empty()
    } else {
        granted(teams.drop_last()).insert(teams.last().id, teams.last().permission)
    }
}

/// The ids of the groups rise strictly.
pub open spec fn ascending(groups: Seq<Group>) -> bool {
    forall|i: int, j: int| 0 <= i < j < groups.len() ==> groups[i].id < groups[j].id
}

fn wanted_by_id(required: &Vec<String>, teams: Vec<Team>) -> (found: BTreeMap<u64, String>)
    ensures
        found@ == wanted(required@, teams@),
{
    let mut found: BTreeMap<u64, String> = BTreeMap::new();
    for team in it: teams
        invariant
            found@ == wanted(required@, it.seq().take(it.index() as int)),
    {
        proof {
            let upto = it.seq().take(it.index() + 1);
            assert(upto.drop_last() =~= it.seq().take(it.index() as int));
            assert(upto.last() == team);
        }
        if is_listed(required, team.name.as_str()) {
            found.insert(team.id, team.name);
        }
    }
    assert(teams@.take(teams@.len() as int) =~= teams@);
    found
}

fn in_order(found: &BTreeMap<u64, String>) -> (groups: Vec<Group>)
    ensures
        ascending(groups@),
        forall|i: int|
            0 <= i < groups.len() ==> found@.contains_key(#[trigger] groups[i].id)
                && found@[groups[i].id] == groups[i].name,
        forall|id: u64|
            found@.contains_key(id) ==> exists|i: int|
                0 <= i < groups.len() && #[trigger] groups[i].id == id,
{
    let mut groups: Vec<Group> = Vec::new();
    let pairs = found.iter();
    proof {
        let ids = pairs.remaining().map_values(|pair: (&u64, &String)| *pair.0);
        assert(increasing_seq(ids));
        assert forall|i: int, j: int| 0 <= i < j < pairs.remaining().len() implies
            *pairs.remaining()[i].0
            < *pairs.remaining()[j].0 by {
            assert(ids[i] == *pairs.remaining()[i].0);
            assert(ids[j] == *pairs.remaining()[j].0);
            assert(ids[i].cmp_spec(&ids[j]) is Less);
        }
    }
    for pair in it: pairs
        invariant
            groups.len() == it.index(),
            forall|i: int|
                0 <= i < groups.len() ==> groups[i].id == *it.seq()[i].0 && groups[i].name
                    == *it.seq()[i].1,
            forall|i: int, j: int| 0 <= i < j < it.seq().len() ==> *it.seq()[i].0 < *it.seq()[j].0,
            forall|i: int|
                0 <= i < it.seq().len() ==> found@.contains_key(*#[trigger] it.seq()[i].0)
                    && found@[*it.seq()[i].0] == *it.seq()[i].1,
            forall|id: u64|
                found@.contains_key(id) ==> it.seq().contains((&id, &#[trigger] found@[id])),
    {
        groups.push(Group { id: *pair.0, name: pair.1.clone() });
    }
    proof {
        assert forall|id: u64| found@.contains_key(id) implies exists|i: int|
            0 <= i < groups.len() && #[trigger] groups[i].id == id by {
            let ghost_pairs = pairs.remaining();
            assert(ghost_pairs.contains((&id, &found@[id])));
            let i = choose|i: int| 0 <= i < ghost_pairs.len() && ghost_pairs[i] ==
                (&id, &found@[id]);
            assert(groups[i].id == id);
        }
    }
    groups
}

/// The teams of an organization that the policy names, in the rising order
/// of their ids, each id once.
pub fn required_teams(required: &Vec<String>, teams: Vec<Team>) -> (groups: Vec<Group>)
    ensures
        ascending(groups@),
        forall|i: int|
            0 <= i < groups.len() ==>
                wanted(required@, teams@).contains_key(#[trigger] groups[i].id)
                && wanted(required@, teams@)[groups[i].id] == groups[i].name,
        forall|id: u64|
            wanted(required@, teams@).contains_key(id) ==> exists|i: int|
                0 <= i < groups.len() && #[trigger] groups[i].id == id,
{
    let found = wanted_by_id(required, teams);
    in_order(&found)
}

/// The access that teams hold on one repository, by team id.
pub struct Grants {
    held: BTreeMap<u64, String>,
}

impl View for Grants {
    type V = Map<u64, String>;

    closed spec fn view(&self) -> Map<u64, String> {
        self.held@
    }
}

/// The team may write under the access held: the team is there, and its
/// permission is `push` or `admin`.
pub open spec fn writes(held: Map<u64, String>, team: u64) -> bool {
    held.contains_key(team) && may_write(held[team]@)
}

impl Grants {
    /// No team holds any access.
    pub fn none() -> (grants: Grants)
        ensures
            grants@ == Map::<u64, String>::empty(),
    {
        Grants { held: BTreeMap::new() }
    }

    /// The access that the teams listed on a repository hold.
    pub fn of_teams(teams: Vec<Team>) -> (grants: Grants)
        ensures
            grants@ == granted(teams@),
    {
        let mut held: BTreeMap<u64, String> = BTreeMap::new();
        for team in it: teams
            invariant
                held@ == granted(it.seq().take(it.index() as int)),
        {
            proof {
                let upto = it.seq().take(it.index() + 1);
                assert(upto.drop_last() =~= it.seq().take(it.index() as int));
                assert(upto.last() == team);
            }
            held.insert(team.id, team.permission);
        }
        assert(teams@.take(teams@.len() as int) =~= teams@);
        Grants { held }
    }

    /// Whether a team may write under the access held.
    pub fn lets_write(&self, team: u64) -> (enough: bool)
        ensures
            enough == writes(self@, team),
    {
        match self.held.get(&team) {
            Some(permission) => holds_write(permission.as_str()),
            None => false,
        }
    }
}

} // verus!
