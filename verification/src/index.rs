//! The identity index: the repositories that a company keeps, by name.

use vstd::prelude::*;
use crate::error::RunError;
use crate::repos::GithubRepo;
use crate::text::{
    compare, lemma_precedes_asymmetric, lemma_precedes_transitive, precedes, same_text, KeyOrder,
};

verus! {

/// The names of the repositories rise strictly in the order of keys.
pub open spec fn key_sorted(entries: Seq<GithubRepo>) -> bool {
    forall|i: int, j: int|
        0 <= i < j < entries.len() ==>
            precedes(#[trigger] entries[i].key(), #[trigger] entries[j].key())
}

/// One of the repositories goes by the name `key`.
pub open spec fn holds_key(entries: Seq<GithubRepo>, key: Seq<char>) -> bool {
    exists|i: int| 0 <= i < entries.len() && #[trigger] entries[i].key() == key
}

/// The repositories at `i` and at `j` both belong to the company and both go
/// by the name `key`.
pub open spec fn clash_at(
    persisted: Seq<GithubRepo>,
    tenant: i32,
    key: Seq<char>,
    i: int,
    j: int,
) -> bool {
    &&& 0 <= i < j < persisted.len()
    &&& persisted[i].repo.cio_company_id == tenant
    &&& persisted[j].repo.cio_company_id == tenant
    &&& persisted[i].key() == key
    &&& persisted[j].key() == key
}

/// Two repositories of the company go by the name `key`.
pub open spec fn clash(persisted: Seq<GithubRepo>, tenant: i32, key: Seq<char>) -> bool {
    exists|i: int, j: int| clash_at(persisted, tenant, key, i, j)
}

/// Two repositories of the company go by the name `key`, and they are the
/// first such pair in the list: no pair goes by one name and ends before
/// this one does.
pub open spec fn first_clash(persisted: Seq<GithubRepo>, tenant: i32, key: Seq<char>) -> bool {
    exists|i: int, j: int|
        #[trigger] clash_at(persisted, tenant, key, i, j) &&
            forall|other: Seq<char>, a: int, b: int|
            b < j ==> !#[trigger] clash_at(persisted, tenant, other, a, b)
}

/// Two repositories of the company go by one name.
pub open spec fn clashes(persisted: Seq<GithubRepo>, tenant: i32) -> bool {
    exists|key: Seq<char>| clash(persisted, tenant, key)
}

/// The place of the first repository that goes by the name `key`, or the
/// length of the list where none does.
pub open spec fn spot(entries: Seq<GithubRepo>, key: Seq<char>) -> int
    decreases entries.len(),
{
    if entries.len() == 0 {
        0
    } else if entries[0].key() == key {
        0
    } else {
        1 + spot(entries.drop_first(), key)
    }
}

/// The list without the first repository that goes by the name `key`.
pub open spec fn without(entries: Seq<GithubRepo>, key: Seq<char>) -> Seq<GithubRepo> {
    if spot(entries, key) < entries.len() {
        entries.remove(spot(entries, key))
    } else {
        entries
    }
}

/// `spot` finds a repository of the name if there is one.
pub proof fn lemma_spot(entries: Seq<GithubRepo>, key: Seq<char>)
    ensures
        0 <= spot(entries, key) <= entries.len(),
        spot(entries, key) < entries.len() ==> entries[spot(entries, key)].key() == key,
        forall|i: int| 0 <= i < spot(entries, key) ==> (#[trigger] entries[i]).key() != key,
        holds_key(entries, key) <==> spot(entries, key) < entries.len(),
    decreases entries.len(),
{
    if entries.len() > 0 && entries[0].key() != key {
        let rest = entries.drop_first();
        lemma_spot(rest, key);
        assert forall|i: int| 0 <= i < spot(entries, key) implies (#[trigger] entries[i]).key()
            != key by {
            if i > 0 {
                assert(entries[i] == rest[i - 1]);
            }
        }
        if holds_key(entries, key) {
            let i = choose|i: int| 0 <= i < entries.len() && #[trigger] entries[i].key() == key;
            assert(rest[i - 1].key() == key);
        }
        if spot(entries, key) < entries.len() {
            assert(entries[spot(entries, key)] == rest[spot(rest, key)]);
        }
    }
}

/// In a list sorted by name, taking the repository of a name out leaves a
/// sorted list that holds every other name as before, and that name no more.
pub proof fn lemma_without(entries: Seq<GithubRepo>, key: Seq<char>)
    requires
        key_sorted(entries),
    ensures
        key_sorted(without(entries, key)),
        !holds_key(without(entries, key), key),
        forall|other: Seq<char>|
            other != key ==> (holds_key(without(entries, key), other) <==> holds_key(
                entries,
                other,
            )),
        forall|i: int|
            0 <= i < without(entries, key).len() ==> entries.contains(
                #[trigger] without(entries, key)[i],
            ),
{
    lemma_spot(entries, key);
    let at = spot(entries, key);
    let left = without(entries, key);
    if at < entries.len() {
        assert forall|i: int| 0 <= i < left.len() implies #[trigger] left[i] == entries[if i
            < at {
            i
        } else {
            i + 1
        }] by {}
        assert forall|i: int, j: int| 0 <= i < j < left.len() implies precedes(
            #[trigger] left[i].key(),
            #[trigger] left[j].key(),
        ) by {
            let a = if i < at { i } else { i + 1 };
            let b = if j < at { j } else { j + 1 };
            assert(precedes(entries[a].key(), entries[b].key()));
        }
        if holds_key(left, key) {
            let i = choose|i: int| 0 <= i < left.len() && #[trigger] left[i].key() == key;
            let a = if i < at { i } else { i + 1 };
            if a < at {
                assert(precedes(entries[a].key(), entries[at].key()));
                lemma_precedes_asymmetric(entries[a].key(), entries[at].key());
            } else {
                assert(precedes(entries[at].key(), entries[a].key()));
                lemma_precedes_asymmetric(entries[at].key(), entries[a].key());
            }
            assert(false);
        }
        assert forall|other: Seq<char>| other != key implies (holds_key(left, other)
            <==> holds_key(entries, other)) by {
            if holds_key(left, other) {
                let i = choose|i: int| 0 <= i < left.len() && #[trigger] left[i].key() == other;
                let a = if i < at { i } else { i + 1 };
                assert(entries[a].key() == other);
            }
            if holds_key(entries, other) {
                let a = choose|a: int| 0 <= a < entries.len() && #[trigger] entries[a].key() ==
                    other;
                let i = if a < at { a } else { a - 1 };
                assert(left[i].key() == other);
            }
        }
        assert forall|i: int| 0 <= i < left.len() implies entries.contains(#[trigger] left[i]) by {
            let a = if i < at { i } else { i + 1 };
            assert(entries[a] == left[i]);
        }
    }
}

/// In a list sorted by name no two repositories go by one name.
pub proof fn lemma_sorted_keys_differ(entries: Seq<GithubRepo>, i: int, j: int)
    requires
        key_sorted(entries),
        0 <= i < entries.len(),
        0 <= j < entries.len(),
        i != j,
    ensures
        entries[i].key() != entries[j].key(),
{
    if i < j {
        assert(precedes(entries[i].key(), entries[j].key()));
        lemma_precedes_asymmetric(entries[i].key(), entries[j].key());
    } else {
        assert(precedes(entries[j].key(), entries[i].key()));
        lemma_precedes_asymmetric(entries[j].key(), entries[i].key());
    }
}

/// The repositories that a company keeps, by name: each name once, in the
/// order of keys.
pub struct IdentityIndex {
    tenant: i32,
    entries: Vec<GithubRepo>,
}

impl View for IdentityIndex {
    type V = Seq<GithubRepo>;

    closed spec fn view(&self) -> Seq<GithubRepo> {
        self.entries@
    }
}

/// The place in a sorted list where a name stands or would stand, and
/// whether it stands there.
fn slot(entries: &Vec<GithubRepo>, key: &str) -> (found: (usize, bool))
    requires
        key_sorted(entries@),
    ensures
        found.0 <= entries.len(),
        forall|k: int| 0 <= k < found.0 ==> precedes((#[trigger] entries@[k]).key(), key@),
        found.1 ==> found.0 < entries.len() && entries@[found.0 as int].key() == key@,
        !found.1 ==> !holds_key(entries@, key@),
        !found.1 && found.0 < entries.len() ==> precedes(key@, entries@[found.0 as int].key()),
{
    let mut at: usize = 0;
    let mut taken = false;
    while at < entries.len()
        invariant_except_break
            !taken,
        invariant
            at <= entries.len(),
            forall|k: int| 0 <= k < at ==> precedes((#[trigger] entries@[k]).key(), key@),
        ensures
            at <= entries.len(),
            forall|k: int| 0 <= k < at ==> precedes((#[trigger] entries@[k]).key(), key@),
            taken ==> at < entries.len() && entries@[at as int].key() == key@,
            !taken && at < entries.len() ==> precedes(key@, entries@[at as int].key()),
        decreases entries.len() - at,
    {
        match compare(entries[at].repo.name.as_str(), key) {
            KeyOrder::Before => {
                at += 1;
            },
            KeyOrder::Same => {
                taken = true;
                break ;
            },
            KeyOrder::After => {
                break ;
            },
        }
    }
    proof {
        assert forall|k: int| 0 <= k < at implies (#[trigger] entries@[k]).key() != key@ by {
            lemma_precedes_asymmetric(entries@[k].key(), key@);
        }
        if !taken {
            if holds_key(entries@, key@) {
                let i = choose|i: int| 0 <= i < entries@.len() && #[trigger] entries@[i].key() ==
                    key@;
                if i > at {
                    assert(precedes(entries@[at as int].key(), entries@[i].key()));
                    lemma_precedes_transitive(key@, entries@[at as int].key(), entries@[i].key());
                }
                lemma_precedes_asymmetric(key@, entries@[i].key());
            }
        }
    }
    (at, taken)
}

/// The place of the first repository of a name, or the length of the list
/// where there is none.
fn find(entries: &Vec<GithubRepo>, key: &str) -> (at: usize)
    ensures
        at == spot(entries@, key@),
{
    let mut at: usize = 0;
    while at < entries.len()
        invariant
            at <= entries.len(),
            forall|k: int| 0 <= k < at ==> (#[trigger] entries@[k]).key() != key@,
        ensures
            at <= entries.len(),
            forall|k: int| 0 <= k < at ==> (#[trigger] entries@[k]).key() != key@,
            at < entries.len() ==> entries@[at as int].key() == key@,
        decreases entries.len() - at,
    {
        if same_text(entries[at].repo.name.as_str(), key) {
            break ;
        }
        at += 1;
    }
    proof {
        lemma_spot(entries@, key@);
    }
    at
}

impl IdentityIndex {
    /// The index is sorted by name and holds repositories of its company
    /// only.
    pub open spec fn wf(&self) -> bool {
        &&& key_sorted(self@)
        &&& forall|i: int|
            0 <= i < self@.len() ==> (#[trigger] self@[i]).repo.cio_company_id == self.tenant()
    }

    /// The company whose repositories the index holds.
    pub closed spec fn tenant(&self) -> i32 {
        self.tenant
    }

    /// The company whose repositories the index holds.
    pub fn company(&self) -> (tenant: i32)
        ensures
            tenant == self.tenant(),
    {
        self.tenant
    }

    /// Builds the index of a company from the repositories kept. Those of
    /// other companies are passed over. Two repositories of the company that
    /// go by one name are a fault in the data: no index is built then, and
    /// the error carries the name of the first such pair.
    pub fn build(tenant: i32, persisted: Vec<GithubRepo>) -> (built: Result<
        IdentityIndex,
        RunError,
    >)
        ensures
            built is Ok <==> !clashes(persisted@, tenant),
            match built {
                Ok(index) => {
                    &&& index.wf()
                    &&& index.tenant() == tenant
                    &&& forall|r: GithubRepo|
                        index@.contains(r) <==> persisted@.contains(r) && r.repo.cio_company_id
                            == tenant
                },
                Err(error) => error matches RunError::IntegrityViolation(key) && first_clash(
                    persisted@,
                    tenant,
                    key@,
                ),
            },
    {
        let mut entries: Vec<GithubRepo> = Vec::new();
        for record in it: persisted
            invariant
                it.seq() == persisted@,
                key_sorted(entries@),
                forall|k: int|
                    0 <= k < entries@.len() ==> (#[trigger] entries@[k]).repo.cio_company_id
                        == tenant && exists|i: int|
                        0 <= i < it.index() && #[trigger] persisted@[i] == entries@[k],
                forall|i: int|
                    0 <= i < it.index() && (#[trigger] persisted@[i]).repo.cio_company_id == tenant
                        ==> entries@.contains(persisted@[i]),
                forall|key: Seq<char>, i: int, j: int|
                    j < it.index() ==> !#[trigger] clash_at(persisted@, tenant, key, i, j),
        {
            let ghost seen = it.index() as int;
            let ghost before = entries@;
            if record.repo.cio_company_id == tenant {
                let found = slot(&entries, record.repo.name.as_str());
                if found.1 {
                    proof {
                        let earlier = choose|i: int|
                            0 <= i < seen && #[trigger] persisted@[i] == before[found.0 as int];
                        assert(clash_at(persisted@, tenant, record.key(), earlier, seen));
                        assert(clash(persisted@, tenant, record.key()));
                    }
                    return Err(RunError::IntegrityViolation(record.repo.name));
                }
                entries.insert(found.0, record);
                proof {
                    let at = found.0 as int;
                    let after = entries@;
                    assert forall|k: int| 0 <= k < after.len() implies #[trigger] after[k] == (if k
                        < at {
                        before[k]
                    } else if k == at {
                        record
                    } else {
                        before[k - 1]
                    }) by {}
                    assert forall|i: int, j: int| 0 <= i < j < after.len() implies precedes(
                        #[trigger] after[i].key(),
                        #[trigger] after[j].key(),
                    ) by {
                        if j < at {
                            assert(precedes(before[i].key(), before[j].key()));
                        } else if j == at {
                            assert(precedes(before[i].key(), record.key()));
                        } else if i == at {
                            if j - 1 > at {
                                assert(precedes(before[at].key(), before[j - 1].key()));
                                lemma_precedes_transitive(
                                    record.key(),
                                    before[at].key(),
                                    before[j - 1].key(),
                                );
                            }
                        } else if i < at {
                            assert(precedes(before[i].key(), before[j - 1].key()));
                        } else {
                            assert(precedes(before[i - 1].key(), before[j - 1].key()));
                        }
                    }
                    assert forall|k: int| 0 <= k < after.len() implies
                        (#[trigger] after[k]).repo.cio_company_id
                        == tenant && exists|i: int|
                        0 <= i < seen + 1 && #[trigger] persisted@[i] == after[k] by {
                        if k < at {
                            let i = choose|i: int| 0 <= i < seen && #[trigger] persisted@[i] ==
                                before[k];
                            assert(persisted@[i] == after[k]);
                        } else if k == at {
                            assert(persisted@[seen] == after[k]);
                        } else {
                            let i = choose|i: int|
                                0 <= i < seen && #[trigger] persisted@[i] == before[k - 1];
                            assert(persisted@[i] == after[k]);
                        }
                    }
                    assert forall|i: int|
                        0 <= i < seen + 1 && (#[trigger] persisted@[i]).repo.cio_company_id
                            == tenant implies after.contains(persisted@[i]) by {
                        if i < seen {
                            assert(before.contains(persisted@[i]));
                            let k = choose|k: int| 0 <= k < before.len() && before[k] ==
                                persisted@[i];
                            if k < at {
                                assert(after[k] == persisted@[i]);
                            } else {
                                assert(after[k + 1] == persisted@[i]);
                            }
                        } else {
                            assert(after[at] == persisted@[i]);
                        }
                    }
                    assert forall|key: Seq<char>, i: int, j: int| j < seen + 1 implies
                        !#[trigger] clash_at(
                        persisted@,
                        tenant,
                        key,
                        i,
                        j,
                    ) by {
                        if j == seen && clash_at(persisted@, tenant, key, i, j) {
                            assert(before.contains(persisted@[i]));
                            let k = choose|k: int| 0 <= k < before.len() && before[k] ==
                                persisted@[i];
                            assert(before[k].key() == record.key());
                            assert(holds_key(before, record.key()));
                        }
                    }
                }
            } else {
                proof {
                    assert forall|key: Seq<char>, i: int, j: int| j < seen + 1 implies
                        !#[trigger] clash_at(
                        persisted@,
                        tenant,
                        key,
                        i,
                        j,
                    ) by {}
                    assert forall|k: int| 0 <= k < before.len() implies
                        (#[trigger] before[k]).repo.cio_company_id
                        == tenant && exists|i: int|
                        0 <= i < seen + 1 && #[trigger] persisted@[i] == before[k] by {
                        let i = choose|i: int| 0 <= i < seen && #[trigger] persisted@[i] ==
                            before[k];
                        assert(persisted@[i] == before[k]);
                    }
                }
            }
        }
        proof {
            assert forall|r: GithubRepo|
                entries@.contains(r) <==> persisted@.contains(r) && r.repo.cio_company_id
                    == tenant by {
                if entries@.contains(r) {
                    let k = choose|k: int| 0 <= k < entries@.len() && entries@[k] == r;
                    let i = choose|i: int|
                        0 <= i < persisted@.len() && #[trigger] persisted@[i] == entries@[k];
                    assert(persisted@[i] == r);
                }
                if persisted@.contains(r) && r.repo.cio_company_id == tenant {
                    let i = choose|i: int| 0 <= i < persisted@.len() && persisted@[i] == r;
                    assert(entries@.contains(persisted@[i]));
                }
            }
            if clashes(persisted@, tenant) {
                let key = choose|key: Seq<char>| clash(persisted@, tenant, key);
                let (i, j) = choose|i: int, j: int| clash_at(persisted@, tenant, key, i, j);
                assert(!clash_at(persisted@, tenant, key, i, j));
            }
        }
        Ok(IdentityIndex { tenant, entries })
    }

    /// The number of repositories in the index.
    pub fn len(&self) -> (count: usize)
        ensures
            count == self@.len(),
    {
        self.entries.len()
    }

    /// Whether a repository of this name is in the index.
    pub fn has(&self, key: &str) -> (held: bool)
        ensures
            held == holds_key(self@, key@),
    {
        proof {
            lemma_spot(self@, key@);
        }
        find(&self.entries, key) < self.entries.len()
    }

    /// The repository of this name, if one is in the index.
    pub fn get(&self, key: &str) -> (found: Option<&GithubRepo>)
        ensures
            found is Some <==> holds_key(self@, key@),
            found is Some ==> *found->Some_0 == self@[spot(self@, key@)],
    {
        proof {
            lemma_spot(self@, key@);
        }
        let at = find(&self.entries, key);
        if at < self.entries.len() {
            Some(&self.entries[at])
        } else {
            None
        }
    }

    /// The repository that stands first in the index, if there is one.
    pub fn first(&self) -> (first: Option<&GithubRepo>)
        ensures
            first is Some <==> self@.len() > 0,
            first is Some ==> *first->Some_0 == self@[0],
    {
        if self.entries.len() > 0 {
            Some(&self.entries[0])
        } else {
            None
        }
    }

    /// Takes the repository of this name out of the index, if there is one.
    pub fn remove(&mut self, key: &str)
        ensures
            final(self)@ == without(old(self)@, key@),
            final(self).tenant() == old(self).tenant(),
            old(self).wf() ==> final(self).wf(),
    {
        proof {
            lemma_spot(self@, key@);
            if self.wf() {
                lemma_without(self@, key@);
            }
        }
        let at = find(&self.entries, key);
        if at < self.entries.len() {
            let taken = self.entries.remove(at);
        }
        proof {
            if old(self).wf() {
                assert forall|i: int| 0 <= i < self@.len() implies
                    (#[trigger] self@[i]).repo.cio_company_id
                    == self.tenant() by {
                    assert(old(self)@.contains(self@[i]));
                }
            }
        }
    }

    /// Takes the first repository out of the index, if there is one.
    pub fn drop_first(&mut self)
        ensures
            final(self)@ == (if old(self)@.len() > 0 {
                old(self)@.drop_first()
            } else {
                old(self)@
            }),
            final(self).tenant() == old(self).tenant(),
            old(self).wf() ==> final(self).wf(),
    {
        if self.entries.len() == 0 {
            return ;
        }
        let taken = self.entries.remove(0);
        proof {
            assert(self@ =~= old(self)@.drop_first());
            if old(self).wf() {
                assert forall|i: int, j: int| 0 <= i < j < self@.len() implies precedes(
                    #[trigger] self@[i].key(),
                    #[trigger] self@[j].key(),
                ) by {
                    assert(precedes(old(self)@[i + 1].key(), old(self)@[j + 1].key()));
                }
                assert forall|i: int| 0 <= i < self@.len() implies
                    (#[trigger] self@[i]).repo.cio_company_id
                    == self.tenant() by {
                    assert(self@[i] == old(self)@[i + 1]);
                }
            }
        }
    }
}

} // verus!
