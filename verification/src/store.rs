//! The store as convergence sees it: the record kept under each company and
//! name, what a call does to it, and what a whole run makes of it.

use vstd::prelude::*;
use crate::converge::{
    lemma_of_company, lemma_step_wf, line, lists, of_company, tally, ConvergeActionView,
    ConvergeEntry, ConvergerView, Operation,
};
use crate::index::{holds_key, key_sorted, lemma_sorted_keys_differ, lemma_without};
use crate::repos::{GithubRepo, NewRepo};

verus! {

/// What a call makes of the store once it is answered: a repository that
/// the store took stands under its company and name, one that the store
/// gave up stands there no more, and a call that failed or went to the
/// mirror changes nothing.
pub open spec fn effect(
    store: Map<(i32, Seq<char>), NewRepo>,
    asked: ConvergeActionView,
    answer: Result<(), String>,
) -> Map<(i32, Seq<char>), NewRepo> {
    match (asked, answer) {
        (ConvergeActionView::StoreUpsert(record), Ok(_)) => store.insert(
            (record.cio_company_id, record.key()),
            record,
        ),
        (ConvergeActionView::StoreDelete(record), Ok(_)) => store.remove(
            (record.repo.cio_company_id, record.key()),
        ),
        _ => store,
    }
}

/// The run and the store after every call has been made and answered as
/// `answers` tells, one after the other.
pub open spec fn run(
    state: ConvergerView,
    store: Map<(i32, Seq<char>), NewRepo>,
    answers: Seq<Result<(), String>>,
) -> (ConvergerView, Map<(i32, Seq<char>), NewRepo>)
    decreases answers.len(),
{
    if answers.len() == 0 {
        (state, store)
    } else {
        run(
            state.step(answers[0]),
            effect(store, state.action(), answers[0]),
            answers.drop_first(),
        )
    }
}

/// Every call succeeded.
pub open spec fn all_ok(answers: Seq<Result<(), String>>) -> bool {
    forall|i: int| 0 <= i < answers.len() ==> (#[trigger] answers[i]) is Ok
}

/// The number of listed repositories that the store has taken or refused so
/// far.
pub open spec fn upserted(state: ConvergerView) -> int {
    if state.upserting() && state.mirror_due {
        state.at + 1
    } else {
        state.at
    }
}

/// The kept repositories that are unmatched and still in the store.
pub open spec fn unmatched(state: ConvergerView) -> Seq<GithubRepo> {
    if !state.upserting() && state.mirror_due && state.working.len() > 0 {
        state.working.drop_first()
    } else {
        state.working
    }
}

/// The place of the last of the first `upto` records that goes by the name
/// `key`, or -1 where none does.
pub open spec fn latest(remote: Seq<NewRepo>, upto: int, key: Seq<char>) -> int
    decreases upto,
{
    if upto <= 0 || upto > remote.len() {
        -1
    } else if remote[upto - 1].key() == key {
        upto - 1
    } else {
        latest(remote, upto - 1, key)
    }
}

/// `latest` finds a record of the name among the first `upto` if there is
/// one.
pub proof fn lemma_latest(remote: Seq<NewRepo>, upto: int, key: Seq<char>)
    requires
        0 <= upto <= remote.len(),
    ensures
        lists(remote, upto, key) <==> 0 <= latest(remote, upto, key),
        -1 <= latest(remote, upto, key) < upto,
        0 <= latest(remote, upto, key) ==> remote[latest(remote, upto, key)].key() == key,
    decreases upto,
{
    if upto > 0 {
        lemma_latest(remote, upto - 1, key);
        lemma_lists_one_more(remote, upto - 1, key);
    } else {
        assert(!lists(remote, upto, key));
    }
}

/// The store holds, for the company of the run, the listed repositories
/// that it has taken and the kept ones that are still unmatched, and no
/// others; no repository is both; and under the name of a listed repository
/// that it has taken stands the one that was listed last.
pub open spec fn settled(state: ConvergerView, store: Map<(i32, Seq<char>), NewRepo>) -> bool {
    &&& forall|key: Seq<char>| #[trigger]
        store.contains_key((state.tenant, key)) <==> lists(state.remote, upserted(state), key)
            || holds_key(unmatched(state), key)
    &&& forall|key: Seq<char>| #[trigger]
        lists(state.remote, upserted(state), key) ==> !holds_key(state.working, key)
    &&& forall|key: Seq<char>|
        lists(state.remote, upserted(state), key) ==> #[trigger] store[(state.tenant, key)]
            == state.remote[latest(state.remote, upserted(state), key)]
}

proof fn lemma_lists_one_more(remote: Seq<NewRepo>, at: int, key: Seq<char>)
    requires
        0 <= at < remote.len(),
    ensures
        lists(remote, at + 1, key) <==> lists(remote, at, key) || remote[at].key() == key,
{
    if lists(remote, at + 1, key) {
        let i = choose|i: int| 0 <= i < at + 1 && i < remote.len() &&
            #[trigger] remote[i].key() == key;
        if i < at {
            assert(lists(remote, at, key));
        }
    }
    if lists(remote, at, key) {
        let i = choose|i: int| 0 <= i < at && i < remote.len() && #[trigger] remote[i].key() == key;
        assert(remote[i].key() == key);
    }
    if remote[at].key() == key {
        assert(lists(remote, at + 1, key));
    }
}

proof fn lemma_rest_keys(working: Seq<GithubRepo>, key: Seq<char>)
    requires
        key_sorted(working),
        working.len() > 0,
    ensures
        holds_key(working.drop_first(), key) <==> holds_key(working, key) && working[0].key()
            != key,
{
    let rest = working.drop_first();
    if holds_key(rest, key) {
        let i = choose|i: int| 0 <= i < rest.len() && #[trigger] rest[i].key() == key;
        assert(working[i + 1].key() == key);
        lemma_sorted_keys_differ(working, 0, i + 1);
    }
    if holds_key(working, key) && working[0].key() != key {
        let i = choose|i: int| 0 <= i < working.len() && #[trigger] working[i].key() == key;
        assert(rest[i - 1].key() == key);
    }
}

proof fn lemma_step_settled(
    state: ConvergerView,
    store: Map<(i32, Seq<char>), NewRepo>,
    answer: Result<(), String>,
)
    requires
        state.wf(),
        settled(state, store),
        answer is Ok,
    ensures
        settled(state.step(answer), effect(store, state.action(), answer)),
{
    let next = state.step(answer);
    let after = effect(store, state.action(), answer);
    let tenant = state.tenant;
    assert forall|key: Seq<char>|
        store.contains_key((tenant, key)) == (lists(state.remote, upserted(state), key)
            || holds_key(unmatched(state), key)) by {
        assert(store.contains_key((state.tenant, key)) <==> lists(
            state.remote,
            upserted(state),
            key,
        ) || holds_key(unmatched(state), key));
    }
    assert forall|key: Seq<char>| lists(state.remote, upserted(state), key) implies !holds_key(
        state.working,
        key,
    ) by {}
    assert forall|key: Seq<char>| lists(state.remote, upserted(state), key) implies store[(
        tenant,
        key,
    )] == state.remote[latest(state.remote, upserted(state), key)] by {
        assert(store[(state.tenant, key)] == state.remote[latest(
            state.remote,
            upserted(state),
            key,
        )]);
    }
    if state.upserting() {
        let record = state.remote[state.at];
        let name = record.key();
        if !state.mirror_due {
            lemma_without(state.working, name);
            assert(after == store.insert((tenant, name), record));
            assert forall|key: Seq<char>| #[trigger]
                after.contains_key((tenant, key)) <==> lists(next.remote, upserted(next), key)
                    || holds_key(unmatched(next), key) by {
                lemma_lists_one_more(state.remote, state.at, key);
                if key != name {
                    assert((tenant, key) != (tenant, name));
                    assert(after.contains_key((tenant, key)) == store.contains_key((tenant, key)));
                    assert(holds_key(next.working, key) <==> holds_key(state.working, key));
                }
            }
            assert forall|key: Seq<char>| #[trigger]
                lists(next.remote, upserted(next), key) implies !holds_key(next.working, key) by {
                lemma_lists_one_more(state.remote, state.at, key);
                if key != name {
                    assert(lists(state.remote, upserted(state), key));
                    assert(holds_key(next.working, key) <==> holds_key(state.working, key));
                }
            }
            assert forall|key: Seq<char>|
                lists(next.remote, upserted(next), key) implies #[trigger] after[(tenant, key)]
                    == next.remote[latest(next.remote, upserted(next), key)] by {
                lemma_lists_one_more(state.remote, state.at, key);
                if key != name {
                    assert((tenant, key) != (tenant, name));
                    assert(lists(state.remote, upserted(state), key));
                    assert(after[(tenant, key)] == store[(tenant, key)]);
                }
            }
        } else {
            assert(after == store);
            assert(upserted(next) == upserted(state));
            assert(unmatched(next) == unmatched(state));
        }
    } else if state.working.len() > 0 {
        let record = state.working[0];
        let name = record.key();
        assert(upserted(next) == upserted(state));
        if !state.mirror_due {
            assert(after == store.remove((tenant, name)));
            assert(holds_key(state.working, name));
            assert forall|key: Seq<char>| #[trigger]
                after.contains_key((tenant, key)) <==> lists(next.remote, upserted(next), key)
                    || holds_key(unmatched(next), key) by {
                lemma_rest_keys(state.working, key);
                if key != name {
                    assert((tenant, key) != (tenant, name));
                    assert(after.contains_key((tenant, key)) == store.contains_key((tenant, key)));
                }
            }
            assert forall|key: Seq<char>|
                lists(next.remote, upserted(next), key) implies #[trigger] after[(tenant, key)]
                    == next.remote[latest(next.remote, upserted(next), key)] by {
                assert((tenant, key) != (tenant, name));
                assert(after[(tenant, key)] == store[(tenant, key)]);
            }
        } else {
            assert(after == store);
            assert(unmatched(next) == unmatched(state));
            assert forall|key: Seq<char>| #[trigger]
                lists(next.remote, upserted(next), key) implies !holds_key(next.working, key) by {
                lemma_rest_keys(state.working, key);
            }
        }
    }
}

proof fn lemma_run_settled(
    state: ConvergerView,
    store: Map<(i32, Seq<char>), NewRepo>,
    answers: Seq<Result<(), String>>,
)
    requires
        state.wf(),
        settled(state, store),
        all_ok(answers),
    ensures
        run(state, store, answers).0.wf(),
        settled(run(state, store, answers).0, run(state, store, answers).1),
        run(state, store, answers).0.remote == state.remote,
        run(state, store, answers).0.tenant == state.tenant,
    decreases answers.len(),
{
    if answers.len() > 0 {
        assert(answers[0] is Ok);
        lemma_step_wf(state, answers[0]);
        lemma_step_settled(state, store, answers[0]);
        assert(all_ok(answers.drop_first())) by {
            assert forall|i: int| 0 <= i < answers.drop_first().len() implies
                (#[trigger] answers.drop_first()[i]) is Ok by {
                assert(answers[i + 1] is Ok);
            }
        }
        lemma_run_settled(
            state.step(answers[0]),
            effect(store, state.action(), answers[0]),
            answers.drop_first(),
        );
    }
}

/// Convergence is complete: a run that starts from the index of what the
/// store holds for a company, and in which every call succeeds, leaves the
/// store holding for that company a repository of every name that GitHub
/// listed, and of no other name; and under each name it holds the
/// repository that GitHub listed, the last one where a name was listed
/// twice.
pub proof fn lemma_convergence_complete(
    tenant: i32,
    listed: Seq<NewRepo>,
    index: Seq<GithubRepo>,
    store: Map<(i32, Seq<char>), NewRepo>,
    answers: Seq<Result<(), String>>,
)
    requires
        key_sorted(index),
        forall|i: int| 0 <= i < index.len() ==> (#[trigger] index[i]).repo.cio_company_id == tenant,
        forall|key: Seq<char>| #[trigger] store.contains_key((tenant, key)) <==>
            holds_key(index, key),
        all_ok(answers),
        run(ConvergerView::start(tenant, listed, index), store, answers).0.finished(),
    ensures
        forall|key: Seq<char>| #[trigger]
            run(ConvergerView::start(tenant, listed, index), store, answers).1.contains_key(
                (tenant, key),
            ) <==> lists(of_company(listed, tenant), of_company(listed, tenant).len() as int, key),
        forall|key: Seq<char>|
            lists(of_company(listed, tenant), of_company(listed, tenant).len() as int, key)
                ==> #[trigger] run(ConvergerView::start(tenant, listed, index), store, answers).1[(
                tenant,
                key,
            )] == of_company(listed, tenant)[latest(
                of_company(listed, tenant),
                of_company(listed, tenant).len() as int,
                key,
            )],
{
    let begin = ConvergerView::start(tenant, listed, index);
    lemma_of_company(listed, tenant);
    assert forall|key: Seq<char>| #[trigger] lists(begin.remote, upserted(begin), key) implies
        false by {}
    lemma_run_settled(begin, store, answers);
}

/// The store keeps one repository for each id that GitHub gave: where no
/// two listed repositories of the company share an id, after a run in which
/// every call succeeded no two repositories that the store holds for the
/// company share one.
pub proof fn lemma_remote_ids_stay_apart(
    tenant: i32,
    listed: Seq<NewRepo>,
    index: Seq<GithubRepo>,
    store: Map<(i32, Seq<char>), NewRepo>,
    answers: Seq<Result<(), String>>,
    one: Seq<char>,
    other: Seq<char>,
)
    requires
        key_sorted(index),
        forall|i: int| 0 <= i < index.len() ==> (#[trigger] index[i]).repo.cio_company_id == tenant,
        forall|key: Seq<char>| #[trigger] store.contains_key((tenant, key)) <==>
            holds_key(index, key),
        all_ok(answers),
        run(ConvergerView::start(tenant, listed, index), store, answers).0.finished(),
        forall|i: int, j: int|
            0 <= i < j < of_company(listed, tenant).len() ==> (#[trigger] of_company(
                listed,
                tenant,
            )[i]).github_id@ != (#[trigger] of_company(listed, tenant)[j]).github_id@,
        run(ConvergerView::start(tenant, listed, index), store, answers).1.contains_key(
            (tenant, one),
        ),
        run(ConvergerView::start(tenant, listed, index), store, answers).1.contains_key(
            (tenant, other),
        ),
        one != other,
    ensures
        run(ConvergerView::start(tenant, listed, index), store, answers).1[(tenant, one)].github_id@
            != run(ConvergerView::start(tenant, listed, index), store, answers).1[(
            tenant,
            other,
        )].github_id@,
{
    let remote = of_company(listed, tenant);
    lemma_convergence_complete(tenant, listed, index, store, answers);
    lemma_latest(remote, remote.len() as int, one);
    lemma_latest(remote, remote.len() as int, other);
    let after = run(ConvergerView::start(tenant, listed, index), store, answers).1;
    assert(after.contains_key((tenant, one)) <==> lists(remote, remote.len() as int, one));
    assert(after.contains_key((tenant, other)) <==> lists(remote, remote.len() as int, other));
    assert(after[(tenant, one)] == remote[latest(remote, remote.len() as int, one)]);
    assert(after[(tenant, other)] == remote[latest(remote, remote.len() as int, other)]);
}

/// The mirror follows the store and never leads it: the mirror is written
/// exactly after the store took a change, a call to the mirror leaves the
/// store as it was whatever its answer, and a failure of the mirror takes
/// nothing back from what the store did.
pub proof fn lemma_mirror_follows_store(
    state: ConvergerView,
    store: Map<(i32, Seq<char>), NewRepo>,
    answer: Result<(), String>,
)
    requires
        state.wf(),
    ensures
        state.step(answer).mirror_due <==> !state.mirror_due && !state.finished() && answer is Ok,
        state.mirror_due ==> effect(store, state.action(), answer) == store,
        state.mirror_due ==> tally(state.step(answer).entries, Operation::Create, true) == tally(
            state.entries,
            Operation::Create,
            true,
        ) && tally(state.step(answer).entries, Operation::Update, true) == tally(
            state.entries,
            Operation::Update,
            true,
        ) && tally(state.step(answer).entries, Operation::Delete, true) == tally(
            state.entries,
            Operation::Delete,
            true,
        ),
{
    if state.mirror_due {
        assert(state.step(answer).entries.drop_last() =~= state.entries);
    }
}

/// What a call makes of the mirror once it is answered: a repository that
/// the mirror took stands under its company and name, one that the mirror
/// gave up stands there no more, and a call that failed or went to the store
/// changes nothing.
pub open spec fn mirror_effect(
    mirror: Map<(i32, Seq<char>), NewRepo>,
    asked: ConvergeActionView,
    answer: Result<(), String>,
) -> Map<(i32, Seq<char>), NewRepo> {
    match (asked, answer) {
        (ConvergeActionView::MirrorUpsert(record), Ok(_)) => mirror.insert(
            (record.cio_company_id, record.key()),
            record,
        ),
        (ConvergeActionView::MirrorDelete(record), Ok(_)) => mirror.remove(
            (record.repo.cio_company_id, record.key()),
        ),
        _ => mirror,
    }
}

/// The mirror after every call has been made and answered as `answers`
/// tells, one after the other.
pub open spec fn run_mirror(
    state: ConvergerView,
    mirror: Map<(i32, Seq<char>), NewRepo>,
    answers: Seq<Result<(), String>>,
) -> Map<(i32, Seq<char>), NewRepo>
    decreases answers.len(),
{
    if answers.len() == 0 {
        mirror
    } else {
        run_mirror(
            state.step(answers[0]),
            mirror_effect(mirror, state.action(), answers[0]),
            answers.drop_first(),
        )
    }
}

/// The store and the mirror say the same of the repository of a company
/// that goes by the name `key`: both hold it, and the same, or neither does.
pub open spec fn agree(
    store: Map<(i32, Seq<char>), NewRepo>,
    mirror: Map<(i32, Seq<char>), NewRepo>,
    tenant: i32,
    key: Seq<char>,
) -> bool {
    &&& store.contains_key((tenant, key)) == mirror.contains_key((tenant, key))
    &&& store.contains_key((tenant, key)) ==> store[(tenant, key)] == mirror[(tenant, key)]
}

/// The name of the repository at hand.
pub open spec fn at_hand(state: ConvergerView) -> Seq<char> {
    if state.upserting() {
        state.remote[state.at].key()
    } else {
        state.working[0].key()
    }
}

/// The mirror lags the store by the change at hand at most: they agree on
/// every other repository of the company, and where the mirror is due the
/// store has taken the change at hand.
pub open spec fn in_step(
    state: ConvergerView,
    store: Map<(i32, Seq<char>), NewRepo>,
    mirror: Map<(i32, Seq<char>), NewRepo>,
) -> bool {
    &&& forall|key: Seq<char>|
        !(state.mirror_due && key == at_hand(state)) ==> #[trigger] agree(
            store,
            mirror,
            state.tenant,
            key,
        )
    &&& state.mirror_due && state.upserting() ==> store.contains_key(
        (state.tenant, at_hand(state)),
    ) && store[(state.tenant, at_hand(state))] == state.remote[state.at]
    &&& state.mirror_due && !state.upserting() ==> !store.contains_key(
        (state.tenant, at_hand(state)),
    )
}

proof fn lemma_step_in_step(
    state: ConvergerView,
    store: Map<(i32, Seq<char>), NewRepo>,
    mirror: Map<(i32, Seq<char>), NewRepo>,
    answer: Result<(), String>,
)
    requires
        state.wf(),
        in_step(state, store, mirror),
        answer is Ok,
    ensures
        in_step(
            state.step(answer),
            effect(store, state.action(), answer),
            mirror_effect(mirror, state.action(), answer),
        ),
{
    let next = state.step(answer);
    let tenant = state.tenant;
    let store_after = effect(store, state.action(), answer);
    let mirror_after = mirror_effect(mirror, state.action(), answer);
    if !state.finished() {
        let name = at_hand(state);
        assert forall|key: Seq<char>|
            !(next.mirror_due && key == at_hand(next)) implies #[trigger] agree(
            store_after,
            mirror_after,
            tenant,
            key,
        ) by {
            if key != name {
                assert((tenant, key) != (tenant, name));
                assert(agree(store, mirror, tenant, key));
            } else if !state.mirror_due {
                assert(agree(store, mirror, tenant, key));
            }
        }
    } else {
        assert forall|key: Seq<char>|
            !(next.mirror_due && key == at_hand(next)) implies #[trigger] agree(
            store_after,
            mirror_after,
            tenant,
            key,
        ) by {
            assert(agree(store, mirror, tenant, key));
        }
    }
}

proof fn lemma_run_in_step(
    state: ConvergerView,
    store: Map<(i32, Seq<char>), NewRepo>,
    mirror: Map<(i32, Seq<char>), NewRepo>,
    answers: Seq<Result<(), String>>,
)
    requires
        state.wf(),
        in_step(state, store, mirror),
        all_ok(answers),
    ensures
        in_step(
            run(state, store, answers).0,
            run(state, store, answers).1,
            run_mirror(state, mirror, answers),
        ),
        run(state, store, answers).0.tenant == state.tenant,
    decreases answers.len(),
{
    if answers.len() > 0 {
        assert(answers[0] is Ok);
        lemma_step_wf(state, answers[0]);
        lemma_step_in_step(state, store, mirror, answers[0]);
        assert(all_ok(answers.drop_first())) by {
            assert forall|i: int| 0 <= i < answers.drop_first().len() implies
                (#[trigger] answers.drop_first()[i]) is Ok by {
                assert(answers[i + 1] is Ok);
            }
        }
        lemma_run_in_step(
            state.step(answers[0]),
            effect(store, state.action(), answers[0]),
            mirror_effect(mirror, state.action(), answers[0]),
            answers.drop_first(),
        );
    }
}

/// The mirror catches up with the store: where they agreed on the
/// repositories of the company before a run, and every call of the run
/// succeeded, they agree again whenever the run stands between two changes,
/// and so when it is over.
pub proof fn lemma_mirror_catches_up(
    state: ConvergerView,
    store: Map<(i32, Seq<char>), NewRepo>,
    mirror: Map<(i32, Seq<char>), NewRepo>,
    answers: Seq<Result<(), String>>,
    key: Seq<char>,
)
    requires
        state.wf(),
        !state.mirror_due,
        forall|any: Seq<char>| #[trigger] agree(store, mirror, state.tenant, any),
        all_ok(answers),
        !run(state, store, answers).0.mirror_due,
    ensures
        agree(
            run(state, store, answers).1,
            run_mirror(state, mirror, answers),
            state.tenant,
            key,
        ),
{
    lemma_run_in_step(state, store, mirror, answers);
}

/// Tenants are isolated: whatever the answers, a run leaves what the store
/// holds for any other company as it was, also under a name that the run's
/// own company uses.
pub proof fn lemma_tenant_isolation(
    state: ConvergerView,
    store: Map<(i32, Seq<char>), NewRepo>,
    answers: Seq<Result<(), String>>,
    other: i32,
    key: Seq<char>,
)
    requires
        state.wf(),
        other != state.tenant,
    ensures
        run(state, store, answers).1.contains_key((other, key)) == store.contains_key((other, key)),
        run(state, store, answers).1[(other, key)] == store[(other, key)],
        state.action().concerns(state.tenant),
    decreases answers.len(),
{
    if answers.len() > 0 {
        lemma_step_wf(state, answers[0]);
        let after = effect(store, state.action(), answers[0]);
        assert(state.action().concerns(state.tenant));
        assert(after.contains_key((other, key)) == store.contains_key((other, key)));
        assert(after[(other, key)] == store[(other, key)]);
        lemma_tenant_isolation(
            state.step(answers[0]),
            after,
            answers.drop_first(),
            other,
            key,
        );
    }
}

/// The number of lines that tell of a listed repository offered to the
/// store, taken or not.
pub open spec fn tries(entries: Seq<ConvergeEntry>) -> nat {
    tally(entries, Operation::Create, true) + tally(entries, Operation::Create, false) + tally(
        entries,
        Operation::Update,
        true,
    ) + tally(entries, Operation::Update, false)
}

/// A failure stays with its repository: when the store refuses a listed
/// repository, the store is left as it was, the record gains the line of
/// the failure and nothing else, and the run goes on with the repository
/// listed next.
pub proof fn lemma_failure_is_isolated(
    state: ConvergerView,
    store: Map<(i32, Seq<char>), NewRepo>,
    error: String,
)
    requires
        state.wf(),
        state.upserting(),
        !state.mirror_due,
    ensures
        effect(store, state.action(), Err(error)) == store,
        state.step(Err(error)).remote == state.remote,
        state.step(Err(error)).at == state.at + 1,
        !state.step(Err(error)).mirror_due,
        state.step(Err(error)).entries == state.entries.push(
            line(
                state.remote[state.at].name,
                if holds_key(state.working, state.remote[state.at].key()) {
                    Operation::Update
                } else {
                    Operation::Create
                },
                Err(error),
            ),
        ),
        state.step(Err(error)).upserting() ==> state.step(Err(error)).action()
            == ConvergeActionView::StoreUpsert(state.remote[state.at + 1]),
{
}

proof fn lemma_tally_one_more(entries: Seq<ConvergeEntry>, entry: ConvergeEntry)
    ensures
        tries(entries.push(entry)) == tries(entries) + if entry.operation is Create
            || entry.operation is Update {
            1nat
        } else {
            0nat
        },
{
    assert(entries.push(entry).drop_last() =~= entries);
}

/// Every listed repository is offered to the store, whatever failed before:
/// over any stretch of a run, the record gains one such line for each
/// repository that the run has got past.
pub proof fn lemma_every_listed_is_tried(
    state: ConvergerView,
    store: Map<(i32, Seq<char>), NewRepo>,
    answers: Seq<Result<(), String>>,
)
    requires
        state.wf(),
    ensures
        tries(run(state, store, answers).0.entries) - tries(state.entries) == upserted(
            run(state, store, answers).0,
        ) - upserted(state),
        run(state, store, answers).0.finished() ==> upserted(run(state, store, answers).0)
            == state.remote.len(),
    decreases answers.len(),
{
    if answers.len() > 0 {
        let next = state.step(answers[0]);
        lemma_step_wf(state, answers[0]);
        if state.upserting() {
            let record = state.remote[state.at];
            if state.mirror_due {
                lemma_tally_one_more(
                    state.entries,
                    line(record.name, Operation::MirrorUpsert, answers[0]),
                );
            } else {
                let operation = if holds_key(state.working, record.key()) {
                    Operation::Update
                } else {
                    Operation::Create
                };
                lemma_tally_one_more(state.entries, line(record.name, operation, answers[0]));
            }
        } else if state.working.len() > 0 {
            let record = state.working[0];
            if state.mirror_due {
                lemma_tally_one_more(
                    state.entries,
                    line(record.repo.name, Operation::MirrorDelete, answers[0]),
                );
            } else {
                lemma_tally_one_more(
                    state.entries,
                    line(record.repo.name, Operation::Delete, answers[0]),
                );
            }
        }
        lemma_every_listed_is_tried(
            next,
            effect(store, state.action(), answers[0]),
            answers.drop_first(),
        );
    }
}

} // verus!
