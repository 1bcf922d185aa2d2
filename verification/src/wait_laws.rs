//! What holds of every wait for agents.

use vstd::prelude::*;

use crate::agents::{AgentStatus, FunctionCallError};
use crate::id_map::{keys_of, lemma_lookup, lemma_lookup_at, lookup, IdMap};
use crate::thread::ThreadId;
use crate::wait_agent::{
    ends_with, handle_wait_agent_status, initial_finals, labelled, labels_of, lemma_labelled,
    named_statuses, wait_for_final_status, wait_timeout, Poll, Subscription,
    WaitAction, WaitAgentStatusResult, WaitEnd, WaitEvent, WaitRun, WaitTarget, WaitTimeouts,
    WaitTurn, WatchEvent,
};

verus! {

/// Whether the agent behind a subscription has come to an end, with `status`.
pub open spec fn ended_with(sub: Subscription, status: AgentStatus) -> bool {
    ||| sub == (Subscription::Watching { status, is_final: true })
    ||| sub is NotFound && status is NotFound
}

/// Whether the agent behind a subscription has come to an end.
pub open spec fn has_ended(sub: Subscription) -> bool {
    ||| sub is Watching && sub->is_final
    ||| sub is NotFound
}

/// Whether `result` tells `status` under `label`, and nothing else under it.
pub open spec fn tells(
    result: WaitAgentStatusResult,
    label: Seq<char>,
    status: AgentStatus,
) -> bool {
    &&& exists|k: int|
        0 <= k < result.status@.len() && (#[trigger] result.status@[k]).0@ == label
            && result.status@[k].1 == status
    &&& forall|k: int|
        0 <= k < result.status@.len() && (#[trigger] result.status@[k]).0@ == label
            ==> result.status@[k].1 == status
}

/// Whether `told` is one of `statuses`, under the label of its agent.
pub open spec fn is_told_of(
    told: (String, AgentStatus),
    statuses: Seq<(ThreadId, AgentStatus)>,
    labels: IdMap<String>,
) -> bool {
    exists|j: int|
        0 <= j < statuses.len() && labels.value((#[trigger] statuses[j]).0)->0@ == told.0@
            && statuses[j].1 == told.1
}

/// Whether `pair` is one of the receivers with the status that it has ended with.
pub open spec fn is_an_end(
    pair: (ThreadId, AgentStatus),
    receivers: Seq<ThreadId>,
    subs: Seq<Subscription>,
) -> bool {
    exists|i: int|
        0 <= i < subs.len() && receivers[i] == pair.0 && ended_with(#[trigger] subs[i], pair.1)
}

/// Whether `told` is the label of a receiver with the status that it has ended with.
pub open spec fn is_told_of_end(
    told: (String, AgentStatus),
    receivers: Seq<ThreadId>,
    subs: Seq<Subscription>,
    labels: IdMap<String>,
) -> bool {
    exists|i: int|
        0 <= i < subs.len() && labels.value(receivers[i])->0@ == told.0@ && ended_with(
            #[trigger] subs[i],
            told.1,
        )
}

/// Whether the pair at `i` is the last of `pairs` with its key.
pub open spec fn last_of_its_key<K, V>(pairs: Seq<(K, V)>, i: int) -> bool {
    &&& 0 <= i < pairs.len()
    &&& forall|j: int| i < j < pairs.len() ==> (#[trigger] pairs[j]).0 != pairs[i].0
}

/// The last pair with a key is what a list of pairs gives for it.
pub proof fn lemma_last_counts<K, V>(pairs: Seq<(K, V)>, i: int)
    requires
        last_of_its_key(pairs, i),
    ensures
        lookup(pairs, pairs[i].0) == Some(pairs[i].1),
    decreases pairs.len(),
{
    if i < pairs.len() - 1 {
        assert(pairs[pairs.len() - 1].0 != pairs[i].0);
        let rest = pairs.drop_last();
        assert(rest[i] == pairs[i]);
        assert forall|j: int| i < j < rest.len() implies (#[trigger] rest[j]).0 != rest[i].0 by {
            assert(rest[j] == pairs[j]);
        }
        lemma_last_counts(rest, i);
    }
}

proof fn lemma_told(result: WaitAgentStatusResult, label: Seq<char>, status: AgentStatus)
    requires
        keys_of(named_statuses(result.status@)).no_duplicates(),
        lookup(named_statuses(result.status@), label) == Some(status),
    ensures
        tells(result, label, status),
{
    let named = named_statuses(result.status@);
    lemma_lookup(named, label);
    let k = named.index_of((label, status));
    assert(named[k] == (result.status@[k].0@, result.status@[k].1));
    assert forall|m: int| 0 <= m < result.status@.len() && (#[trigger] result.status@[m]).0@
        == label implies result.status@[m].1 == status by {
        assert(named[m] == (label, result.status@[m].1));
        lemma_lookup_at(named, m);
    }
}

/// What a wait ends with: each status is announced under the id of its agent and told
/// under its label, where it is the last one of that agent or of that label; nothing else
/// is told; and the time is over if and only if there is no status.
pub proof fn lemma_end_tells(
    end: WaitEnd,
    statuses: Seq<(ThreadId, AgentStatus)>,
    labels: IdMap<String>,
    i: int,
)
    requires
        ends_with(end, statuses, labels),
        forall|k: int|
            0 <= k < statuses.len() ==> labels.value((#[trigger] statuses[k]).0) is Some,
    ensures
        end.result is Ok,
        end.result->Ok_0.timed_out <==> statuses.len() == 0,
        last_of_its_key(statuses, i) ==> end.statuses.value(statuses[i].0) == Some(statuses[i].1),
        0 <= i < statuses.len() && (forall|j: int|
            i < j < statuses.len() ==> labels.value((#[trigger] statuses[j]).0)->0@ != labels.value(
                statuses[i].0,
            )->0@) ==> tells(
            end.result->Ok_0,
            labels.value(statuses[i].0)->0@,
            statuses[i].1,
        ),
        forall|k: int|
            0 <= k < end.result->Ok_0.status@.len() ==> is_told_of(
                #[trigger] end.result->Ok_0.status@[k],
                statuses,
                labels,
            ),
{
    let result = end.result->Ok_0;
    let pairs = labelled(statuses, labels);
    if last_of_its_key(statuses, i) {
        lemma_last_counts(statuses, i);
    }
    if 0 <= i < statuses.len() && (forall|j: int|
        i < j < statuses.len() ==> labels.value((#[trigger] statuses[j]).0)->0@ != labels.value(
            statuses[i].0,
        )->0@) {
        lemma_labelled(statuses, labels, i);
        assert(last_of_its_key(pairs, i)) by {
            assert forall|j: int| i < j < pairs.len() implies (#[trigger] pairs[j]).0
                != pairs[i].0 by {
                lemma_labelled(statuses, labels, j);
                assert(labels.value(statuses[j].0)->0@ != labels.value(statuses[i].0)->0@);
            }
        }
        lemma_last_counts(pairs, i);
        lemma_told(result, pairs[i].0, pairs[i].1);
    }
    assert forall|k: int| 0 <= k < result.status@.len() implies is_told_of(
        #[trigger] result.status@[k],
        statuses,
        labels,
    ) by {
        let named = named_statuses(result.status@);
        assert(named[k] == (result.status@[k].0@, result.status@[k].1));
        lemma_lookup_at(named, k);
        let label = named[k].0;
        assert(lookup(named, label) == lookup(pairs, label));
        lemma_lookup(pairs, label);
        let j = pairs.index_of((label, named[k].1));
        assert(statuses.len() > 0) by {
            if statuses.len() == 0 {
                assert(pairs.len() == 0);
            }
        }
        lemma_labelled(statuses, labels, 0);
        lemma_labelled(statuses, labels, j);
        assert(statuses[j].1 == result.status@[k].1);
    }
}

/// The agents that have come to an end when all are subscribed to: each of them, in
/// order, and no other.
proof fn lemma_initial(receivers: Seq<ThreadId>, subs: Seq<Subscription>)
    requires
        subs.len() <= receivers.len(),
    ensures
        forall|i: int, status: AgentStatus|
            0 <= i < subs.len() && #[trigger] ended_with(subs[i], status) ==> initial_finals(
                receivers,
                subs,
            ).contains((receivers[i], status)),
        forall|k: int|
            0 <= k < initial_finals(receivers, subs).len() ==> is_an_end(
                #[trigger] initial_finals(receivers, subs)[k],
                receivers,
                subs,
            ),
        (exists|i: int| 0 <= i < subs.len() && has_ended(#[trigger] subs[i])) <==> initial_finals(
            receivers,
            subs,
        ).len() > 0,
    decreases subs.len(),
{
    let finals = initial_finals(receivers, subs);
    if subs.len() > 0 {
        let rest = subs.drop_last();
        let before = initial_finals(receivers, rest);
        let n = subs.len() - 1;
        lemma_initial(receivers, rest);
        assert(forall|i: int| 0 <= i < rest.len() ==> rest[i] == #[trigger] subs[i]);
        assert forall|i: int, status: AgentStatus|
            0 <= i < subs.len() && #[trigger] ended_with(subs[i], status) implies finals.contains(
            (receivers[i], status),
        ) by {
            if i < n {
                assert(ended_with(rest[i], status));
                let k = before.index_of((receivers[i], status));
                assert(finals[k] == before[k]);
            } else {
                assert(finals[finals.len() - 1] == (receivers[i], status));
            }
        }
        assert forall|k: int| 0 <= k < finals.len() implies is_an_end(
            #[trigger] finals[k],
            receivers,
            subs,
        ) by {
            if k < before.len() {
                assert(finals[k] == before[k]);
                assert(is_an_end(before[k], receivers, rest));
                let i = choose|i: int|
                    0 <= i < rest.len() && receivers[i] == before[k].0 && ended_with(
                        #[trigger] rest[i],
                        before[k].1,
                    );
                assert(ended_with(subs[i], finals[k].1));
            } else {
                assert(ended_with(subs[n], finals[k].1));
            }
        }
        if exists|i: int| 0 <= i < subs.len() && has_ended(#[trigger] subs[i]) {
            let i = choose|i: int| 0 <= i < subs.len() && has_ended(#[trigger] subs[i]);
            if i < n {
                assert(has_ended(rest[i]));
            }
        }
        if finals.len() > 0 {
            if before.len() > 0 {
                let i = choose|i: int| 0 <= i < rest.len() && has_ended(#[trigger] rest[i]);
                assert(has_ended(subs[i]));
            } else {
                assert(has_ended(subs[n]));
            }
        }
    }
}

/// Once the last agent is subscribed to, the call ends if and only if some agent has come
/// to an end by then. The time is then not over; the status of each such agent is
/// announced and, where no later one has its id or its label, it is the one that is
/// announced and told; and nothing else is told.
pub proof fn lemma_ended_agents_end_the_wait(
    run: WaitRun,
    sub: Subscription,
    turn: WaitTurn,
    i: int,
    status: AgentStatus,
)
    requires
        run.wf(),
        run.subs@.len() + 1 == run.plan.receivers@.len(),
        !(sub is Failed),
        call_ensures(WaitRun::subscribed, (run, sub), turn),
    ensures
        ({
            let subs = run.subs@.push(sub);
            let receivers = run.plan.receivers@;
            let labels = run.plan.labels;
            let result = turn->End_0.result->Ok_0;
            &&& turn is End <==> exists|j: int| 0 <= j < subs.len() && has_ended(#[trigger] subs[j])
            &&& turn is Continue ==> turn->Continue_0.plan == run.plan && turn->Continue_0.subs@
                == subs
            &&& turn is End ==> turn->End_0.result is Ok && !result.timed_out
                && result.status@.len() > 0
            &&& 0 <= i < subs.len() && ended_with(subs[i], status) ==> turn is End
                && turn->End_0.statuses.value(receivers[i]) is Some
            &&& 0 <= i < subs.len() && ended_with(subs[i], status) && (forall|j: int|
                i < j < subs.len() && has_ended(#[trigger] subs[j]) ==> receivers[j]
                    != receivers[i]) ==> turn->End_0.statuses.value(receivers[i]) == Some(status)
            &&& 0 <= i < subs.len() && ended_with(subs[i], status) && (forall|j: int|
                i < j < subs.len() && has_ended(#[trigger] subs[j]) ==> labels.value(
                    receivers[j],
                )->0@ != labels.value(receivers[i])->0@) ==> tells(
                result,
                labels.value(receivers[i])->0@,
                status,
            )
            &&& turn is End ==> forall|k: int|
                0 <= k < result.status@.len() ==> is_told_of_end(
                    #[trigger] result.status@[k],
                    receivers,
                    subs,
                    labels,
                )
        }),
{
    let subs = run.subs@.push(sub);
    let receivers = run.plan.receivers@;
    let labels = run.plan.labels;
    let finals = initial_finals(receivers, subs);
    lemma_initial(receivers, subs);
    if finals.len() > 0 {
        let end = turn->End_0;
        let result = end.result->Ok_0;
        crate::wait_agent::lemma_wait_keeps_to_receivers(receivers, subs);
        assert forall|k: int| 0 <= k < finals.len() implies labels.value(
            (#[trigger] finals[k]).0,
        ) is Some by {
            let m = receivers.index_of(finals[k].0);
            assert(labels.value(receivers[m]) is Some);
        }
        lemma_end_tells(end, finals, labels, 0);
        assert forall|k: int| 0 <= k < result.status@.len() implies is_told_of_end(
            #[trigger] result.status@[k],
            receivers,
            subs,
            labels,
        ) by {
            assert(is_told_of(result.status@[k], finals, labels));
            let m = choose|m: int|
                0 <= m < finals.len() && labels.value((#[trigger] finals[m]).0)->0@
                    == result.status@[k].0@ && finals[m].1 == result.status@[k].1;
            assert(is_an_end(finals[m], receivers, subs));
            let j = choose|j: int|
                0 <= j < subs.len() && receivers[j] == finals[m].0 && ended_with(
                    #[trigger] subs[j],
                    finals[m].1,
                );
            assert(ended_with(subs[j], result.status@[k].1));
        }
        if 0 <= i < subs.len() && ended_with(subs[i], status) {
            assert(finals.contains((receivers[i], status)));
            let k = finals.index_of((receivers[i], status));
            lemma_lookup(finals, receivers[i]);
            assert(keys_of(finals)[k] == receivers[i]);
            if forall|j: int|
                i < j < subs.len() && has_ended(#[trigger] subs[j]) ==> receivers[j]
                    != receivers[i] {
                lemma_value_of_last(receivers, subs, i, status);
            }
            if forall|j: int|
                i < j < subs.len() && has_ended(#[trigger] subs[j]) ==> labels.value(
                    receivers[j],
                )->0@ != labels.value(receivers[i])->0@ {
                lemma_only_pair(receivers, subs, labels, i, status);
                let at = choose|at: int|
                    0 <= at < finals.len() && finals[at] == (receivers[i], status) && (forall|j: int|
                        at < j < finals.len() ==> labels.value((#[trigger] finals[j]).0)->0@
                            != labels.value(finals[at].0)->0@);
                lemma_end_tells(end, finals, labels, at);
            }
        }
    }
}

/// The last ended agent with an id is the one that counts.
proof fn lemma_value_of_last(
    receivers: Seq<ThreadId>,
    subs: Seq<Subscription>,
    i: int,
    status: AgentStatus,
)
    requires
        subs.len() <= receivers.len(),
        0 <= i < subs.len(),
        ended_with(subs[i], status),
        forall|j: int|
            i < j < subs.len() && has_ended(#[trigger] subs[j]) ==> receivers[j] != receivers[i],
    ensures
        lookup(initial_finals(receivers, subs), receivers[i]) == Some(status),
    decreases subs.len(),
{
    let finals = initial_finals(receivers, subs);
    let n = subs.len() - 1;
    if i == n {
        assert(finals.last() == (receivers[i], status));
    } else {
        let rest = subs.drop_last();
        assert(rest[i] == subs[i]);
        assert forall|j: int| i < j < rest.len() && has_ended(#[trigger] rest[j]) implies
            receivers[j] != receivers[i] by {
            assert(has_ended(subs[j]));
        }
        lemma_value_of_last(receivers, rest, i, status);
        if has_ended(subs[n]) {
            assert(finals.drop_last() =~= initial_finals(receivers, rest));
            assert(finals.last().0 == receivers[n]);
        }
    }
}

/// No pair behind that of the last ended agent with a label has that label.
proof fn lemma_only_pair(
    receivers: Seq<ThreadId>,
    subs: Seq<Subscription>,
    labels: IdMap<String>,
    i: int,
    status: AgentStatus,
)
    requires
        subs.len() <= receivers.len(),
        0 <= i < subs.len(),
        ended_with(subs[i], status),
        forall|j: int|
            i < j < subs.len() && has_ended(#[trigger] subs[j]) ==> labels.value(
                receivers[j],
            )->0@ != labels.value(receivers[i])->0@,
    ensures
        exists|at: int|
            0 <= at < initial_finals(receivers, subs).len() && initial_finals(receivers, subs)[at]
                == (receivers[i], status) && (forall|j: int|
                at < j < initial_finals(receivers, subs).len() ==> labels.value(
                    (#[trigger] initial_finals(receivers, subs)[j]).0,
                )->0@ != labels.value(initial_finals(receivers, subs)[at].0)->0@),
    decreases subs.len(),
{
    let finals = initial_finals(receivers, subs);
    let n = subs.len() - 1;
    if i == n {
        let at = finals.len() - 1;
        assert(finals[at] == (receivers[i], status));
    } else {
        let rest = subs.drop_last();
        let before = initial_finals(receivers, rest);
        assert(rest[i] == subs[i]);
        assert forall|j: int| i < j < rest.len() && has_ended(
            #[trigger] rest[j],
        ) implies labels.value(receivers[j])->0@ != labels.value(receivers[i])->0@ by {
            assert(has_ended(subs[j]));
        }
        lemma_only_pair(receivers, rest, labels, i, status);
        let at = choose|at: int|
            0 <= at < before.len() && before[at] == (receivers[i], status) && (forall|j: int|
                at < j < before.len() ==> labels.value((#[trigger] before[j]).0)->0@
                    != labels.value(before[at].0)->0@);
        assert(finals[at] == before[at]);
        assert forall|j: int| at < j < finals.len() implies labels.value(
            (#[trigger] finals[j]).0,
        )->0@ != labels.value(finals[at].0)->0@ by {
            if j < before.len() {
                assert(finals[j] == before[j]);
            } else {
                assert(has_ended(subs[n]));
            }
        }
    }
}

/// A subscription that fails ends the call with its error, and the agent is announced
/// with the status that it had. Before the last agent, any other answer only goes on to
/// the next one.
pub proof fn lemma_subscriptions_come_first(run: WaitRun, sub: Subscription, turn: WaitTurn)
    requires
        run.wf(),
        run.subs@.len() < run.plan.receivers@.len(),
        call_ensures(WaitRun::subscribed, (run, sub), turn),
    ensures
        ({
            let id = run.plan.receivers@[run.subs@.len() as int];
            &&& sub is Failed ==> turn is End && turn->End_0.result == Err::<
                WaitAgentStatusResult,
                FunctionCallError,
            >(sub->error) && turn->End_0.statuses.value(id) == Some(sub->Failed_status)
            &&& sub is Failed ==> forall|other: ThreadId|
                other != id ==> #[trigger] turn->End_0.statuses.value(other) is None
            &&& !(sub is Failed) && run.subs@.len() + 1 < run.plan.receivers@.len() ==> turn
                is Continue && turn->Continue_0.plan == run.plan && turn->Continue_0.subs@.len()
                == run.subs@.len() + 1 && turn->Continue_0.subs@.last() == sub
        }),
{
}

/// Every agent is subscribed to, in order, before a status is waited for; the first
/// status is waited for as long as the call allows, and no further one is.
pub proof fn lemma_what_is_waited_for(run: &WaitRun, action: WaitAction)
    requires
        run.wf(),
        call_ensures(WaitRun::next_action, (run,), action),
    ensures
        action is Subscribe <==> run.subs@.len() < run.plan.receivers@.len(),
        action is Subscribe ==> action->Subscribe_0 == run.plan.receivers@[run.subs@.len() as int],
        action is Watch ==> action->timeout_ms == run.plan.timeout_ms,
        action is Watch && run.gathering.results@.len() == 0 ==> action->poll
            == Poll::UntilDeadline,
        action is Watch && run.gathering.results@.len() > 0 ==> action->poll == Poll::Ready,
{
}

/// A status that comes in is kept behind those that came before, and the wait goes on;
/// it ends when the time is over, with the statuses that have come in. The time counts
/// as over if and only if there are none, and each is told under the label of its agent
/// where no later one has that label.
pub proof fn lemma_statuses_that_come_in(run: WaitRun, event: WaitEvent, turn: WaitTurn, i: int)
    requires
        run.wf(),
        run.subs@.len() == run.plan.receivers@.len(),
        event is Final ==> run.plan.receivers@.contains(event->Final_0),
        call_ensures(WaitRun::waited, (run, event), turn),
    ensures
        ({
            let came = run.gathering.results@;
            let labels = run.plan.labels;
            &&& turn is End <==> event is Over
            &&& turn is Continue ==> turn->Continue_0.plan == run.plan && turn->Continue_0.subs
                == run.subs
            &&& event is Final ==> turn->Continue_0.gathering.results@ == came.push(
                (event->Final_0, event->Final_1),
            )
            &&& event is Nothing ==> turn->Continue_0.gathering.results@ == came
            &&& event is Over ==> turn->End_0.result is Ok
            &&& event is Over ==> (turn->End_0.result->Ok_0.timed_out <==> came.len() == 0)
            &&& event is Over ==> (turn->End_0.result->Ok_0.status@.len() == 0 <==> came.len() == 0)
            &&& event is Over && last_of_its_key(came, i) ==> turn->End_0.statuses.value(came[i].0)
                == Some(came[i].1)
            &&& event is Over && 0 <= i < came.len() && (forall|j: int|
                i < j < came.len() ==> labels.value((#[trigger] came[j]).0)->0@ != labels.value(
                    came[i].0,
                )->0@) ==> tells(
                turn->End_0.result->Ok_0,
                labels.value(came[i].0)->0@,
                came[i].1,
            )
            &&& event is Over ==> forall|k: int|
                0 <= k < turn->End_0.result->Ok_0.status@.len() ==> is_told_of(
                    #[trigger] turn->End_0.result->Ok_0.status@[k],
                    came,
                    labels,
                )
        }),
{
    let came = run.gathering.results@;
    let labels = run.plan.labels;
    if event is Over {
        assert forall|k: int| 0 <= k < came.len() implies labels.value(
            (#[trigger] came[k]).0,
        ) is Some by {
            assert(run.plan.receivers@.contains(came[k].0));
            let m = run.plan.receivers@.index_of(came[k].0);
            assert(labels.value(run.plan.receivers@[m]) is Some);
        }
        lemma_end_tells(turn->End_0, came, labels, i);
    }
}

/// A watch ends when its agent comes to an end or can no longer be watched, with the
/// status that the agent then has, and goes on otherwise.
pub proof fn lemma_a_watch_ends(event: WatchEvent, ended: Option<AgentStatus>)
    requires
        call_ensures(wait_for_final_status, (event,), ended),
    ensures
        event is Closed ==> ended == Some(event->Closed_status),
        event is Changed && event->is_final ==> ended == Some(event->Changed_status),
        event is Changed && !event->is_final ==> ended is None,
{
}

/// The time to wait is the one asked for, or else the default, brought into the bounds;
/// one that is not positive is refused.
pub proof fn lemma_time_to_wait(
    timeout_ms: Option<i64>,
    timeouts: &WaitTimeouts,
    timeout: Result<i64, FunctionCallError>,
)
    requires
        timeouts.min_ms <= timeouts.max_ms,
        call_ensures(wait_timeout, (timeout_ms, timeouts), timeout),
    ensures
        ({
            let asked = if timeout_ms is Some {
                timeout_ms->0
            } else {
                timeouts.default_ms
            };
            &&& timeout is Ok <==> asked > 0
            &&& timeout is Ok ==> timeouts.min_ms <= timeout->Ok_0 <= timeouts.max_ms
            &&& timeout is Ok && timeouts.min_ms <= asked <= timeouts.max_ms ==> timeout->Ok_0
                == asked
            &&& timeout is Ok && asked < timeouts.min_ms ==> timeout->Ok_0 == timeouts.min_ms
            &&& timeout is Ok && asked > timeouts.max_ms ==> timeout->Ok_0 == timeouts.max_ms
            &&& timeout is Err ==> timeout->Err_0 is RespondToModel
                && timeout->Err_0->RespondToModel_0@ == "timeout_ms must be greater than zero"@
        }),
{
}

/// A wait begins if and only if there are targets, all of them are found and the time is
/// positive. It is for the threads of the targets, in order; each agent is announced by
/// its nickname and role; each is told under the label of its target, where no later
/// target is the same thread; and nothing has come in yet.
pub proof fn lemma_what_a_wait_is_for(
    targets: Vec<Result<WaitTarget, FunctionCallError>>,
    timeout_ms: Option<i64>,
    timeouts: &WaitTimeouts,
    begun: Result<WaitRun, FunctionCallError>,
    i: int,
)
    requires
        timeouts.min_ms <= timeouts.max_ms,
        call_ensures(handle_wait_agent_status, (targets, timeout_ms, timeouts), begun),
    ensures
        begun is Ok <==> targets@.len() > 0 && (forall|k: int|
            0 <= k < targets@.len() ==> (#[trigger] targets@[k]) is Ok) && (timeout_ms is Some ==>
            timeout_ms->0 > 0) && (timeout_ms is None ==> timeouts.default_ms > 0),
        begun is Ok ==> begun->Ok_0.subs@.len() == 0 && begun->Ok_0.gathering.results@.len() == 0,
        begun is Ok ==> begun->Ok_0.plan.receivers@.len() == targets@.len()
            && begun->Ok_0.plan.agents@.len() == targets@.len(),
        begun is Ok && 0 <= i < targets@.len() ==> ({
            let target = targets@[i]->Ok_0;
            let plan = begun->Ok_0.plan;
            &&& plan.receivers@[i] == target.target.thread_id
            &&& plan.agents@[i].thread_id == target.target.thread_id
            &&& target.metadata is Some ==> plan.agents@[i].agent_nickname
                == target.metadata->0.agent_nickname && plan.agents@[i].agent_role
                == target.metadata->0.agent_role
            &&& target.metadata is None ==> plan.agents@[i].agent_nickname is None
                && plan.agents@[i].agent_role is None
            &&& (forall|j: int|
                i < j < targets@.len() ==> (#[trigger] targets@[j])->Ok_0.target.thread_id
                    != target.target.thread_id) ==> plan.labels.value(target.target.thread_id)
                == Some(target.target.label)
        }),
        begun is Ok ==> ({
            let asked = if timeout_ms is Some {
                timeout_ms->0
            } else {
                timeouts.default_ms
            };
            let ms = begun->Ok_0.plan.timeout_ms;
            &&& timeouts.min_ms <= ms <= timeouts.max_ms
            &&& timeouts.min_ms <= asked <= timeouts.max_ms ==> ms == asked
            &&& asked < timeouts.min_ms ==> ms == timeouts.min_ms
            &&& asked > timeouts.max_ms ==> ms == timeouts.max_ms
        }),
        0 <= i < targets@.len() && targets@[i] is Err && (forall|k: int|
            0 <= k < i ==> (#[trigger] targets@[k]) is Ok) ==> begun == Err::<
            WaitRun,
            FunctionCallError,
        >(targets@[i]->Err_0),
        targets@.len() == 0 ==> begun->Err_0 is RespondToModel
            && begun->Err_0->RespondToModel_0@ == "agent ids must be non-empty"@,
        begun is Err && targets@.len() > 0 && (forall|k: int|
            0 <= k < targets@.len() ==> (#[trigger] targets@[k]) is Ok) ==> begun->Err_0
            is RespondToModel && begun->Err_0->RespondToModel_0@
            == "timeout_ms must be greater than zero"@,
{
    let pairs = labels_of(targets@);
    if begun is Ok && 0 <= i < targets@.len() {
        assert(targets@[i] is Ok);
        assert(keys_of(pairs)[i] == pairs[i].0);
        assert(crate::wait_agent::refers_to(begun->Ok_0.plan.agents@[i], targets@[i]->Ok_0));
        if forall|j: int|
            i < j < targets@.len() ==> (#[trigger] targets@[j])->Ok_0.target.thread_id
                != targets@[i]->Ok_0.target.thread_id {
            assert(last_of_its_key(pairs, i)) by {
                assert forall|j: int| i < j < pairs.len() implies (#[trigger] pairs[j]).0
                    != pairs[i].0 by {
                    assert(pairs[j].0 == targets@[j]->Ok_0.target.thread_id);
                }
            }
            lemma_last_counts(pairs, i);
        }
    }
    if 0 <= i < targets@.len() && targets@[i] is Err && (forall|k: int|
        0 <= k < i ==> (#[trigger] targets@[k]) is Ok) {
        assert(!crate::wait_agent::all_resolved(targets@));
        let at = choose|at: int|
            0 <= at < targets@.len() && crate::wait_agent::all_resolved(targets@.take(at))
                && #[trigger] targets@[at] == Err::<WaitTarget, FunctionCallError>(begun->Err_0);
        if at > i {
            assert(targets@.take(at)[i] is Ok);
        }
    }
}

} // verus!
