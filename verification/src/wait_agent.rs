//! Waiting until one of several agents has come to an end.

use vstd::prelude::*;

use crate::agents::{AgentMetadata, AgentStatus, AgentTarget, FunctionCallError};
use crate::id_map::{keys_of, lemma_lookup, lemma_lookup_update, lookup, IdMap};
use crate::text::same_text;
use crate::thread::ThreadId;

verus! {

/// The bounds of a wait, in milliseconds.
#[derive(Debug, Clone, Copy, PartialEq, Eq, Structural)]
pub struct WaitTimeouts {
    pub default_ms: i64,
    pub min_ms: i64,
    pub max_ms: i64,
}

/// An agent that is waited for.
#[derive(Debug, PartialEq, Eq)]
pub struct AgentRef {
    pub thread_id: ThreadId,
    pub agent_nickname: Option<String>,
    pub agent_role: Option<String>,
}

/// A wait that can begin.
#[derive(Debug, PartialEq, Eq)]
pub struct WaitPlan {
    pub timeout_ms: i64,
    pub receivers: Vec<ThreadId>,
    pub agents: Vec<AgentRef>,
    pub labels: IdMap<String>,
}

/// A target with what is known of the agent.
#[derive(Debug, PartialEq, Eq)]
pub struct WaitTarget {
    pub target: AgentTarget,
    pub metadata: Option<AgentMetadata>,
}

/// `ms` brought into the bounds.
pub open spec fn clamped(ms: i64, timeouts: WaitTimeouts) -> i64 {
    if ms < timeouts.min_ms {
        timeouts.min_ms
    } else if ms > timeouts.max_ms {
        timeouts.max_ms
    } else {
        ms
    }
}

/// The time to wait where none is asked for, or where `timeout_ms` is.
pub open spec fn requested(timeout_ms: Option<i64>, timeouts: WaitTimeouts) -> i64 {
    match timeout_ms {
        Some(ms) => ms,
        None => timeouts.default_ms,
    }
}

/// How long to wait.
pub fn wait_timeout(timeout_ms: Option<i64>, timeouts: &WaitTimeouts) -> (timeout: Result<
    i64,
    FunctionCallError,
>)
    requires
        timeouts.min_ms <= timeouts.max_ms,
    ensures
        match timeout {
            Ok(ms) => requested(timeout_ms, *timeouts) > 0 && ms == clamped(
                requested(timeout_ms, *timeouts),
                *timeouts,
            ) && timeouts.min_ms <= ms <= timeouts.max_ms,
            Err(err) => requested(timeout_ms, *timeouts) <= 0 && err is RespondToModel
                && err->RespondToModel_0@ == "timeout_ms must be greater than zero"@,
        },
{
    let ms: i64 = match timeout_ms {
        Some(ms) => ms,
        None => timeouts.default_ms,
    };
    if ms <= 0 {
        Err(
            FunctionCallError::RespondToModel(
                "timeout_ms must be greater than zero".to_string(),
            ),
        )
    } else if ms < timeouts.min_ms {
        Ok(timeouts.min_ms)
    } else if ms > timeouts.max_ms {
        Ok(timeouts.max_ms)
    } else {
        Ok(ms)
    }
}

/// Whether no target failed to resolve.
pub open spec fn all_resolved(targets: Seq<Result<WaitTarget, FunctionCallError>>) -> bool {
    forall|i: int| 0 <= i < targets.len() ==> (#[trigger] targets[i]) is Ok
}

/// The ids and labels of `targets`.
pub open spec fn labels_of(targets: Seq<Result<WaitTarget, FunctionCallError>>) -> Seq<
    (ThreadId, String),
> {
    targets.map_values(
        |t: Result<WaitTarget, FunctionCallError>|
            (t->Ok_0.target.thread_id, t->Ok_0.target.label),
    )
}

/// Whether `agent` is the agent of `target`.
pub open spec fn refers_to(agent: AgentRef, target: WaitTarget) -> bool {
    &&& agent.thread_id == target.target.thread_id
    &&& match target.metadata {
        Some(metadata) => agent.agent_nickname == metadata.agent_nickname && agent.agent_role
            == metadata.agent_role,
        None => agent.agent_nickname is None && agent.agent_role is None,
    }
}

/// Plans the wait for `targets`, which have been resolved up to the first
/// failure. Where two targets are one agent, the later label counts.
pub fn plan_wait(
    targets: Vec<Result<WaitTarget, FunctionCallError>>,
    timeout_ms: Option<i64>,
    timeouts: &WaitTimeouts,
) -> (plan: Result<WaitPlan, FunctionCallError>)
    requires
        timeouts.min_ms <= timeouts.max_ms,
    ensures
        match plan {
            Ok(plan) => {
                &&& targets@.len() > 0
                &&& all_resolved(targets@)
                &&& requested(timeout_ms, *timeouts) > 0
                &&& plan.timeout_ms == clamped(requested(timeout_ms, *timeouts), *timeouts)
                &&& plan.receivers@ == keys_of(labels_of(targets@))
                &&& plan.agents@.len() == targets@.len()
                &&& forall|i: int|
                    0 <= i < targets@.len() ==> refers_to(
                        #[trigger] plan.agents@[i],
                        targets@[i]->Ok_0,
                    )
                &&& plan.labels.wf()
                &&& forall|id: ThreadId| #[trigger]
                    plan.labels.value(id) == lookup(labels_of(targets@), id)
            },
            Err(err) => if targets@.len() == 0 {
                err is RespondToModel && err->RespondToModel_0@ == "agent ids must be non-empty"@
            } else if !all_resolved(targets@) {
                exists|i: int|
                    0 <= i < targets@.len() && all_resolved(targets@.take(i)) && #[trigger]
                        targets@[i] == Err::<WaitTarget, FunctionCallError>(err)
            } else {
                requested(timeout_ms, *timeouts) <= 0 && err is RespondToModel
                    && err->RespondToModel_0@ == "timeout_ms must be greater than zero"@
            },
        },
        plan is Ok == (targets@.len() > 0 && all_resolved(targets@) && requested(
            timeout_ms,
            *timeouts,
        ) > 0),
{
    if targets.len() == 0 {
        return Err(FunctionCallError::RespondToModel("agent ids must be non-empty".to_string()));
    }
    let ghost pairs = labels_of(targets@);
    let mut receivers: Vec<ThreadId> = Vec::new();
    let mut agents: Vec<AgentRef> = Vec::new();
    let mut labels: IdMap<String> = IdMap::new();
    for item in it: targets
        invariant
            it.seq() == targets@,
            targets@.len() > 0,
            pairs == labels_of(targets@),
            forall|k: int| 0 <= k < it.index() ==> (#[trigger] targets@[k]) is Ok,
            receivers@ == keys_of(pairs.take(it.index())),
            agents@.len() == it.index(),
            forall|k: int|
                0 <= k < it.index() ==> refers_to(#[trigger] agents@[k], targets@[k]->Ok_0),
            labels.wf(),
            forall|id: ThreadId| #[trigger]
                labels.value(id) == lookup(pairs.take(it.index()), id),
    {
        let ghost n = it.index();
        let wait_target = match item {
            Ok(wait_target) => wait_target,
            Err(err) => {
                proof {
                    assert(targets@[n] == Err::<WaitTarget, FunctionCallError>(err));
                    assert(all_resolved(targets@.take(n)));
                }
                return Err(err);
            },
        };
        proof {
            assert(pairs.take(n + 1) =~= pairs.take(n).push(pairs[n]));
            assert(keys_of(pairs.take(n + 1)) =~= keys_of(pairs.take(n)).push(pairs[n].0));
            assert(pairs.take(n + 1).drop_last() =~= pairs.take(n));
        }
        let thread_id = wait_target.target.thread_id;
        receivers.push(thread_id);
        agents.push(
            match wait_target.metadata {
                Some(metadata) => AgentRef {
                    thread_id,
                    agent_nickname: metadata.agent_nickname,
                    agent_role: metadata.agent_role,
                },
                None => AgentRef { thread_id, agent_nickname: None, agent_role: None },
            },
        );
        labels.insert(thread_id, wait_target.target.label);
    }
    proof {
        assert(pairs.take(targets@.len() as int) =~= pairs);
    }
    match wait_timeout(timeout_ms, timeouts) {
        Ok(timeout_ms) => Ok(WaitPlan { timeout_ms, receivers, agents, labels }),
        Err(err) => Err(err),
    }
}

/// What subscribing to the status of an agent gave.
#[derive(Debug, PartialEq, Eq)]
pub enum Subscription {
    /// The status is watched; `is_final` tells whether the agent has come to an
    /// end.
    Watching { status: AgentStatus, is_final: bool },
    /// There is no such agent.
    NotFound,
    /// The status cannot be watched; `status` is what it was then.
    Failed { error: FunctionCallError, status: AgentStatus },
}

/// The agents that have come to an end already, with how they did.
pub open spec fn initial_finals(receivers: Seq<ThreadId>, subs: Seq<Subscription>) -> Seq<
    (ThreadId, AgentStatus),
>
    decreases subs.len(),
{
    if subs.len() == 0 {
        Seq::empty()
    } else {
        let before = initial_finals(receivers, subs.drop_last());
        let id = receivers[subs.len() - 1];
        match subs.last() {
            Subscription::Watching { status, is_final } => if is_final {
                before.push((id, status))
            } else {
                before
            },
            Subscription::NotFound => before.push((id, AgentStatus::NotFound)),
            Subscription::Failed { .. } => before,
        }
    }
}

/// Whether no subscription failed.
pub open spec fn none_failed(subs: Seq<Subscription>) -> bool {
    forall|i: int| 0 <= i < subs.len() ==> !((#[trigger] subs[i]) is Failed)
}

/// The agents that have come to an end already, with how they did.
fn initial_statuses(receivers: &Vec<ThreadId>, subs: &Vec<Subscription>) -> (finals: Vec<
    (ThreadId, AgentStatus),
>)
    requires
        subs@.len() <= receivers@.len(),
    ensures
        finals@ == initial_finals(receivers@, subs@),
{
    let mut finals: Vec<(ThreadId, AgentStatus)> = Vec::new();
    let mut i: usize = 0;
    proof {
        assert(subs@.take(0) =~= Seq::empty());
    }
    while i < subs.len()
        invariant
            i <= subs@.len() <= receivers@.len(),
            finals@ == initial_finals(receivers@, subs@.take(i as int)),
        decreases subs@.len() - i,
    {
        proof {
            assert(subs@.take(i + 1).drop_last() =~= subs@.take(i as int));
            assert(subs@.take(i + 1).last() == subs@[i as int]);
        }
        match &subs[i] {
            Subscription::Watching { status, is_final } => {
                if *is_final {
                    finals.push((receivers[i], status.clone()));
                }
            },
            Subscription::NotFound => {
                finals.push((receivers[i], AgentStatus::NotFound));
            },
            Subscription::Failed { .. } => {},
        }
        i += 1;
    }
    proof {
        assert(subs@.take(i as int) =~= subs@);
    }
    finals
}

/// How the next status is waited for.
#[derive(Debug, Clone, Copy, PartialEq, Eq, Structural)]
pub enum Poll {
    /// Until the wait is over.
    UntilDeadline,
    /// Only where it is there already.
    Ready,
}

/// What came of waiting for a status.
#[derive(Debug, PartialEq, Eq)]
pub enum WaitEvent {
    /// An agent came to an end.
    Final(ThreadId, AgentStatus),
    /// A watch ended without a status.
    Nothing,
    /// The time is over, no watch is left, or no status is there yet.
    Over,
}

/// The statuses that have come in.
#[derive(Debug, PartialEq, Eq)]
pub struct Gathering {
    pub results: Vec<(ThreadId, AgentStatus)>,
}

/// What follows from a status.
#[derive(Debug, PartialEq, Eq)]
pub enum GatherStep {
    /// The wait goes on.
    Continue(Gathering),
    /// The wait is over.
    Finished(Vec<(ThreadId, AgentStatus)>),
}

/// The statuses among `events` that come before the wait is over.
pub open spec fn gathered(events: Seq<WaitEvent>) -> Seq<(ThreadId, AgentStatus)>
    decreases events.len(),
{
    if events.len() == 0 {
        Seq::empty()
    } else {
        match events[0] {
            WaitEvent::Final(id, status) => seq![(id, status)] + gathered(events.drop_first()),
            WaitEvent::Nothing => gathered(events.drop_first()),
            WaitEvent::Over => Seq::empty(),
        }
    }
}

/// What `step` makes of the statuses that have come in; `None` where the wait is
/// over.
pub open spec fn gather_next(
    results: Seq<(ThreadId, AgentStatus)>,
    event: WaitEvent,
) -> Option<Seq<(ThreadId, AgentStatus)>> {
    match event {
        WaitEvent::Final(id, status) => Some(results.push((id, status))),
        WaitEvent::Nothing => Some(results),
        WaitEvent::Over => None,
    }
}

/// What has come in when the wait is over, where it goes on from `results` with
/// `events`.
pub open spec fn gather_run(
    results: Seq<(ThreadId, AgentStatus)>,
    events: Seq<WaitEvent>,
) -> Seq<(ThreadId, AgentStatus)>
    decreases events.len(),
{
    if events.len() == 0 {
        results
    } else {
        match gather_next(results, events[0]) {
            Some(more) => gather_run(more, events.drop_first()),
            None => results,
        }
    }
}

/// A wait ends with every status that came in before it was over, in the order in
/// which they came.
pub proof fn lemma_gather_run(results: Seq<(ThreadId, AgentStatus)>, events: Seq<WaitEvent>)
    ensures
        gather_run(results, events) == results + gathered(events),
    decreases events.len(),
{
    if events.len() > 0 {
        match gather_next(results, events[0]) {
            Some(more) => {
                lemma_gather_run(more, events.drop_first());
                assert(gather_run(results, events) =~= results + gathered(events));
            },
            None => {
                assert(results =~= results + gathered(events));
            },
        }
    } else {
        assert(results =~= results + gathered(events));
    }
}

impl Gathering {
    pub fn new() -> (gathering: Self)
        ensures
            gathering.results@.len() == 0,
    {
        Gathering { results: Vec::new() }
    }

    /// How to wait for the next status: until the deadline for the first one, and
    /// not at all for others.
    pub fn next_poll(&self) -> (poll: Poll)
        ensures
            poll == if self.results@.len() == 0 {
                Poll::UntilDeadline
            } else {
                Poll::Ready
            },
    {
        if self.results.len() == 0 {
            Poll::UntilDeadline
        } else {
            Poll::Ready
        }
    }

    /// Takes in what came of waiting.
    pub fn step(self, event: WaitEvent) -> (step: GatherStep)
        ensures
            match gather_next(self.results@, event) {
                Some(results) => step is Continue && step->Continue_0.results@ == results,
                None => step == GatherStep::Finished(self.results),
            },
    {
        match event {
            WaitEvent::Final(id, status) => {
                let mut results = self.results;
                results.push((id, status));
                GatherStep::Continue(Gathering { results })
            },
            WaitEvent::Nothing => GatherStep::Continue(self),
            WaitEvent::Over => GatherStep::Finished(self.results),
        }
    }
}

/// What a status is worth to the watch that reports it.
#[derive(Debug, PartialEq, Eq)]
pub enum WatchEvent {
    /// The status has changed.
    Changed { status: AgentStatus, is_final: bool },
    /// The status can no longer change; `status` is what it is.
    Closed { status: AgentStatus },
}

/// The status that ends a watch, if `event` ends it.
pub fn wait_for_final_status(event: WatchEvent) -> (ended: Option<AgentStatus>)
    ensures
        ended == match event {
            WatchEvent::Changed { status, is_final } => if is_final {
                Some(status)
            } else {
                None
            },
            WatchEvent::Closed { status } => Some(status),
        },
{
    match event {
        WatchEvent::Changed { status, is_final } => if is_final {
            Some(status)
        } else {
            None
        },
        WatchEvent::Closed { status } => Some(status),
    }
}

/// What the tool tells.
#[derive(Debug, PartialEq, Eq)]
pub struct WaitAgentStatusResult {
    pub status: Vec<(String, AgentStatus)>,
    pub timed_out: bool,
}

/// What a wait came to.
#[derive(Debug, PartialEq, Eq)]
pub struct WaitOutcome {
    pub result: WaitAgentStatusResult,
    pub statuses: IdMap<AgentStatus>,
}

/// The labels with their statuses, as contents.
pub open spec fn named_statuses(status: Seq<(String, AgentStatus)>) -> Seq<
    (Seq<char>, AgentStatus),
> {
    status.map_values(|pair: (String, AgentStatus)| (pair.0@, pair.1))
}

/// `statuses` with the label of each agent in place of its id; an agent without
/// a label is left out.
pub open spec fn labelled(
    statuses: Seq<(ThreadId, AgentStatus)>,
    labels: IdMap<String>,
) -> Seq<(Seq<char>, AgentStatus)>
    decreases statuses.len(),
{
    if statuses.len() == 0 {
        Seq::empty()
    } else {
        let before = labelled(statuses.drop_last(), labels);
        match labels.value(statuses.last().0) {
            Some(label) => before.push((label@, statuses.last().1)),
            None => before,
        }
    }
}

/// Sets the status under `label`.
fn set_label(status: &mut Vec<(String, AgentStatus)>, label: &String, value: AgentStatus)
    requires
        keys_of(named_statuses(old(status)@)).no_duplicates(),
    ensures
        keys_of(named_statuses(final(status)@)).no_duplicates(),
        forall|other: Seq<char>| #[trigger]
            lookup(named_statuses(final(status)@), other) == if other == label@ {
                Some(value)
            } else {
                lookup(named_statuses(old(status)@), other)
            },
{
    let ghost before = named_statuses(status@);
    let mut i: usize = 0;
    while i < status.len()
        invariant
            i <= status@.len(),
            before == named_statuses(status@),
            before == named_statuses(old(status)@),
            keys_of(before).no_duplicates(),
            forall|k: int| 0 <= k < i ==> keys_of(before)[k] != label@,
        decreases status@.len() - i,
    {
        if same_text(status[i].0.as_str(), label.as_str()) {
            let name = label.clone();
            status.set(i, (name, value));
            proof {
                let after = named_statuses(status@);
                assert(after =~= before.update(i as int, (before[i as int].0, value)));
                lemma_lookup_update(before, i as int, value, label@);
                assert forall|other: Seq<char>| #[trigger] lookup(after, other) == if other
                    == label@ {
                    Some(value)
                } else {
                    lookup(before, other)
                } by {
                    lemma_lookup_update(before, i as int, value, other);
                }
            }
            return ;
        }
        i += 1;
    }
    let name = label.clone();
    status.push((name, value));
    proof {
        let after = named_statuses(status@);
        assert(after =~= before.push((label@, value)));
        assert(after.drop_last() =~= before);
        assert(keys_of(after) =~= keys_of(before).push(label@));
    }
}

/// What the wait came to, given the statuses that it ended with.
pub fn finish_wait(labels: &IdMap<String>, statuses: Vec<(ThreadId, AgentStatus)>) -> (outcome:
    WaitOutcome)
    requires
        labels.wf(),
    ensures
        outcome.result.timed_out == (statuses@.len() == 0),
        keys_of(named_statuses(outcome.result.status@)).no_duplicates(),
        forall|label: Seq<char>| #[trigger]
            lookup(named_statuses(outcome.result.status@), label) == lookup(
                labelled(statuses@, *labels),
                label,
            ),
        outcome.statuses.wf(),
        forall|id: ThreadId| #[trigger] outcome.statuses.value(id) == lookup(statuses@, id),
{
    let timed_out = statuses.len() == 0;
    let mut status: Vec<(String, AgentStatus)> = Vec::new();
    let mut by_id: IdMap<AgentStatus> = IdMap::new();
    proof {
        assert(statuses@.take(0) =~= Seq::empty());
        assert(named_statuses(status@) =~= Seq::empty());
        assert(keys_of(named_statuses(status@)) =~= Seq::empty());
    }
    for item in it: statuses
        invariant
            it.seq() == statuses@,
            labels.wf(),
            keys_of(named_statuses(status@)).no_duplicates(),
            forall|label: Seq<char>| #[trigger]
                lookup(named_statuses(status@), label) == lookup(
                    labelled(statuses@.take(it.index()), *labels),
                    label,
                ),
            by_id.wf(),
            forall|id: ThreadId| #[trigger]
                by_id.value(id) == lookup(statuses@.take(it.index()), id),
    {
        let ghost n = it.index();
        proof {
            assert(statuses@.take(n + 1).drop_last() =~= statuses@.take(n));
            assert(statuses@.take(n + 1).last() == item);
        }
        let (id, value) = item;
        by_id.insert(id, value.clone());
        match labels.get(id) {
            Some(label) => {
                set_label(&mut status, label, value);
                proof {
                    let old_labelled = labelled(statuses@.take(n), *labels);
                    let new_labelled = labelled(statuses@.take(n + 1), *labels);
                    assert(new_labelled == old_labelled.push((label@, value)));
                    assert(new_labelled.drop_last() =~= old_labelled);
                }
            },
            None => {},
        }
    }
    proof {
        assert(statuses@.take(statuses@.len() as int) =~= statuses@);
    }
    WaitOutcome { result: WaitAgentStatusResult { status, timed_out }, statuses: by_id }
}

/// Where each agent has a label, each status is told under the label of its agent.
pub proof fn lemma_labelled(
    statuses: Seq<(ThreadId, AgentStatus)>,
    labels: IdMap<String>,
    i: int,
)
    requires
        forall|k: int|
            0 <= k < statuses.len() ==> labels.value((#[trigger] statuses[k]).0) is Some,
        0 <= i < statuses.len(),
    ensures
        labelled(statuses, labels).len() == statuses.len(),
        labelled(statuses, labels)[i] == (labels.value(statuses[i].0)->0@, statuses[i].1),
    decreases statuses.len(),
{
    let rest = statuses.drop_last();
    assert forall|k: int| 0 <= k < rest.len() implies labels.value(
        (#[trigger] rest[k]).0,
    ) is Some by {
        assert(rest[k] == statuses[k]);
    }
    assert(labels.value(statuses[statuses.len() - 1].0) is Some);
    if rest.len() > 0 {
        lemma_labelled(
            rest,
            labels,
            if i < rest.len() {
                i
            } else {
                0
            },
        );
    } else {
        assert(labelled(rest, labels).len() == 0);
    }
}

/// Every agent that has come to an end when the wait begins is one of the
/// receivers.
pub proof fn lemma_wait_keeps_to_receivers(receivers: Seq<ThreadId>, subs: Seq<Subscription>)
    requires
        subs.len() <= receivers.len(),
    ensures
        forall|k: int|
            0 <= k < initial_finals(receivers, subs).len() ==> receivers.contains(
                (#[trigger] initial_finals(receivers, subs)[k]).0,
            ),
    decreases subs.len(),
{
    if subs.len() > 0 {
        let rest = subs.drop_last();
        lemma_wait_keeps_to_receivers(receivers, rest);
        assert(receivers.contains(receivers[subs.len() - 1]));
        let finals = initial_finals(receivers, subs);
        assert forall|k: int| 0 <= k < finals.len() implies receivers.contains(
            (#[trigger] finals[k]).0,
        ) by {
            if k < initial_finals(receivers, rest).len() {
                assert(finals[k] == initial_finals(receivers, rest)[k]);
            }
        }
    }
}

/// Whether all `statuses` are those of receivers.
pub open spec fn of_receivers(
    statuses: Seq<(ThreadId, AgentStatus)>,
    receivers: Seq<ThreadId>,
) -> bool {
    forall|k: int| 0 <= k < statuses.len() ==> receivers.contains((#[trigger] statuses[k]).0)
}

/// Whether `event` concerns a receiver, where it concerns an agent.
pub open spec fn of_receiver(event: WaitEvent, receivers: Seq<ThreadId>) -> bool {
    match event {
        WaitEvent::Final(id, _) => receivers.contains(id),
        _ => true,
    }
}

/// A call that waits for agents, from when it was announced on.
#[derive(Debug, PartialEq, Eq)]
pub struct WaitRun {
    pub plan: WaitPlan,
    /// The subscriptions that have been answered.
    pub subs: Vec<Subscription>,
    pub gathering: Gathering,
}

/// What the call does next.
#[derive(Debug, PartialEq, Eq)]
pub enum WaitAction {
    /// It subscribes to the status of an agent.
    Subscribe(ThreadId),
    /// It waits for a status.
    Watch { poll: Poll, timeout_ms: i64 },
}

/// How the call ends: what is announced of the agents, and what is returned.
#[derive(Debug, PartialEq, Eq)]
pub struct WaitEnd {
    pub statuses: IdMap<AgentStatus>,
    pub result: Result<WaitAgentStatusResult, FunctionCallError>,
}

/// Where the call stands after an answer.
#[derive(Debug, PartialEq, Eq)]
pub enum WaitTurn {
    Continue(WaitRun),
    End(WaitEnd),
}

impl WaitRun {
    /// Whether the answers that have come in lead to where the call stands: none
    /// of them was a failure, and statuses came in only once all agents were
    /// subscribed to and none had come to an end, and only those of receivers.
    pub open spec fn wf(&self) -> bool {
        &&& self.plan.labels.wf()
        &&& self.plan.receivers@.len() > 0
        &&& forall|i: int|
            0 <= i < self.plan.receivers@.len() ==> self.plan.labels.value(
                #[trigger] self.plan.receivers@[i],
            ) is Some
        &&& self.subs@.len() <= self.plan.receivers@.len()
        &&& none_failed(self.subs@)
        &&& self.subs@.len() < self.plan.receivers@.len() ==> self.gathering.results@.len() == 0
        &&& self.subs@.len() == self.plan.receivers@.len() ==> initial_finals(
            self.plan.receivers@,
            self.subs@,
        ).len() == 0
        &&& of_receivers(self.gathering.results@, self.plan.receivers@)
    }
}

/// The status of each agent that has come to an end when the wait begins is
/// returned under the label of that agent.
pub proof fn lemma_initial_finals_are_labelled(run: WaitRun, subs: Seq<Subscription>, i: int)
    requires
        run.wf(),
        subs.len() <= run.plan.receivers@.len(),
        0 <= i < initial_finals(run.plan.receivers@, subs).len(),
    ensures
        ({
            let finals = initial_finals(run.plan.receivers@, subs);
            &&& run.plan.labels.value(finals[i].0) is Some
            &&& labelled(finals, run.plan.labels).len() == finals.len()
            &&& labelled(finals, run.plan.labels)[i] == (
                run.plan.labels.value(finals[i].0)->0@,
                finals[i].1,
            )
        }),
{
    let receivers = run.plan.receivers@;
    let finals = initial_finals(receivers, subs);
    lemma_wait_keeps_to_receivers(receivers, subs);
    assert forall|k: int| 0 <= k < finals.len() implies run.plan.labels.value(
        (#[trigger] finals[k]).0,
    ) is Some by {
        assert(receivers.contains(finals[k].0));
        let m = receivers.index_of(finals[k].0);
        assert(run.plan.labels.value(receivers[m]) is Some);
    }
    lemma_labelled(finals, run.plan.labels, i);
}

/// Whether `end` tells and returns `statuses`.
pub open spec fn ends_with(
    end: WaitEnd,
    statuses: Seq<(ThreadId, AgentStatus)>,
    labels: IdMap<String>,
) -> bool {
    &&& end.statuses.wf()
    &&& forall|id: ThreadId| #[trigger] end.statuses.value(id) == lookup(statuses, id)
    &&& end.result is Ok
    &&& end.result->Ok_0.timed_out == (statuses.len() == 0)
    &&& keys_of(named_statuses(end.result->Ok_0.status@)).no_duplicates()
    &&& forall|label: Seq<char>| #[trigger]
        lookup(named_statuses(end.result->Ok_0.status@), label) == lookup(
            labelled(statuses, labels),
            label,
        )
}

/// Whether `label` is that of a receiver.
pub open spec fn labels_receiver(plan: WaitPlan, label: Seq<char>) -> bool {
    exists|i: int|
        0 <= i < plan.receivers@.len() && plan.labels.value(#[trigger] plan.receivers@[i]) is Some
            && plan.labels.value(plan.receivers@[i])->0@ == label
}

/// Whether `result` says that the time is over where it tells no status, and only
/// there, and tells statuses under the labels of receivers only.
pub open spec fn keeps_to(result: WaitAgentStatusResult, plan: WaitPlan) -> bool {
    &&& result.timed_out == (result.status@.len() == 0)
    &&& forall|k: int|
        0 <= k < result.status@.len() ==> labels_receiver(plan, (#[trigger] result.status@[k]).0@)
}

proof fn lemma_labelled_keys(
    statuses: Seq<(ThreadId, AgentStatus)>,
    plan: WaitPlan,
    label: Seq<char>,
)
    requires
        of_receivers(statuses, plan.receivers@),
        keys_of(labelled(statuses, plan.labels)).contains(label),
    ensures
        labels_receiver(plan, label),
    decreases statuses.len(),
{
    let pairs = labelled(statuses, plan.labels);
    let at = keys_of(pairs).index_of(label);
    assert(keys_of(pairs)[at] == label);
    let rest = statuses.drop_last();
    let before = labelled(rest, plan.labels);
    let last = statuses[statuses.len() - 1];
    if at < before.len() {
        assert(keys_of(before)[at] == label);
        assert forall|k: int| 0 <= k < rest.len() implies plan.receivers@.contains(
            (#[trigger] rest[k]).0,
        ) by {
            assert(rest[k] == statuses[k]);
        }
        lemma_labelled_keys(rest, plan, label);
    } else {
        assert(plan.receivers@.contains(last.0));
        let i = plan.receivers@.index_of(last.0);
        assert(plan.labels.value(plan.receivers@[i]) is Some);
    }
}

/// A wait that ends with statuses of receivers says that the time is over where it
/// tells none, and only there, and tells each under the label of a receiver.
pub proof fn lemma_end_keeps_to_receivers(
    end: WaitEnd,
    statuses: Seq<(ThreadId, AgentStatus)>,
    plan: WaitPlan,
)
    requires
        ends_with(end, statuses, plan.labels),
        of_receivers(statuses, plan.receivers@),
        forall|i: int|
            0 <= i < plan.receivers@.len() ==> plan.labels.value(
                #[trigger] plan.receivers@[i],
            ) is Some,
    ensures
        keeps_to(end.result->Ok_0, plan),
{
    let told = named_statuses(end.result->Ok_0.status@);
    let pairs = labelled(statuses, plan.labels);
    assert forall|k: int| 0 <= k < told.len() implies labels_receiver(
        plan,
        (#[trigger] end.result->Ok_0.status@[k]).0@,
    ) by {
        let label = told[k].0;
        assert(keys_of(told)[k] == label);
        lemma_lookup(told, label);
        lemma_lookup(pairs, label);
        assert(lookup(told, label) == lookup(pairs, label));
        lemma_labelled_keys(statuses, plan, label);
    }
    if statuses.len() > 0 {
        assert forall|k: int| 0 <= k < statuses.len() implies plan.labels.value(
            (#[trigger] statuses[k]).0,
        ) is Some by {
            assert(plan.receivers@.contains(statuses[k].0));
            let i = plan.receivers@.index_of(statuses[k].0);
            assert(plan.labels.value(plan.receivers@[i]) is Some);
        }
        lemma_labelled(statuses, plan.labels, 0);
        let label = pairs[0].0;
        assert(keys_of(pairs)[0] == label);
        lemma_lookup(pairs, label);
        lemma_lookup(told, label);
        assert(lookup(told, label) == lookup(pairs, label));
        assert(told.len() > 0);
    } else {
        assert(pairs.len() == 0);
        if told.len() > 0 {
            let label = told[0].0;
            assert(keys_of(told)[0] == label);
            lemma_lookup(told, label);
            assert(lookup(told, label) == lookup(pairs, label));
        }
    }
}

/// Whether `label` is that of a target.
pub open spec fn labels_target(
    targets: Seq<Result<WaitTarget, FunctionCallError>>,
    label: Seq<char>,
) -> bool {
    exists|i: int|
        0 <= i < targets.len() && (#[trigger] targets[i]) is Ok && targets[i]->Ok_0.target.label@
            == label
}

/// Whether `plan` is that of a wait for `targets`.
pub open spec fn plans_for(
    plan: WaitPlan,
    targets: Seq<Result<WaitTarget, FunctionCallError>>,
) -> bool {
    &&& all_resolved(targets)
    &&& plan.receivers@ == keys_of(labels_of(targets))
    &&& forall|id: ThreadId| #[trigger] plan.labels.value(id) == lookup(labels_of(targets), id)
}

proof fn lemma_gathered_of_receivers(events: Seq<WaitEvent>, receivers: Seq<ThreadId>)
    requires
        forall|k: int| 0 <= k < events.len() ==> of_receiver(#[trigger] events[k], receivers),
    ensures
        of_receivers(gathered(events), receivers),
    decreases events.len(),
{
    if events.len() > 0 {
        let rest = events.drop_first();
        assert forall|k: int| 0 <= k < rest.len() implies of_receiver(
            #[trigger] rest[k],
            receivers,
        ) by {
            assert(rest[k] == events[k + 1]);
        }
        lemma_gathered_of_receivers(rest, receivers);
        assert(of_receiver(events[0], receivers));
        let all = gathered(events);
        assert forall|k: int| 0 <= k < all.len() implies receivers.contains(
            (#[trigger] all[k]).0,
        ) by {
            if let WaitEvent::Final(id, status) = events[0] {
                if k > 0 {
                    assert(all[k] == gathered(rest)[k - 1]);
                }
            } else {
                assert(all[k] == gathered(rest)[k]);
            }
        }
    }
}

/// A whole wait for `targets`, in which `events` came in until it was over: the time
/// is over if and only if no agent came to an end, if and only if no status is told,
/// and every status is told under the label of a target.
pub proof fn lemma_whole_wait(
    targets: Seq<Result<WaitTarget, FunctionCallError>>,
    plan: WaitPlan,
    events: Seq<WaitEvent>,
    end: WaitEnd,
)
    requires
        plans_for(plan, targets),
        forall|k: int|
            0 <= k < events.len() ==> of_receiver(#[trigger] events[k], plan.receivers@),
        ends_with(end, gather_run(Seq::empty(), events), plan.labels),
    ensures
        end.result->Ok_0.timed_out <==> gathered(events).len() == 0,
        end.result->Ok_0.timed_out <==> end.result->Ok_0.status@.len() == 0,
        forall|k: int|
            0 <= k < end.result->Ok_0.status@.len() ==> labels_target(
                targets,
                (#[trigger] end.result->Ok_0.status@[k]).0@,
            ),
{
    lemma_gather_run(Seq::empty(), events);
    assert(gather_run(Seq::empty(), events) =~= gathered(events));
    lemma_gathered_of_receivers(events, plan.receivers@);
    let pairs = labels_of(targets);
    assert forall|i: int| 0 <= i < plan.receivers@.len() implies plan.labels.value(
        #[trigger] plan.receivers@[i],
    ) is Some by {
        lemma_lookup(pairs, plan.receivers@[i]);
        assert(keys_of(pairs).contains(plan.receivers@[i]));
    }
    lemma_end_keeps_to_receivers(end, gathered(events), plan);
    let status = end.result->Ok_0.status@;
    assert forall|k: int| 0 <= k < status.len() implies labels_target(
        targets,
        (#[trigger] status[k]).0@,
    ) by {
        assert(labels_receiver(plan, status[k].0@));
        let i = choose|i: int|
            0 <= i < plan.receivers@.len() && plan.labels.value(
                #[trigger] plan.receivers@[i],
            ) is Some && plan.labels.value(plan.receivers@[i])->0@ == status[k].0@;
        let id = plan.receivers@[i];
        lemma_lookup(pairs, id);
        let j = pairs.index_of((id, lookup(pairs, id)->0));
        assert(targets[j] is Ok);
        assert(pairs[j].1 == targets[j]->Ok_0.target.label);
    }
}

/// Begins a call that waits for agents, whose targets have been resolved up to the
/// first failure. A call that begins is announced with the receivers and agents of
/// its plan.
pub fn handle_wait_agent_status(
    targets: Vec<Result<WaitTarget, FunctionCallError>>,
    timeout_ms: Option<i64>,
    timeouts: &WaitTimeouts,
) -> (begun: Result<WaitRun, FunctionCallError>)
    requires
        timeouts.min_ms <= timeouts.max_ms,
    ensures
        begun is Ok == (targets@.len() > 0 && all_resolved(targets@) && requested(
            timeout_ms,
            *timeouts,
        ) > 0),
        match begun {
            Ok(run) => {
                &&& run.wf()
                &&& run.subs@.len() == 0
                &&& run.gathering.results@.len() == 0
                &&& run.plan.timeout_ms == clamped(requested(timeout_ms, *timeouts), *timeouts)
                &&& plans_for(run.plan, targets@)
                &&& run.plan.agents@.len() == targets@.len()
                &&& forall|i: int|
                    0 <= i < targets@.len() ==> refers_to(
                        #[trigger] run.plan.agents@[i],
                        targets@[i]->Ok_0,
                    )
            },
            Err(err) => if targets@.len() == 0 {
                err is RespondToModel && err->RespondToModel_0@ == "agent ids must be non-empty"@
            } else if !all_resolved(targets@) {
                exists|i: int|
                    0 <= i < targets@.len() && all_resolved(targets@.take(i)) && #[trigger]
                        targets@[i] == Err::<WaitTarget, FunctionCallError>(err)
            } else {
                err is RespondToModel && err->RespondToModel_0@
                    == "timeout_ms must be greater than zero"@
            },
        },
{
    let ghost given = targets@;
    match plan_wait(targets, timeout_ms, timeouts) {
        Ok(plan) => {
            let run = WaitRun { plan, subs: Vec::new(), gathering: Gathering::new() };
            proof {
                assert(run.plan.receivers@.len() == given.len());
                assert forall|i: int| 0 <= i < given.len() implies run.plan.labels.value(
                    #[trigger] run.plan.receivers@[i],
                ) is Some by {
                    let pairs = labels_of(given);
                    assert(keys_of(pairs)[i] == run.plan.receivers@[i]);
                    lemma_lookup(pairs, run.plan.receivers@[i]);
                }
            }
            Ok(run)
        },
        Err(err) => Err(err),
    }
}

impl WaitRun {
    /// What the call does next: it subscribes to the agents, in order, and then
    /// waits for one of them to come to an end.
    pub fn next_action(&self) -> (action: WaitAction)
        requires
            self.wf(),
        ensures
            action == if self.subs@.len() < self.plan.receivers@.len() {
                WaitAction::Subscribe(self.plan.receivers@[self.subs@.len() as int])
            } else {
                WaitAction::Watch {
                    poll: if self.gathering.results@.len() == 0 {
                        Poll::UntilDeadline
                    } else {
                        Poll::Ready
                    },
                    timeout_ms: self.plan.timeout_ms,
                }
            },
    {
        if self.subs.len() < self.plan.receivers.len() {
            WaitAction::Subscribe(self.plan.receivers[self.subs.len()])
        } else {
            WaitAction::Watch {
                poll: self.gathering.next_poll(),
                timeout_ms: self.plan.timeout_ms,
            }
        }
    }

    /// Takes in the answer to a subscription. A failure ends the call; agents that
    /// have come to an end already do so too, once all agents have been subscribed
    /// to.
    pub fn subscribed(self, sub: Subscription) -> (turn: WaitTurn)
        requires
            self.wf(),
            self.subs@.len() < self.plan.receivers@.len(),
        ensures
            ({
                let id = self.plan.receivers@[self.subs@.len() as int];
                let subs = self.subs@.push(sub);
                let finals = initial_finals(self.plan.receivers@, subs);
                match sub {
                    Subscription::Failed { error, status } => {
                        &&& turn is End
                        &&& turn->End_0.result == Err::<WaitAgentStatusResult, FunctionCallError>(
                            error,
                        )
                        &&& turn->End_0.statuses.wf()
                        &&& forall|other: ThreadId| #[trigger]
                            turn->End_0.statuses.value(other) == if other == id {
                                Some(status)
                            } else {
                                None
                            }
                    },
                    _ => if subs.len() == self.plan.receivers@.len() && finals.len() > 0 {
                        &&& turn is End
                        &&& ends_with(turn->End_0, finals, self.plan.labels)
                        &&& keeps_to(turn->End_0.result->Ok_0, self.plan)
                    } else {
                        &&& turn is Continue
                        &&& turn->Continue_0.wf()
                        &&& turn->Continue_0.plan == self.plan
                        &&& turn->Continue_0.subs@ == subs
                        &&& turn->Continue_0.gathering == self.gathering
                    },
                }
            }),
    {
        let ghost before = self.subs@;
        let at: usize = self.subs.len();
        let id = self.plan.receivers[at];
        let ghost receivers = self.plan.receivers@;
        let sub = match sub {
            Subscription::Failed { error, status } => {
                let mut statuses: IdMap<AgentStatus> = IdMap::new();
                statuses.insert(id, status);
                return WaitTurn::End(WaitEnd { statuses, result: Err(error) });
            },
            other => other,
        };
        let mut subs = self.subs;
        subs.push(sub);
        proof {
            assert(none_failed(subs@)) by {
                assert forall|i: int| 0 <= i < subs@.len() implies !(
                (#[trigger] subs@[i]) is Failed) by {
                    if i < before.len() {
                        assert(subs@[i] == before[i]);
                    }
                }
            }
        }
        if subs.len() == self.plan.receivers.len() {
            let finals = initial_statuses(&self.plan.receivers, &subs);
            if finals.len() > 0 {
                let ghost ended = finals@;
                let outcome = finish_wait(&self.plan.labels, finals);
                let end = WaitEnd { statuses: outcome.statuses, result: Ok(outcome.result) };
                proof {
                    lemma_wait_keeps_to_receivers(receivers, subs@);
                    lemma_end_keeps_to_receivers(end, ended, self.plan);
                }
                return WaitTurn::End(end);
            }
        }
        WaitTurn::Continue(WaitRun { plan: self.plan, subs, gathering: self.gathering })
    }

    /// Takes in what came of waiting for a status.
    pub fn waited(self, event: WaitEvent) -> (turn: WaitTurn)
        requires
            self.wf(),
            self.subs@.len() == self.plan.receivers@.len(),
            of_receiver(event, self.plan.receivers@),
        ensures
            match gather_next(self.gathering.results@, event) {
                Some(results) => {
                    &&& turn is Continue
                    &&& turn->Continue_0.wf()
                    &&& turn->Continue_0.plan == self.plan
                    &&& turn->Continue_0.subs == self.subs
                    &&& turn->Continue_0.gathering.results@ == results
                },
                None => {
                    &&& turn is End
                    &&& ends_with(turn->End_0, self.gathering.results@, self.plan.labels)
                    &&& keeps_to(turn->End_0.result->Ok_0, self.plan)
                },
            },
    {
        match self.gathering.step(event) {
            GatherStep::Continue(gathering) => WaitTurn::Continue(
                WaitRun { plan: self.plan, subs: self.subs, gathering },
            ),
            GatherStep::Finished(results) => {
                let ghost came = results@;
                let outcome = finish_wait(&self.plan.labels, results);
                let end = WaitEnd { statuses: outcome.statuses, result: Ok(outcome.result) };
                proof {
                    lemma_end_keeps_to_receivers(end, came, self.plan);
                }
                WaitTurn::End(end)
            },
        }
    }
}

} // verus!
