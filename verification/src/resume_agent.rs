//! Bringing agents back that are no longer loaded.

use vstd::prelude::*;

use crate::agents::{AgentMetadata, AgentStatus, AgentTarget, FunctionCallError};
use crate::order::{in_order, ordered, stable_sort, Ranked};
use crate::runtime_config::{
    own_config, records, restored_config, ConfigSnapshot, RecordedConfig, RestoredConfig,
};
use crate::text::{
    copy_opt, glue, lemma_opt_lex_less, lex_less, opt_lex_less, opt_text_less, same_text,
    text_starts_with,
};
use crate::thread::ThreadId;

verus! {

/// What the tool is called with.
#[derive(Debug, PartialEq, Eq)]
pub struct ResumeAgentArgs {
    pub target: Option<String>,
    pub thread_id: Option<String>,
    pub task_name: Option<String>,
    pub agent_path: Option<String>,
    pub resume_scope: Option<String>,
}

/// How much of an agent's tree is brought back.
#[derive(Debug, Clone, Copy, PartialEq, Eq, Structural)]
pub enum ResumeScope {
    /// The agent itself.
    OnlySelf,
    /// The agent and its descendants that were left open.
    Subtree,
    /// The agent and all its descendants.
    All,
}

/// The agent that a call names: by whichever field it uses.
pub open spec fn named_target(args: ResumeAgentArgs) -> Option<String> {
    if args.target is Some {
        args.target
    } else if args.thread_id is Some {
        args.thread_id
    } else if args.task_name is Some {
        args.task_name
    } else {
        args.agent_path
    }
}

/// The scope that a call names.
pub open spec fn named_scope(scope: Option<Seq<char>>) -> Option<ResumeScope> {
    match scope {
        None => Some(ResumeScope::OnlySelf),
        Some(name) => if name == "self"@ {
            Some(ResumeScope::OnlySelf)
        } else if name == "subtree"@ {
            Some(ResumeScope::Subtree)
        } else if name == "all"@ {
            Some(ResumeScope::All)
        } else {
            None
        },
    }
}

/// The agent that a call names. Where it names none, the caller has to choose
/// one from the list of agents.
pub fn resume_target(args: ResumeAgentArgs) -> (target: Option<String>)
    ensures
        target == named_target(args),
{
    if args.target.is_some() {
        args.target
    } else if args.thread_id.is_some() {
        args.thread_id
    } else if args.task_name.is_some() {
        args.task_name
    } else {
        args.agent_path
    }
}

/// The scope that a call names; the agent itself where it names none.
pub fn resume_scope(scope: &Option<String>) -> (named: Option<ResumeScope>)
    ensures
        named == named_scope(scope.deep_view()),
{
    match scope {
        None => Some(ResumeScope::OnlySelf),
        Some(name) => {
            proof {
                reveal_strlit("self");
                reveal_strlit("subtree");
                reveal_strlit("all");
            }
            if same_text(name.as_str(), "self") {
                Some(ResumeScope::OnlySelf)
            } else if same_text(name.as_str(), "subtree") {
                Some(ResumeScope::Subtree)
            } else if same_text(name.as_str(), "all") {
                Some(ResumeScope::All)
            } else {
                None
            }
        },
    }
}

/// How deep an agent would be that an agent at `depth` brings in; the main
/// thread is at no depth.
pub open spec fn spawn_depth(depth: Option<i32>) -> int {
    match depth {
        Some(depth) => if depth == i32::MAX {
            i32::MAX as int
        } else {
            depth + 1
        },
        None => 1,
    }
}

/// How deep an agent would be that an agent at `depth` brings in.
pub fn next_thread_spawn_depth(depth: Option<i32>) -> (child_depth: i32)
    ensures
        child_depth == spawn_depth(depth),
{
    match depth {
        Some(depth) => if depth == i32::MAX {
            i32::MAX
        } else {
            depth + 1
        },
        None => 1,
    }
}

/// Refuses to bring an agent in that would be too deep.
pub fn check_resume_depth(child_depth: i32, max_depth: i32) -> (checked: Result<
    (),
    FunctionCallError,
>)
    ensures
        match checked {
            Ok(_) => child_depth <= max_depth,
            Err(err) => child_depth > max_depth && err is RespondToModel
                && err->RespondToModel_0@ == "Agent depth limit reached. Solve the task yourself."@,
        },
{
    if child_depth > max_depth {
        Err(
            FunctionCallError::RespondToModel(
                "Agent depth limit reached. Solve the task yourself.".to_string(),
            ),
        )
    } else {
        Ok(())
    }
}

/// How a call begins.
#[derive(Debug, PartialEq, Eq)]
pub enum ResumeStart {
    /// It names no agent: the list of agents is returned, from which the caller
    /// has to choose.
    SelectionRequired,
    /// The agent that it names is looked up.
    Resolve { target: String, scope: ResumeScope },
    /// It names no scope that there is.
    Fail(FunctionCallError),
}

/// How a call begins.
pub fn start_resume(args: ResumeAgentArgs) -> (start: ResumeStart)
    ensures
        match named_scope(args.resume_scope.deep_view()) {
            None => start is Fail && start->Fail_0 is RespondToModel
                && start->Fail_0->RespondToModel_0@
                == "resume_scope must be one of self, subtree, or all"@,
            Some(scope) => match named_target(args) {
                Some(target) => start == (ResumeStart::Resolve { target, scope }),
                None => start == ResumeStart::SelectionRequired,
            },
        },
{
    match resume_scope(&args.resume_scope) {
        None => ResumeStart::Fail(
            FunctionCallError::RespondToModel(
                "resume_scope must be one of self, subtree, or all".to_string(),
            ),
        ),
        Some(scope) => match resume_target(args) {
            Some(target) => ResumeStart::Resolve { target, scope },
            None => ResumeStart::SelectionRequired,
        },
    }
}

/// What is told of the agent before it is brought back.
#[derive(Debug, PartialEq, Eq)]
pub struct ResumeBegin {
    pub target: AgentTarget,
    pub child_depth: i32,
    pub receiver: AgentMetadata,
}

/// Begins to bring back the agent that the call named, once it has been looked
/// up. `depth` is that of the agent that calls.
pub fn begin_resume(
    target: Result<AgentTarget, FunctionCallError>,
    metadata: Option<AgentMetadata>,
    depth: Option<i32>,
    max_depth: i32,
) -> (begin: Result<ResumeBegin, FunctionCallError>)
    ensures
        match target {
            Err(err) => begin == Err::<ResumeBegin, FunctionCallError>(err),
            Ok(target) => match begin {
                Ok(begin) => {
                    &&& begin.target == target
                    &&& begin.child_depth == spawn_depth(depth)
                    &&& begin.child_depth <= max_depth
                    &&& match metadata {
                        Some(metadata) => begin.receiver == metadata,
                        None => begin.receiver == (AgentMetadata {
                            agent_path: None,
                            agent_nickname: None,
                            agent_role: None,
                        }),
                    }
                },
                Err(err) => spawn_depth(depth) > max_depth && err is RespondToModel
                    && err->RespondToModel_0@
                    == "Agent depth limit reached. Solve the task yourself."@,
            },
        },
{
    let target = match target {
        Ok(target) => target,
        Err(err) => {
            return Err(err);
        },
    };
    let receiver = match metadata {
        Some(metadata) => metadata,
        None => AgentMetadata::default(),
    };
    let child_depth = next_thread_spawn_depth(depth);
    match check_resume_depth(child_depth, max_depth) {
        Ok(_) => Ok(ResumeBegin { target, child_depth, receiver }),
        Err(err) => Err(err),
    }
}

/// An agent of which a record is kept.
#[derive(Debug, PartialEq, Eq)]
pub struct StoredAgent {
    pub thread_id: ThreadId,
    /// The thread that spawned it.
    pub parent_thread_id: ThreadId,
    /// How many spawns lead to it.
    pub depth: i32,
    pub agent_path: Option<String>,
    /// Whether it was never closed.
    pub is_open: bool,
    pub status: AgentStatus,
    /// What is known of its configuration.
    pub config: RecordedConfig,
}

/// An agent to bring back, in its place in the tree, under its path and with its own
/// configuration.
#[derive(Debug, PartialEq, Eq)]
pub struct RestoreRequest {
    pub thread_id: ThreadId,
    pub parent_thread_id: ThreadId,
    pub depth: i32,
    pub agent_path: Option<String>,
    pub config: RestoredConfig,
}

/// The contents of a `RestoreRequest`.
#[verifier::ext_equal]
pub struct Restore {
    pub thread_id: ThreadId,
    pub parent_thread_id: ThreadId,
    pub depth: i32,
    pub agent_path: Option<Seq<char>>,
    pub config: RestoredConfig,
}

impl DeepView for RestoreRequest {
    type V = Restore;

    open spec fn deep_view(&self) -> Restore {
        Restore {
            thread_id: self.thread_id,
            parent_thread_id: self.parent_thread_id,
            depth: self.depth,
            agent_path: self.agent_path.deep_view(),
            config: self.config,
        }
    }
}

impl Ranked for RestoreRequest {
    open spec fn ranks_before(a: Restore, b: Restore) -> bool {
        opt_lex_less(a.agent_path, b.agent_path)
    }

    fn precedes(&self, other: &Self) -> (before: bool) {
        opt_text_less(&self.agent_path, &other.agent_path)
    }

    proof fn lemma_ranks(a: Restore, b: Restore, c: Restore) {
        lemma_opt_lex_less(a.agent_path, b.agent_path, c.agent_path);
        lemma_opt_lex_less(b.agent_path, c.agent_path, a.agent_path);
        lemma_opt_lex_less(c.agent_path, a.agent_path, b.agent_path);
        lemma_opt_lex_less(b.agent_path, a.agent_path, c.agent_path);
        lemma_opt_lex_less(c.agent_path, b.agent_path, a.agent_path);
        lemma_opt_lex_less(a.agent_path, c.agent_path, b.agent_path);
    }
}

/// Whether `path` lies below `above`.
pub open spec fn is_below(path: Seq<char>, above: Seq<char>) -> bool {
    (above + "/"@).is_prefix_of(path)
}

/// Whether `path` lies below `above`.
pub fn path_is_below(path: &str, above: &str) -> (below: bool)
    ensures
        below == is_below(path@, above@),
{
    text_starts_with(path, glue(above, "/").as_str())
}

/// Whether the record `agent` is brought back together with the agent at
/// `target_path`: it lies below, the scope takes it in, and it is not loaded.
pub open spec fn restored_with(
    agent: StoredAgent,
    target_path: Option<Seq<char>>,
    scope: ResumeScope,
) -> bool {
    &&& agent.status is NotFound
    &&& agent.agent_path is Some
    &&& target_path is Some
    &&& is_below(agent.agent_path->0@, target_path->0)
    &&& match scope {
        ResumeScope::OnlySelf => false,
        ResumeScope::Subtree => agent.is_open,
        ResumeScope::All => true,
    }
}

/// The records that are brought back together with the agent at `target_path`.
pub open spec fn restored_descendants(
    stored: Seq<StoredAgent>,
    target_path: Option<Seq<char>>,
    scope: ResumeScope,
) -> Seq<Restore>
    decreases stored.len(),
{
    if stored.len() == 0 {
        Seq::empty()
    } else {
        let before = restored_descendants(stored.drop_last(), target_path, scope);
        let agent = stored.last();
        if restored_with(agent, target_path, scope) {
            before.push(
                Restore {
                    thread_id: agent.thread_id,
                    parent_thread_id: agent.parent_thread_id,
                    depth: agent.depth,
                    agent_path: agent.agent_path.deep_view(),
                    config: own_config(agent.config),
                },
            )
        } else {
            before
        }
    }
}

/// What is brought back: the agent itself where it is not loaded, below the thread
/// `session` at the depth `depth`, and then what the scope takes in of its
/// descendants, where they were, by path. Each has its own configuration; that of the
/// agent itself is recorded in `config`.
pub open spec fn restore_list(
    target: AgentTarget,
    config: RecordedConfig,
    session: ThreadId,
    depth: i32,
    status: AgentStatus,
    scope: ResumeScope,
    stored: Seq<StoredAgent>,
) -> Seq<Restore> {
    let path = target.agent_path.deep_view();
    let own = if status is NotFound {
        seq![
            Restore {
                thread_id: target.thread_id,
                parent_thread_id: session,
                depth,
                agent_path: path,
                config: own_config(config),
            },
        ]
    } else {
        Seq::empty()
    };
    own + ordered::<RestoreRequest>(restored_descendants(stored, path, scope))
}

/// What is brought back for `target`, whose status is `status`.
pub fn plan_resume(
    target: &AgentTarget,
    config: RecordedConfig,
    session: ThreadId,
    depth: i32,
    status: &AgentStatus,
    scope: ResumeScope,
    stored: Vec<StoredAgent>,
) -> (requests: Vec<RestoreRequest>)
    ensures
        requests.deep_view() == restore_list(
            *target,
            config,
            session,
            depth,
            *status,
            scope,
            stored@,
        ),
{
    let ghost path = target.agent_path.deep_view();
    let ghost all = stored@;
    let mut below: Vec<RestoreRequest> = Vec::new();
    proof {
        assert(all.take(0) =~= Seq::empty());
        assert(below.deep_view() =~= Seq::empty());
    }
    for agent in it: stored
        invariant
            it.seq() == stored@,
            all == stored@,
            path == target.agent_path.deep_view(),
            below.deep_view() == restored_descendants(all.take(it.index()), path, scope),
    {
        let ghost n = it.index();
        let ghost record = agent;
        let unloaded = match &agent.status {
            AgentStatus::NotFound => true,
            _ => false,
        };
        let in_scope = match scope {
            ResumeScope::OnlySelf => false,
            ResumeScope::Subtree => agent.is_open,
            ResumeScope::All => true,
        };
        let lies_below = match (&agent.agent_path, &target.agent_path) {
            (Some(agent_path), Some(above)) => path_is_below(agent_path.as_str(), above.as_str()),
            _ => false,
        };
        proof {
            assert(all.take(n + 1).drop_last() =~= all.take(n));
            assert(all.take(n + 1).last() == record);
        }
        if unloaded && in_scope && lies_below {
            let ghost before = below.deep_view();
            let request = RestoreRequest {
                thread_id: agent.thread_id,
                parent_thread_id: agent.parent_thread_id,
                depth: agent.depth,
                agent_path: agent.agent_path,
                config: restored_config(agent.config),
            };
            below.push(request);
            proof {
                assert(below.deep_view() =~= before.push(request.deep_view()));
            }
        }
    }
    proof {
        assert(all.take(all.len() as int) =~= all);
    }
    let mut requests: Vec<RestoreRequest> = Vec::new();
    match status {
        AgentStatus::NotFound => {
            requests.push(
                RestoreRequest {
                    thread_id: target.thread_id,
                    parent_thread_id: session,
                    depth,
                    agent_path: copy_opt(&target.agent_path),
                    config: restored_config(config),
                },
            );
        },
        _ => {},
    }
    let mut sorted = stable_sort(below);
    let ghost own = requests.deep_view();
    let ghost rest = sorted.deep_view();
    requests.append(&mut sorted);
    proof {
        assert(requests.deep_view() =~= own + rest);
        if *status is NotFound {
            assert(own =~= seq![
                Restore {
                    thread_id: target.thread_id,
                    parent_thread_id: session,
                    depth,
                    agent_path: path,
                    config: own_config(config),
                },
            ]);
        } else {
            assert(own =~= Seq::empty());
        }
    }
    requests
}

/// Whether `restore` brings the record `agent` back, where it was and as it was
/// configured.
pub open spec fn restores(restore: Restore, agent: StoredAgent) -> bool {
    restore == (Restore {
        thread_id: agent.thread_id,
        parent_thread_id: agent.parent_thread_id,
        depth: agent.depth,
        agent_path: agent.agent_path.deep_view(),
        config: own_config(agent.config),
    })
}

/// Whether `restore` brings back one of the records that the scope takes in.
pub open spec fn restores_one_of(
    restore: Restore,
    stored: Seq<StoredAgent>,
    target_path: Option<Seq<char>>,
    scope: ResumeScope,
) -> bool {
    exists|k: int|
        0 <= k < stored.len() && restored_with(stored[k], target_path, scope) && restores(
            restore,
            #[trigger] stored[k],
        )
}

/// Only agents that are not loaded are brought back, each where it was, under its path
/// and with its own configuration, and without a wider scope only the agent that was
/// asked for.
pub proof fn lemma_restore_list(
    target: AgentTarget,
    config: RecordedConfig,
    session: ThreadId,
    depth: i32,
    status: AgentStatus,
    scope: ResumeScope,
    stored: Seq<StoredAgent>,
)
    ensures
        ({
            let list = restore_list(target, config, session, depth, status, scope, stored);
            let own = if status is NotFound {
                1nat
            } else {
                0nat
            };
            &&& scope == ResumeScope::OnlySelf ==> list.len() == own
            &&& list.len() >= own
            &&& status is NotFound ==> list[0] == (Restore {
                thread_id: target.thread_id,
                parent_thread_id: session,
                depth,
                agent_path: target.agent_path.deep_view(),
                config: own_config(config),
            })
            &&& forall|i: int|
                own <= i < list.len() ==> restores_one_of(
                    #[trigger] list[i],
                    stored,
                    target.agent_path.deep_view(),
                    scope,
                )
        }),
{
    let path = target.agent_path.deep_view();
    let below = restored_descendants(stored, path, scope);
    let sorted = ordered::<RestoreRequest>(below);
    lemma_descendants(stored, path, scope);
    crate::order::lemma_ordered::<RestoreRequest>(below, arbitrary());
    let list = restore_list(target, config, session, depth, status, scope, stored);
    let own: int = if status is NotFound {
        1
    } else {
        0
    };
    assert forall|i: int| own <= i < list.len() implies restores_one_of(
        #[trigger] list[i],
        stored,
        path,
        scope,
    ) by {
        assert(list[i] == sorted[i - own]);
        crate::order::lemma_ordered_contains::<RestoreRequest>(below, sorted[i - own]);
        assert(sorted.contains(sorted[i - own]));
        let j = below.index_of(sorted[i - own]);
        assert(below[j] == list[i]);
    }
}

/// An agent that ran with the configuration `ran`, of which `config` is left, comes
/// back first, under its path, with its own model, reasoning effort, approval policy,
/// permission profile, directory and workspace roots, and, where a snapshot is left,
/// with its own shell environment policy: nothing is taken from the agent that brings
/// it back.
pub proof fn lemma_resume_keeps_config(
    target: AgentTarget,
    config: RecordedConfig,
    ran: ConfigSnapshot,
    session: ThreadId,
    depth: i32,
    status: AgentStatus,
    scope: ResumeScope,
    stored: Seq<StoredAgent>,
)
    requires
        status is NotFound,
        records(config, ran),
    ensures
        ({
            let list = restore_list(target, config, session, depth, status, scope, stored);
            &&& list.len() >= 1
            &&& list[0].thread_id == target.thread_id
            &&& list[0].agent_path == target.agent_path.deep_view()
            &&& list[0].config.settings == Some(ran.settings)
            &&& list[0].config.shell_environment_policy == if config.snapshot is Some {
                Some(ran.shell_environment_policy)
            } else {
                None
            }
        }),
{
    lemma_restore_list(target, config, session, depth, status, scope, stored);
}

proof fn lemma_prefix_less(a: Seq<char>, b: Seq<char>)
    requires
        a.is_prefix_of(b),
        a.len() < b.len(),
    ensures
        lex_less(a, b),
    decreases a.len(),
{
    if a.len() > 0 {
        let n = a.len() as int;
        assert(a[0] == b.subrange(0, n)[0]);
        assert(a.drop_first() =~= b.drop_first().subrange(0, n - 1)) by {
            assert forall|i: int| 0 <= i < n - 1 implies a.drop_first()[i] == b.drop_first()[i] by {
                assert(a[i + 1] == b.subrange(0, n)[i + 1]);
            }
        }
        lemma_prefix_less(a.drop_first(), b.drop_first());
    }
}

proof fn lemma_below_is_later(a: Seq<char>, b: Seq<char>)
    requires
        is_below(b, a),
    ensures
        b.len() > a.len(),
        lex_less(a, b),
{
    reveal_strlit("/");
    let head = a + "/"@;
    assert(a =~= b.subrange(0, a.len() as int)) by {
        assert forall|k: int| 0 <= k < a.len() implies a[k] == b[k] by {
            assert(head[k] == b.subrange(0, head.len() as int)[k]);
        }
    }
    lemma_prefix_less(a, b);
}

proof fn lemma_sorted_from_the_top(sorted: Seq<Restore>, i: int, j: int)
    requires
        in_order::<RestoreRequest>(sorted),
        0 <= i < sorted.len(),
        0 <= j < sorted.len(),
        opt_lex_less(sorted[i].agent_path, sorted[j].agent_path),
    ensures
        i < j,
{
    lemma_opt_lex_less(sorted[i].agent_path, sorted[j].agent_path, None);
    if j < i {
        assert(!RestoreRequest::ranks_before(sorted[i], sorted[j]));
    }
}

/// An agent is brought back before what lies below it.
pub proof fn lemma_restored_from_the_top(
    target: AgentTarget,
    config: RecordedConfig,
    session: ThreadId,
    depth: i32,
    status: AgentStatus,
    scope: ResumeScope,
    stored: Seq<StoredAgent>,
    i: int,
    j: int,
)
    requires
        ({
            let list = restore_list(target, config, session, depth, status, scope, stored);
            &&& 0 <= i < list.len()
            &&& 0 <= j < list.len()
            &&& list[i].agent_path is Some
            &&& list[j].agent_path is Some
            &&& is_below(list[j].agent_path->0, list[i].agent_path->0)
        }),
    ensures
        i < j,
{
    let list = restore_list(target, config, session, depth, status, scope, stored);
    let path = target.agent_path.deep_view();
    let below = restored_descendants(stored, path, scope);
    let sorted = ordered::<RestoreRequest>(below);
    let own: int = if status is NotFound {
        1
    } else {
        0
    };
    let a = list[i].agent_path->0;
    let b = list[j].agent_path->0;
    assert(b.len() > a.len() && lex_less(a, b)) by {
        lemma_below_is_later(a, b);
    }
    if i >= own && j >= own {
        assert(in_order::<RestoreRequest>(sorted)) by {
            crate::order::lemma_ordered::<RestoreRequest>(below, arbitrary());
        }
        lemma_sorted_from_the_top(sorted, i - own, j - own);
    } else if i >= own {
        assert(list[j].agent_path == path && restores_one_of(list[i], stored, path, scope)) by {
            lemma_restore_list(target, config, session, depth, status, scope, stored);
        }
        assert(is_below(a, b));
        lemma_below_is_later(b, a);
    }
}

proof fn lemma_descendants(
    stored: Seq<StoredAgent>,
    path: Option<Seq<char>>,
    scope: ResumeScope,
)
    ensures
        scope == ResumeScope::OnlySelf ==> restored_descendants(stored, path, scope).len() == 0,
        forall|j: int|
            0 <= j < restored_descendants(stored, path, scope).len() ==> restores_one_of(
                #[trigger] restored_descendants(stored, path, scope)[j],
                stored,
                path,
                scope,
            ),
    decreases stored.len(),
{
    if stored.len() > 0 {
        let rest = stored.drop_last();
        lemma_descendants(rest, path, scope);
        let all = restored_descendants(stored, path, scope);
        let some = restored_descendants(rest, path, scope);
        assert forall|j: int| 0 <= j < all.len() implies restores_one_of(
            #[trigger] all[j],
            stored,
            path,
            scope,
        ) by {
            if j < some.len() {
                assert(restores_one_of(some[j], rest, path, scope));
                let k = choose|k: int|
                    0 <= k < rest.len() && restored_with(rest[k], path, scope) && restores(
                        some[j],
                        #[trigger] rest[k],
                    );
                assert(stored[k] == rest[k]);
            } else {
                assert(restores(all[j], stored[stored.len() - 1]));
            }
        }
    }
}

/// How an agent that is brought back is told where it stands.
#[derive(Debug, PartialEq, Eq)]
pub struct SpawnSource {
    pub parent_thread_id: ThreadId,
    pub depth: i32,
    pub agent_path: Option<String>,
    pub agent_nickname: Option<String>,
    pub agent_role: Option<String>,
}

/// The source of an agent that is brought back below the thread `parent_thread_id`:
/// it keeps its path, and its nickname and role are left to its record.
pub fn resume_source(
    parent_thread_id: ThreadId,
    depth: i32,
    agent_path: Option<String>,
) -> (source: SpawnSource)
    ensures
        source == (SpawnSource {
            parent_thread_id,
            depth,
            agent_path,
            agent_nickname: None,
            agent_role: None,
        }),
{
    SpawnSource {
        parent_thread_id,
        depth,
        agent_path,
        agent_nickname: None,
        agent_role: None,
    }
}

/// What trying to bring agents back came to: the first failure, if any, and what
/// was then known of the agent that was asked for.
#[derive(Debug, PartialEq, Eq)]
pub struct ResumeAttempt {
    pub outcome: Result<(), FunctionCallError>,
    pub status: AgentStatus,
    pub metadata: Option<AgentMetadata>,
}

/// What is told of the agent when the call is over.
#[derive(Debug, PartialEq, Eq)]
pub struct ResumeEnd {
    pub receiver_thread_id: ThreadId,
    pub agent_nickname: Option<String>,
    pub agent_role: Option<String>,
    pub status: AgentStatus,
}

/// What the call comes to.
#[derive(Debug, PartialEq, Eq)]
pub struct ResumeReport {
    pub end: ResumeEnd,
    pub result: Result<AgentStatus, FunctionCallError>,
}

/// What is known of the agent in the end: what an attempt that succeeded found,
/// and what was known before otherwise.
pub open spec fn known_after(
    before: AgentMetadata,
    attempt: Option<ResumeAttempt>,
) -> AgentMetadata {
    match attempt {
        Some(attempt) => match (attempt.outcome, attempt.metadata) {
            (Ok(_), Some(metadata)) => metadata,
            _ => before,
        },
        None => before,
    }
}

/// What the call comes to. Without an attempt, because nothing had to be brought
/// back, it is the status as it was.
pub fn finish_resume(
    receiver_thread_id: ThreadId,
    before: AgentMetadata,
    status: AgentStatus,
    attempt: Option<ResumeAttempt>,
) -> (report: ResumeReport)
    ensures
        report.end.receiver_thread_id == receiver_thread_id,
        report.end.agent_nickname == known_after(before, attempt).agent_nickname,
        report.end.agent_role == known_after(before, attempt).agent_role,
        report.end.status == match attempt {
            Some(attempt) => attempt.status,
            None => status,
        },
        report.result == match attempt {
            Some(attempt) => match attempt.outcome {
                Ok(_) => Ok::<AgentStatus, FunctionCallError>(attempt.status),
                Err(err) => Err(err),
            },
            None => Ok(status),
        },
{
    let (known, status, failure) = match attempt {
        Some(attempt) => match attempt.outcome {
            Ok(_) => (
                match attempt.metadata {
                    Some(metadata) => metadata,
                    None => before,
                },
                attempt.status,
                None,
            ),
            Err(err) => (before, attempt.status, Some(err)),
        },
        None => (before, status, None),
    };
    let end = ResumeEnd {
        receiver_thread_id,
        agent_nickname: known.agent_nickname,
        agent_role: known.agent_role,
        status: status.clone(),
    };
    match failure {
        Some(err) => ResumeReport { end, result: Err(err) },
        None => ResumeReport { end, result: Ok(status) },
    }
}

/// A call that brings agents back.
#[derive(Debug, PartialEq, Eq)]
pub struct ResumeRun {
    pub begin: ResumeBegin,
    /// The agents to bring back, in order.
    pub requests: Vec<RestoreRequest>,
    /// How many of them are back.
    pub done: usize,
    /// Why the next one could not be brought back, if so.
    pub failure: Option<FunctionCallError>,
}

/// What a call that was announced does next.
#[derive(Debug, PartialEq, Eq)]
pub enum ResumeTurn {
    /// The next agent is brought back.
    Restore(ResumeRun),
    /// The agent that was asked for is looked at again.
    Look(ResumeRun),
    /// The call is over.
    End(ResumeReport),
}

/// What a call that was announced does next, once the status of the agent is
/// known: where nothing has to be brought back, it is over. `config` is what is known
/// of the configuration of the agent.
pub fn handle_resume_agent(
    begin: ResumeBegin,
    config: RecordedConfig,
    session: ThreadId,
    status: AgentStatus,
    scope: ResumeScope,
    stored: Vec<StoredAgent>,
) -> (turn: ResumeTurn)
    ensures
        ({
            let list = restore_list(
                begin.target,
                config,
                session,
                begin.child_depth,
                status,
                scope,
                stored@,
            );
            if list.len() > 0 {
                &&& turn is Restore
                &&& turn->Restore_0.wf()
                &&& turn->Restore_0 == (ResumeRun {
                    begin,
                    requests: turn->Restore_0.requests,
                    done: 0,
                    failure: None,
                })
                &&& turn->Restore_0.requests.deep_view() == list
            } else {
                turn == ResumeTurn::End(
                    ResumeReport {
                        end: ResumeEnd {
                            receiver_thread_id: begin.target.thread_id,
                            agent_nickname: begin.receiver.agent_nickname,
                            agent_role: begin.receiver.agent_role,
                            status,
                        },
                        result: Ok(status),
                    },
                )
            }
        }),
{
    let requests = plan_resume(
        &begin.target,
        config,
        session,
        begin.child_depth,
        &status,
        scope,
        stored,
    );
    if requests.len() > 0 {
        ResumeTurn::Restore(ResumeRun { begin, requests, done: 0, failure: None })
    } else {
        ResumeTurn::End(finish_resume(begin.target.thread_id, begin.receiver, status, None))
    }
}

impl ResumeRun {
    /// Whether there is an agent left to bring back.
    pub open spec fn wf(&self) -> bool {
        &&& self.done < self.requests@.len()
        &&& self.failure is None
    }

    /// The agent to bring back next, where it stands, and the configuration it has.
    pub fn next_restore(&self) -> (next: (ThreadId, SpawnSource, &RestoredConfig))
        requires
            self.wf(),
        ensures
            ({
                let request = self.requests@[self.done as int];
                &&& next.0 == request.thread_id
                &&& next.1 == (SpawnSource {
                    parent_thread_id: request.parent_thread_id,
                    depth: request.depth,
                    agent_path: request.agent_path,
                    agent_nickname: None,
                    agent_role: None,
                })
                &&& *next.2 == request.config
            }),
    {
        let request = &self.requests[self.done];
        let agent_path = copy_opt(&request.agent_path);
        let source = resume_source(request.parent_thread_id, request.depth, agent_path);
        (request.thread_id, source, &request.config)
    }

    /// What follows when the agent is back, or could not be brought back: the first
    /// failure ends it.
    pub fn restored(self, outcome: Result<(), FunctionCallError>) -> (turn: ResumeTurn)
        requires
            self.wf(),
        ensures
            match outcome {
                Ok(_) => {
                    let next = ResumeRun { done: (self.done + 1) as usize, ..self };
                    if self.done + 1 < self.requests@.len() {
                        turn == ResumeTurn::Restore(next) && next.wf()
                    } else {
                        turn == ResumeTurn::Look(next)
                    }
                },
                Err(err) => turn == ResumeTurn::Look(ResumeRun { failure: Some(err), ..self }),
            },
    {
        let mut run = self;
        match outcome {
            Ok(_) => {
                let total: usize = run.requests.len();
                run.done = run.done + 1;
                if run.done < total {
                    ResumeTurn::Restore(run)
                } else {
                    ResumeTurn::Look(run)
                }
            },
            Err(err) => {
                run.failure = Some(err);
                ResumeTurn::Look(run)
            },
        }
    }

    /// What the call comes to, given what is now known of the agent that was asked
    /// for.
    pub fn looked(self, status: AgentStatus, metadata: Option<AgentMetadata>) -> (report:
        ResumeReport)
        ensures
            report.end.receiver_thread_id == self.begin.target.thread_id,
            report.end.status == status,
            match self.failure {
                Some(err) => {
                    &&& report.result == Err::<AgentStatus, FunctionCallError>(err)
                    &&& report.end.agent_nickname == self.begin.receiver.agent_nickname
                    &&& report.end.agent_role == self.begin.receiver.agent_role
                },
                None => {
                    let known = match metadata {
                        Some(metadata) => metadata,
                        None => self.begin.receiver,
                    };
                    &&& report.result == Ok::<AgentStatus, FunctionCallError>(status)
                    &&& report.end.agent_nickname == known.agent_nickname
                    &&& report.end.agent_role == known.agent_role
                },
            },
    {
        let outcome = match self.failure {
            Some(err) => Err(err),
            None => Ok(()),
        };
        finish_resume(
            self.begin.target.thread_id,
            self.begin.receiver,
            status.clone(),
            Some(ResumeAttempt { outcome, status, metadata }),
        )
    }
}

} // verus!
