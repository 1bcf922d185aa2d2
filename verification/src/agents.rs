//! Agents as the multi-agent tools see them: their states, their names, and the
//! tools themselves.

use vstd::prelude::*;

use crate::text::copy_opt;
use crate::thread::ThreadId;

verus! {

/// The namespace of the tools.
pub const CODEXX_MULTI_AGENT_NAMESPACE: &'static str = "codexx_multi_agent";

/// The namespace of the compatibility tools.
pub const MULTI_AGENT_V1_NAMESPACE: &'static str = "multi_agent_v1";

/// The name of a tool, which may stand in a namespace.
#[derive(Debug, PartialEq, Eq)]
pub struct ToolName {
    pub namespace: Option<String>,
    pub name: String,
}

impl ToolName {
    pub fn plain(name: &str) -> (tool: Self)
        ensures
            tool.namespace is None,
            tool.name@ == name@,
    {
        ToolName { namespace: None, name: name.to_string() }
    }

    pub fn namespaced(namespace: &str, name: &str) -> (tool: Self)
        ensures
            tool.namespace is Some,
            tool.namespace->0@ == namespace@,
            tool.name@ == name@,
    {
        ToolName { namespace: Some(namespace.to_string()), name: name.to_string() }
    }
}

/// The tools of the namespace.
#[derive(Debug, Clone, Copy, PartialEq, Eq, Structural)]
pub enum CodexxTool {
    RegisterAgent,
    SpawnAgent,
    ResumeAgent,
    SendMessage,
    FollowupTask,
    WaitAgent,
    WaitAgentStatus,
    CloseAgent,
    ListAgents,
}

impl CodexxTool {
    /// The name of the tool inside the namespace.
    pub open spec fn name(self) -> Seq<char> {
        match self {
            CodexxTool::RegisterAgent => "register_agent"@,
            CodexxTool::SpawnAgent => "spawn_agent"@,
            CodexxTool::ResumeAgent => "resume_agent"@,
            CodexxTool::SendMessage => "send_message"@,
            CodexxTool::FollowupTask => "followup_task"@,
            CodexxTool::WaitAgent => "wait_agent"@,
            CodexxTool::WaitAgentStatus => "wait_agent_status"@,
            CodexxTool::CloseAgent => "close_agent"@,
            CodexxTool::ListAgents => "list_agents"@,
        }
    }

    /// The name by which the tool is called.
    pub fn tool_name(&self) -> (tool: ToolName)
        ensures
            tool.namespace is Some,
            tool.namespace->0@ == CODEXX_MULTI_AGENT_NAMESPACE@,
            tool.name@ == self.name(),
    {
        let name = match self {
            CodexxTool::RegisterAgent => "register_agent",
            CodexxTool::SpawnAgent => "spawn_agent",
            CodexxTool::ResumeAgent => "resume_agent",
            CodexxTool::SendMessage => "send_message",
            CodexxTool::FollowupTask => "followup_task",
            CodexxTool::WaitAgent => "wait_agent",
            CodexxTool::WaitAgentStatus => "wait_agent_status",
            CodexxTool::CloseAgent => "close_agent",
            CodexxTool::ListAgents => "list_agents",
        };
        ToolName::namespaced(CODEXX_MULTI_AGENT_NAMESPACE, name)
    }
}

/// Two tools never share a name.
pub proof fn lemma_tool_names_distinct(a: CodexxTool, b: CodexxTool)
    requires
        a.name() == b.name(),
    ensures
        a == b,
{
    reveal_strlit("register_agent");
    reveal_strlit("spawn_agent");
    reveal_strlit("resume_agent");
    reveal_strlit("send_message");
    reveal_strlit("followup_task");
    reveal_strlit("wait_agent");
    reveal_strlit("wait_agent_status");
    reveal_strlit("close_agent");
    reveal_strlit("list_agents");
    assert("register_agent"@.len() == 14 && "followup_task"@.len() == 13);
    assert("resume_agent"@.len() == 12 && "send_message"@.len() == 12);
    assert("resume_agent"@[0] == 'r' && "send_message"@[0] == 's');
    assert("spawn_agent"@.len() == 11 && "close_agent"@.len() == 11 && "list_agents"@.len() == 11);
    assert("spawn_agent"@[0] == 's' && "close_agent"@[0] == 'c' && "list_agents"@[0] == 'l');
    assert("wait_agent"@.len() == 10 && "wait_agent_status"@.len() == 17);
}

/// The compatibility tools that register the agents of a configuration file.
#[derive(Debug, Clone, Copy, PartialEq, Eq, Structural)]
pub enum RegisterAgentConfigTool {
    V1,
    V2,
}

/// The words by which the first of the compatibility tools is found.
pub const REGISTER_AGENT_CONFIG_SEARCH: &'static str =
    "register_agent_config register agent config config.toml agent_type agents reload role";

impl RegisterAgentConfigTool {
    /// The name by which the tool is called: only the first stands in a namespace.
    pub fn tool_name(&self) -> (tool: ToolName)
        ensures
            tool.name@ == "register_agent_config"@,
            match self {
                RegisterAgentConfigTool::V1 => tool.namespace is Some && tool.namespace->0@
                    == MULTI_AGENT_V1_NAMESPACE@,
                RegisterAgentConfigTool::V2 => tool.namespace is None,
            },
    {
        match self {
            RegisterAgentConfigTool::V1 => ToolName::namespaced(
                MULTI_AGENT_V1_NAMESPACE,
                "register_agent_config",
            ),
            RegisterAgentConfigTool::V2 => ToolName::plain("register_agent_config"),
        }
    }

    /// The words by which the tool is found, if it can be searched for.
    pub fn search_info(&self) -> (words: Option<String>)
        ensures
            match self {
                RegisterAgentConfigTool::V1 => words is Some && words->0@
                    == REGISTER_AGENT_CONFIG_SEARCH@,
                RegisterAgentConfigTool::V2 => words is None,
            },
    {
        match self {
            RegisterAgentConfigTool::V1 => Some(REGISTER_AGENT_CONFIG_SEARCH.to_string()),
            RegisterAgentConfigTool::V2 => None,
        }
    }
}

/// What a tool is called with.
#[derive(Debug, PartialEq, Eq)]
pub enum ToolPayload {
    Function { arguments: String },
    Other,
}

/// Whether the tools take `payload`.
pub fn matches_kind(payload: &ToolPayload) -> (matches: bool)
    ensures
        matches == (*payload is Function),
{
    match payload {
        ToolPayload::Function { .. } => true,
        ToolPayload::Other => false,
    }
}

/// How a tool is described to the model. `F` describes one function.
#[derive(Debug, PartialEq, Eq)]
pub enum ToolSpec<F> {
    Function(F),
    Namespace { name: String, description: String, tools: Vec<F> },
    Other,
}

/// The description of a function, moved into the namespace of the tools.
pub fn codexx_namespace_spec<F>(spec: ToolSpec<F>, description: &str) -> (moved: ToolSpec<F>)
    ensures
        match spec {
            ToolSpec::Function(tool) => {
                &&& moved is Namespace
                &&& moved->name@ == CODEXX_MULTI_AGENT_NAMESPACE@
                &&& moved->description@ == description@
                &&& moved->tools@ == seq![tool]
            },
            _ => moved == spec,
        },
{
    match spec {
        ToolSpec::Function(tool) => {
            let mut tools: Vec<F> = Vec::new();
            tools.push(tool);
            ToolSpec::Namespace {
                name: CODEXX_MULTI_AGENT_NAMESPACE.to_string(),
                description: description.to_string(),
                tools,
            }
        },
        spec => spec,
    }
}

/// Why a tool call fails.
#[derive(Debug, PartialEq, Eq)]
pub enum FunctionCallError {
    /// The model is told.
    RespondToModel(String),
    /// Anything else.
    Other(String),
}

/// What an agent is doing. States that no decision depends on are carried by
/// name.
#[derive(Debug, PartialEq, Eq)]
pub enum AgentStatus {
    /// No agent with that id is loaded.
    NotFound,
    Shutdown,
    Completed(Option<String>),
    Other(String),
}

impl Clone for AgentStatus {
    fn clone(&self) -> (copy: Self)
        ensures
            copy == *self,
    {
        match self {
            AgentStatus::NotFound => AgentStatus::NotFound,
            AgentStatus::Shutdown => AgentStatus::Shutdown,
            AgentStatus::Completed(message) => AgentStatus::Completed(copy_opt(message)),
            AgentStatus::Other(name) => AgentStatus::Other(name.clone()),
        }
    }
}

/// What is known of an agent.
#[derive(Debug, PartialEq, Eq)]
pub struct AgentMetadata {
    pub agent_path: Option<String>,
    pub agent_nickname: Option<String>,
    pub agent_role: Option<String>,
}

impl Default for AgentMetadata {
    fn default() -> (metadata: Self)
        ensures
            metadata == (AgentMetadata {
                agent_path: None,
                agent_nickname: None,
                agent_role: None,
            }),
    {
        AgentMetadata { agent_path: None, agent_nickname: None, agent_role: None }
    }
}

/// An agent that a tool call refers to.
#[derive(Debug, PartialEq, Eq)]
pub struct AgentTarget {
    pub thread_id: ThreadId,
    pub agent_path: Option<String>,
    pub label: String,
}

/// Why no agent was found at a path.
#[derive(Debug, PartialEq, Eq)]
pub enum LookupError {
    Unsupported(String),
    Other(String),
}

/// The text of the failure.
pub open spec fn lookup_message(err: LookupError) -> String {
    match err {
        LookupError::Unsupported(message) => message,
        LookupError::Other(message) => message,
    }
}

/// The agent with the id `thread_id`. It is called by its path where that is
/// known.
pub fn target_by_id(thread_id: ThreadId, metadata: Option<AgentMetadata>) -> (target: AgentTarget)
    ensures
        target.thread_id == thread_id,
        match metadata {
            Some(metadata) => target.agent_path == metadata.agent_path,
            None => target.agent_path is None,
        },
        target.label@ == match target.agent_path {
            Some(path) => path@,
            None => thread_id.text(),
        },
{
    let agent_path = match metadata {
        Some(metadata) => metadata.agent_path,
        None => None,
    };
    let label = match &agent_path {
        Some(path) => path.clone(),
        None => thread_id.to_text(),
    };
    AgentTarget { thread_id, agent_path, label }
}

/// The agent at a path, which the target was resolved to.
pub fn target_by_path(agent_path: String, found: Result<ThreadId, LookupError>) -> (target: Result<
    AgentTarget,
    FunctionCallError,
>)
    ensures
        match found {
            Ok(thread_id) => target == Ok::<AgentTarget, FunctionCallError>(
                AgentTarget { thread_id, agent_path: Some(agent_path), label: agent_path },
            ),
            Err(err) => target == Err::<AgentTarget, FunctionCallError>(
                FunctionCallError::RespondToModel(lookup_message(err)),
            ),
        },
{
    match found {
        Ok(thread_id) => {
            let label = agent_path.clone();
            Ok(AgentTarget { thread_id, agent_path: Some(agent_path), label })
        },
        Err(err) => Err(
            FunctionCallError::RespondToModel(
                match err {
                    LookupError::Unsupported(message) => message,
                    LookupError::Other(message) => message,
                },
            ),
        ),
    }
}

/// How a target is looked up.
#[derive(Debug, PartialEq, Eq)]
pub enum TargetLookup {
    /// By its id.
    ById(ThreadId),
    /// By its path, which is taken from the path `base` unless it is canonical.
    ByPath { base: String },
}

/// How a target is looked up: by id where it is a well-formed id, and otherwise
/// by a path as seen from the agent that calls, which is the main thread where
/// it has no path itself.
pub fn resolve_codexx_agent_target(
    parsed: Option<ThreadId>,
    current_agent_path: Option<String>,
) -> (lookup: TargetLookup)
    ensures
        match parsed {
            Some(id) => lookup == TargetLookup::ById(id),
            None => lookup is ByPath && lookup->base@ == match current_agent_path {
                Some(path) => path@,
                None => crate::agent_tree::ROOT_AGENT_PATH@,
            },
        },
{
    match parsed {
        Some(id) => TargetLookup::ById(id),
        None => TargetLookup::ByPath {
            base: match current_agent_path {
                Some(path) => path,
                None => crate::agent_tree::ROOT_AGENT_PATH.to_string(),
            },
        },
    }
}

/// The failure of a path that cannot be resolved.
pub fn unresolved_target(message: String) -> (error: FunctionCallError)
    ensures
        error == FunctionCallError::RespondToModel(message),
{
    FunctionCallError::RespondToModel(message)
}

} // verus!
