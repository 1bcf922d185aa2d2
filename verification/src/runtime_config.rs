//! The configuration that an agent runs with, and what of it an agent keeps that is
//! brought back.

use vstd::prelude::*;

use crate::text::{copy_opt, copy_texts};
use crate::thread::ThreadId;

verus! {

/// The settings of an agent that the record of its turns holds, each in the form in
/// which it is recorded.
#[derive(Debug, PartialEq, Eq)]
pub struct RuntimeSettings {
    pub model: String,
    pub reasoning_effort: Option<String>,
    pub approval_policy: String,
    pub permission_profile: String,
    pub cwd: String,
    pub workspace_roots: Vec<String>,
}

/// The configuration of an agent as it was last seen running. It also holds what the
/// record of the turns does not.
#[derive(Debug, PartialEq, Eq)]
pub struct ConfigSnapshot {
    pub settings: RuntimeSettings,
    pub shell_environment_policy: String,
}

/// What is known of the configuration of an agent that no longer runs.
#[derive(Debug, PartialEq, Eq)]
pub struct RecordedConfig {
    /// The settings of its last turn, where its turns can be read.
    pub turn_context: Option<RuntimeSettings>,
    /// The last snapshot, where there is one.
    pub snapshot: Option<ConfigSnapshot>,
}

/// The configuration that an agent is brought back with. What is absent was never
/// recorded.
#[derive(Debug, PartialEq, Eq)]
pub struct RestoredConfig {
    pub settings: Option<RuntimeSettings>,
    pub shell_environment_policy: Option<String>,
}

/// The configuration that an agent is brought back with: the settings of its last
/// turn, or else those of the last snapshot, and the shell environment policy of the
/// snapshot.
pub open spec fn own_config(recorded: RecordedConfig) -> RestoredConfig {
    RestoredConfig {
        settings: match (recorded.turn_context, recorded.snapshot) {
            (Some(context), _) => Some(context),
            (None, Some(snapshot)) => Some(snapshot.settings),
            (None, None) => None,
        },
        shell_environment_policy: match recorded.snapshot {
            Some(snapshot) => Some(snapshot.shell_environment_policy),
            None => None,
        },
    }
}

/// The configuration that an agent is brought back with.
pub fn restored_config(recorded: RecordedConfig) -> (config: RestoredConfig)
    ensures
        config == own_config(recorded),
{
    match (recorded.turn_context, recorded.snapshot) {
        (Some(context), Some(snapshot)) => RestoredConfig {
            settings: Some(context),
            shell_environment_policy: Some(snapshot.shell_environment_policy),
        },
        (Some(context), None) => RestoredConfig {
            settings: Some(context),
            shell_environment_policy: None,
        },
        (None, Some(snapshot)) => RestoredConfig {
            settings: Some(snapshot.settings),
            shell_environment_policy: Some(snapshot.shell_environment_policy),
        },
        (None, None) => RestoredConfig { settings: None, shell_environment_policy: None },
    }
}

/// What a role sets of the configuration of its agents.
#[derive(Debug, PartialEq, Eq)]
pub struct RoleSettings {
    pub model: Option<String>,
    pub reasoning_effort: Option<String>,
    pub approval_policy: Option<String>,
    pub permission_profile: Option<String>,
    pub cwd: Option<String>,
    pub workspace_roots: Option<Vec<String>>,
    pub shell_environment_policy: Option<String>,
}

/// What a role sets, or else what `parent` has.
pub open spec fn set_or<T>(set: Option<T>, parent: T) -> T {
    match set {
        Some(value) => value,
        None => parent,
    }
}

/// Whether `config` is that of an agent of a role which an agent with the configuration
/// `parent` spawns: what the role sets wins, and what it omits is as the parent has it.
pub open spec fn runs_in_role(
    config: ConfigSnapshot,
    role: RoleSettings,
    parent: ConfigSnapshot,
) -> bool {
    &&& config.settings.model == set_or(role.model, parent.settings.model)
    &&& config.settings.reasoning_effort == if role.reasoning_effort is Some {
        role.reasoning_effort
    } else {
        parent.settings.reasoning_effort
    }
    &&& config.settings.approval_policy == set_or(
        role.approval_policy,
        parent.settings.approval_policy,
    )
    &&& config.settings.permission_profile == set_or(
        role.permission_profile,
        parent.settings.permission_profile,
    )
    &&& config.settings.cwd == set_or(role.cwd, parent.settings.cwd)
    &&& config.settings.workspace_roots.deep_view() == set_or(
        role.workspace_roots,
        parent.settings.workspace_roots,
    ).deep_view()
    &&& config.shell_environment_policy == set_or(
        role.shell_environment_policy,
        parent.shell_environment_policy,
    )
}

fn set_text_or(set: &Option<String>, parent: String) -> (text: String)
    ensures
        text == set_or(*set, parent),
{
    match set {
        Some(value) => value.clone(),
        None => parent,
    }
}

/// The configuration of an agent of a role which an agent with the configuration
/// `parent` spawns.
pub fn role_config(role: &RoleSettings, parent: ConfigSnapshot) -> (config: ConfigSnapshot)
    ensures
        runs_in_role(config, *role, parent),
{
    let settings = parent.settings;
    ConfigSnapshot {
        settings: RuntimeSettings {
            model: set_text_or(&role.model, settings.model),
            reasoning_effort: if role.reasoning_effort.is_some() {
                copy_opt(&role.reasoning_effort)
            } else {
                settings.reasoning_effort
            },
            approval_policy: set_text_or(&role.approval_policy, settings.approval_policy),
            permission_profile: set_text_or(&role.permission_profile, settings.permission_profile),
            cwd: set_text_or(&role.cwd, settings.cwd),
            workspace_roots: match &role.workspace_roots {
                Some(roots) => copy_texts(roots),
                None => settings.workspace_roots,
            },
        },
        shell_environment_policy: set_text_or(
            &role.shell_environment_policy,
            parent.shell_environment_policy,
        ),
    }
}

/// Whether `recorded` is what is left of an agent that ran with `config`: each of the
/// two records, where there is one, holds what the agent ran with, and there is at
/// least one.
pub open spec fn records(recorded: RecordedConfig, config: ConfigSnapshot) -> bool {
    &&& recorded.turn_context is Some || recorded.snapshot is Some
    &&& recorded.turn_context is Some ==> recorded.turn_context == Some(config.settings)
    &&& recorded.snapshot is Some ==> recorded.snapshot == Some(config)
}

/// An agent that ran with `config` is brought back with its own model, reasoning
/// effort, approval policy, permission profile, directory and workspace roots, and,
/// where a snapshot of it is left, with its own shell environment policy.
pub proof fn lemma_own_config(recorded: RecordedConfig, config: ConfigSnapshot)
    requires
        records(recorded, config),
    ensures
        ({
            let restored = own_config(recorded);
            &&& restored.settings is Some
            &&& restored.settings->0.model == config.settings.model
            &&& restored.settings->0.reasoning_effort == config.settings.reasoning_effort
            &&& restored.settings->0.approval_policy == config.settings.approval_policy
            &&& restored.settings->0.permission_profile == config.settings.permission_profile
            &&& restored.settings->0.cwd == config.settings.cwd
            &&& restored.settings->0.workspace_roots == config.settings.workspace_roots
            &&& restored.shell_environment_policy is Some <==> recorded.snapshot is Some
            &&& recorded.snapshot is Some ==> restored.shell_environment_policy == Some(
                config.shell_environment_policy,
            )
        }),
{
}

/// Whose configuration a thread is resumed with.
#[derive(Debug, Clone, Copy, PartialEq, Eq, Structural)]
pub enum ConfigSource {
    /// That which is stored with the thread: no model and no permissions are passed
    /// on to it.
    Stored,
    /// That of the session that resumes it.
    Session,
}

/// What the app server is asked for when a thread is resumed.
#[derive(Debug, Clone, Copy, PartialEq, Eq, Structural)]
pub struct ThreadResume {
    pub thread_id: ThreadId,
    pub config: ConfigSource,
}

impl ThreadResume {
    /// How the thread of an agent is resumed: it keeps its own configuration.
    pub fn of_agent(thread_id: ThreadId) -> (resume: Self)
        ensures
            resume == (ThreadResume { thread_id, config: ConfigSource::Stored }),
    {
        ThreadResume { thread_id, config: ConfigSource::Stored }
    }
}

} // verus!
