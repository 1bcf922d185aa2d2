//! Agent types that are registered while a session runs.

use vstd::prelude::*;

use crate::order::{increasing, sort_and_dedup};
use crate::paths::{file_stem, file_stem_of, join_path, joined_path};
use crate::runtime_config::{role_config, runs_in_role, ConfigSnapshot, RoleSettings};
use crate::text::{glue3, same_text};

verus! {

/// What a role file says.
#[derive(Debug, PartialEq, Eq)]
pub struct RoleFile {
    /// The name of the file, without its directory.
    pub file_name: String,
    pub name: Option<String>,
    pub description: Option<String>,
    pub nickname_candidates: Option<Vec<String>>,
    pub settings: RoleSettings,
}

/// A registered agent type.
#[derive(Debug, PartialEq, Eq)]
pub struct AgentRole {
    pub agent_type: String,
    pub description: Option<String>,
    pub nickname_candidates: Option<Vec<String>>,
    /// What its agents are configured with.
    pub settings: RoleSettings,
}

/// The agent type of a role file: the name that it gives, or else the stem of the
/// name of the file.
pub open spec fn type_of(file: RoleFile) -> Seq<char> {
    match file.name {
        Some(name) => if name@.len() > 0 {
            name@
        } else {
            file_stem(file.file_name@)
        },
        None => file_stem(file.file_name@),
    }
}

/// The agent type of a role file.
pub fn agent_type_of(file: &RoleFile) -> (agent_type: String)
    ensures
        agent_type@ == type_of(*file),
{
    match &file.name {
        Some(name) => if name.as_str().is_empty() {
            file_stem_of(file.file_name.as_str())
        } else {
            name.clone()
        },
        None => file_stem_of(file.file_name.as_str()),
    }
}

/// Where a path of a call leads: as seen from the working directory.
pub fn resolve_config_path(cwd: &str, path: &str) -> (resolved: String)
    ensures
        resolved@ == joined_path(cwd@, path@),
{
    join_path(cwd, path)
}

/// The role of `agent_type` among `roles`: the last one counts.
pub open spec fn role_of(roles: Seq<AgentRole>, agent_type: Seq<char>) -> Option<AgentRole>
    decreases roles.len(),
{
    if roles.len() == 0 {
        None
    } else if roles.last().agent_type@ == agent_type {
        Some(roles.last())
    } else {
        role_of(roles.drop_last(), agent_type)
    }
}

/// Whether no agent type occurs twice.
pub open spec fn unique_types(roles: Seq<AgentRole>) -> bool {
    forall|i: int, j: int|
        0 <= i < j < roles.len() ==> (#[trigger] roles[i]).agent_type@ != (
        #[trigger] roles[j]).agent_type@
}

/// The last of `files` that registers `agent_type`.
pub open spec fn last_file(files: Seq<RoleFile>, agent_type: Seq<char>) -> Option<RoleFile>
    decreases files.len(),
{
    if files.len() == 0 {
        None
    } else if type_of(files.last()) == agent_type {
        Some(files.last())
    } else {
        last_file(files.drop_last(), agent_type)
    }
}

/// Whether `role` is what `file` registers.
pub open spec fn registers(file: RoleFile, role: AgentRole) -> bool {
    &&& role.agent_type@ == type_of(file)
    &&& role.description == file.description
    &&& role.nickname_candidates == file.nickname_candidates
    &&& role.settings == file.settings
}

/// Whether the registry `after` is the registry `before` with `files` registered
/// in it: the last file of a type decides, and a type that no file is of stays as
/// it was.
pub open spec fn registered(
    before: Seq<AgentRole>,
    files: Seq<RoleFile>,
    after: Seq<AgentRole>,
) -> bool {
    forall|t: Seq<char>| #[trigger]
        role_of(after, t) is Some == (role_of(before, t) is Some || last_file(files, t) is Some)
            && match last_file(files, t) {
            Some(file) => registers(file, role_of(after, t)->0),
            None => role_of(after, t) == role_of(before, t),
        }
}

/// Whether every file has the description that registration asks for.
pub open spec fn described(files: Seq<RoleFile>) -> bool {
    forall|i: int| 0 <= i < files.len() ==> (#[trigger] files[i]).description is Some
}

proof fn lemma_role_of_update(roles: Seq<AgentRole>, at: int, role: AgentRole, t: Seq<char>)
    requires
        unique_types(roles),
        0 <= at < roles.len(),
        role.agent_type@ == roles[at].agent_type@,
    ensures
        role_of(roles.update(at, role), t) == if t == role.agent_type@ {
            Some(role)
        } else {
            role_of(roles, t)
        },
    decreases roles.len(),
{
    let changed = roles.update(at, role);
    let rest = roles.drop_last();
    if at == roles.len() - 1 {
        assert(changed.drop_last() =~= rest);
    } else {
        assert(changed.drop_last() =~= rest.update(at, role));
        assert(changed.last() == roles.last());
        assert(rest[at] == roles[at]);
        assert(roles[at].agent_type@ != roles[roles.len() - 1].agent_type@);
        assert forall|i: int, j: int| 0 <= i < j < rest.len() implies (
        #[trigger] rest[i]).agent_type@ != (#[trigger] rest[j]).agent_type@ by {
            assert(rest[i] == roles[i] && rest[j] == roles[j]);
        }
        lemma_role_of_update(rest, at, role, t);
    }
}

/// Puts `role` into the registry, in place of the role of the same type.
fn put_role(roles: &mut Vec<AgentRole>, role: AgentRole)
    requires
        unique_types(old(roles)@),
    ensures
        unique_types(final(roles)@),
        forall|t: Seq<char>| #[trigger]
            role_of(final(roles)@, t) == if t == role.agent_type@ {
                Some(role)
            } else {
                role_of(old(roles)@, t)
            },
{
    let ghost before = roles@;
    let mut i: usize = 0;
    while i < roles.len()
        invariant
            i <= roles@.len(),
            roles@ == before,
            before == old(roles)@,
            unique_types(before),
            forall|k: int| 0 <= k < i ==> (#[trigger] before[k]).agent_type@ != role.agent_type@,
        decreases roles@.len() - i,
    {
        if same_text(roles[i].agent_type.as_str(), role.agent_type.as_str()) {
            roles.set(i, role);
            proof {
                let after = before.update(i as int, role);
                assert forall|t: Seq<char>| #[trigger] role_of(after, t) == if t
                    == role.agent_type@ {
                    Some(role)
                } else {
                    role_of(before, t)
                } by {
                    lemma_role_of_update(before, i as int, role, t);
                }
                assert forall|a: int, b: int| 0 <= a < b < after.len() implies (
                #[trigger] after[a]).agent_type@ != (#[trigger] after[b]).agent_type@ by {
                    assert(before[a].agent_type@ != before[b].agent_type@);
                }
            }
            return ;
        }
        i += 1;
    }
    roles.push(role);
    proof {
        assert(roles@.drop_last() =~= before);
        assert forall|a: int, b: int| 0 <= a < b < roles@.len() implies (
        #[trigger] roles@[a]).agent_type@ != (#[trigger] roles@[b]).agent_type@ by {
            if b < before.len() {
                assert(before[a].agent_type@ != before[b].agent_type@);
            } else {
                assert(before[a].agent_type@ != role.agent_type@);
            }
        }
    }
}

/// The names of the registered types, sorted.
pub fn agent_types(roles: &Vec<AgentRole>) -> (types: Vec<String>)
    ensures
        increasing(types.deep_view()),
        types.deep_view().to_set() == roles@.map_values(|role: AgentRole| role.agent_type@).to_set(),
{
    let mut names: Vec<String> = Vec::new();
    let mut i: usize = 0;
    while i < roles.len()
        invariant
            i <= roles@.len(),
            names@.len() == i,
            forall|k: int| 0 <= k < i ==> (#[trigger] names@[k])@ == roles@[k].agent_type@,
        decreases roles@.len() - i,
    {
        names.push(roles[i].agent_type.clone());
        i += 1;
    }
    proof {
        assert(names.deep_view() =~= roles@.map_values(|role: AgentRole| role.agent_type@));
    }
    sort_and_dedup(names)
}

/// Registers the roles of `files`, in order, and returns the names of all
/// registered types. Where a file has no description nothing is registered.
pub fn register_agents(roles: &mut Vec<AgentRole>, files: Vec<RoleFile>) -> (result: Result<
    Vec<String>,
    String,
>)
    requires
        unique_types(old(roles)@),
    ensures
        unique_types(final(roles)@),
        match result {
            Ok(types) => {
                &&& described(files@)
                &&& registered(old(roles)@, files@, final(roles)@)
                &&& increasing(types.deep_view())
                &&& types.deep_view().to_set() == final(roles)@.map_values(
                    |role: AgentRole| role.agent_type@,
                ).to_set()
            },
            Err(message) => {
                &&& *final(roles) == *old(roles)
                &&& exists|i: int|
                    0 <= i < files@.len() && described(files@.take(i)) && (
                    #[trigger] files@[i]).description is None && message@ == "agent role `"@
                        + type_of(files@[i]) + "` must define a description"@
            },
        },
        result is Ok == described(files@),
{
    let mut i: usize = 0;
    while i < files.len()
        invariant
            i <= files@.len(),
            forall|k: int| 0 <= k < i ==> (#[trigger] files@[k]).description is Some,
            *roles == *old(roles),
            unique_types(old(roles)@),
        decreases files@.len() - i,
    {
        if files[i].description.is_none() {
            let agent_type = agent_type_of(&files[i]);
            proof {
                assert(files@[i as int].description is None);
                assert(described(files@.take(i as int)));
            }
            return Err(
                glue3("agent role `", agent_type.as_str(), "` must define a description"),
            );
        }
        i += 1;
    }
    let ghost before = roles@;
    proof {
        assert(files@.take(0) =~= Seq::empty());
    }
    for file in it: files
        invariant
            it.seq() == files@,
            unique_types(roles@),
            registered(before, files@.take(it.index()), roles@),
    {
        let ghost n = it.index();
        let ghost known = roles@;
        let agent_type = agent_type_of(&file);
        let role = AgentRole {
            agent_type,
            description: file.description,
            nickname_candidates: file.nickname_candidates,
            settings: file.settings,
        };
        put_role(roles, role);
        proof {
            assert(files@.take(n + 1).drop_last() =~= files@.take(n));
            assert(files@.take(n + 1).last() == file);
            assert forall|t: Seq<char>| #[trigger]
                role_of(roles@, t) is Some == (role_of(before, t) is Some || last_file(
                    files@.take(n + 1),
                    t,
                ) is Some) && match last_file(files@.take(n + 1), t) {
                    Some(file) => registers(file, role_of(roles@, t)->0),
                    None => role_of(roles@, t) == role_of(before, t),
                } by {
                assert(role_of(known, t) is Some == (role_of(before, t) is Some || last_file(
                    files@.take(n),
                    t,
                ) is Some));
            }
        }
    }
    proof {
        assert(files@.take(files@.len() as int) =~= files@);
    }
    let types = agent_types(roles);
    Ok(types)
}

/// The configuration of an agent of the type `agent_type` which an agent with the
/// configuration `parent` spawns: the settings of the registered role win over those of
/// the parent. `None` where the type is not registered.
pub fn spawn_config(roles: &Vec<AgentRole>, agent_type: &str, parent: ConfigSnapshot) -> (config:
    Option<ConfigSnapshot>)
    ensures
        match role_of(roles@, agent_type@) {
            Some(role) => config is Some && runs_in_role(config->0, role.settings, parent),
            None => config is None,
        },
{
    let mut left: usize = roles.len();
    proof {
        assert(roles@.take(left as int) =~= roles@);
    }
    while left > 0
        invariant
            left <= roles@.len(),
            role_of(roles@, agent_type@) == role_of(roles@.take(left as int), agent_type@),
        decreases left,
    {
        left -= 1;
        proof {
            assert(roles@.take(left + 1).drop_last() =~= roles@.take(left as int));
            assert(roles@.take(left + 1).last() == roles@[left as int]);
        }
        if same_text(roles[left].agent_type.as_str(), agent_type) {
            return Some(role_config(&roles[left].settings, parent));
        }
    }
    None
}

/// An agent that is spawned after its type was registered is configured by the last of
/// the role files of that type.
pub proof fn lemma_spawn_uses_registered(
    before: Seq<AgentRole>,
    files: Seq<RoleFile>,
    after: Seq<AgentRole>,
    agent_type: Seq<char>,
)
    requires
        registered(before, files, after),
        last_file(files, agent_type) is Some,
    ensures
        role_of(after, agent_type) is Some,
        role_of(after, agent_type)->0.settings == last_file(files, agent_type)->0.settings,
{
    assert(role_of(after, agent_type) is Some);
}

} // verus!
