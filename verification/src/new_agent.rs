//! The `/agent new` command: choosing a type, and the prompt of the new agent.

use vstd::prelude::*;

use crate::app_state::App;
use crate::order::{ordered, stable_sort, Ranked};
use crate::picker::{AppEvent, SelectionItem, SelectionView};
use crate::text::{
    chars_of, contains_text, find_text, glue, glue3, glue4, join_texts, joined, lemma_lex_less,
    lex_less, occurs_at, text_less, text_of, trim, trim_text,
};
use crate::thread::ThreadId;

verus! {

/// An agent type that can be chosen.
#[derive(Debug, PartialEq, Eq)]
pub struct AgentRoleSummary {
    pub agent_type: String,
    pub description: Option<String>,
    pub nickname_candidates: Option<Vec<String>>,
}

/// The contents of an `AgentRoleSummary`.
#[verifier::ext_equal]
pub struct RoleInfo {
    pub agent_type: Seq<char>,
    pub description: Option<Seq<char>>,
    pub nickname_candidates: Option<Seq<Seq<char>>>,
}

impl DeepView for AgentRoleSummary {
    type V = RoleInfo;

    open spec fn deep_view(&self) -> RoleInfo {
        RoleInfo {
            agent_type: self.agent_type@,
            description: self.description.deep_view(),
            nickname_candidates: match self.nickname_candidates {
                Some(names) => Some(names.deep_view()),
                None => None,
            },
        }
    }
}

impl Ranked for AgentRoleSummary {
    open spec fn ranks_before(a: RoleInfo, b: RoleInfo) -> bool {
        lex_less(a.agent_type, b.agent_type)
    }

    fn precedes(&self, other: &Self) -> (before: bool) {
        text_less(self.agent_type.as_str(), other.agent_type.as_str())
    }

    proof fn lemma_ranks(a: RoleInfo, b: RoleInfo, c: RoleInfo) {
        lemma_lex_less(a.agent_type, b.agent_type, c.agent_type);
        lemma_lex_less(b.agent_type, c.agent_type, a.agent_type);
        lemma_lex_less(c.agent_type, a.agent_type, b.agent_type);
        lemma_lex_less(b.agent_type, a.agent_type, c.agent_type);
        lemma_lex_less(a.agent_type, c.agent_type, b.agent_type);
    }
}

/// An agent type of the configuration.
#[derive(Debug, PartialEq, Eq)]
pub struct AgentRoleConfig {
    pub description: Option<String>,
    pub nickname_candidates: Option<Vec<String>>,
}

/// The agent types of the configuration, in its order.
pub fn agent_roles_from_startup_config(roles: Vec<(String, AgentRoleConfig)>) -> (summaries: Vec<
    AgentRoleSummary,
>)
    ensures
        summaries@ == roles@.map_values(
            |role: (String, AgentRoleConfig)|
                AgentRoleSummary {
                    agent_type: role.0,
                    description: role.1.description,
                    nickname_candidates: role.1.nickname_candidates,
                },
        ),
{
    let mut summaries: Vec<AgentRoleSummary> = Vec::new();
    for role in it: roles
        invariant
            it.seq() == roles@,
            summaries@.len() == it.index(),
            forall|k: int|
                0 <= k < it.index() ==> #[trigger] summaries@[k] == (AgentRoleSummary {
                    agent_type: roles@[k].0,
                    description: roles@[k].1.description,
                    nickname_candidates: roles@[k].1.nickname_candidates,
                }),
    {
        let (agent_type, config) = role;
        summaries.push(
            AgentRoleSummary {
                agent_type,
                description: config.description,
                nickname_candidates: config.nickname_candidates,
            },
        );
    }
    summaries
}

/// The nicknames of a type, if it has any.
pub open spec fn nicknames_of(role: RoleInfo) -> Option<Seq<char>> {
    match role.nickname_candidates {
        Some(names) => if joined(names, ", "@).len() > 0 {
            Some(joined(names, ", "@))
        } else {
            None
        },
        None => None,
    }
}

/// The description of a type, with its nicknames.
pub open spec fn role_description(role: RoleInfo) -> Option<Seq<char>> {
    match (role.description, nicknames_of(role)) {
        (Some(description), Some(nicknames)) => Some(
            description + " nicknames="@ + nicknames,
        ),
        (Some(description), None) => Some(description),
        (None, Some(nicknames)) => Some("nicknames="@ + nicknames),
        (None, None) => None,
    }
}

/// Whether `item` offers the type `role`.
pub open spec fn offers_role(item: SelectionItem, role: RoleInfo, parent: ThreadId) -> bool {
    &&& item.name@ == role.agent_type
    &&& item.description.deep_view() == role_description(role)
    &&& item.search_value is Some
    &&& item.search_value->0@ == role.agent_type + " "@ + match role_description(role) {
        Some(description) => description,
        None => Seq::empty(),
    }
    &&& !item.is_current
    &&& item.is_closed is None
    &&& item.event is OpenAgentNewParamsPrompt
    &&& item.event->OpenAgentNewParamsPrompt_parent_thread_id == parent
    &&& item.event->OpenAgentNewParamsPrompt_agent_type.deep_view() == Some(role.agent_type)
}

fn role_item(role: &AgentRoleSummary, parent_thread_id: ThreadId) -> (item: SelectionItem)
    ensures
        offers_role(item, role.deep_view(), parent_thread_id),
{
    let nicknames = match &role.nickname_candidates {
        Some(names) => {
            let text = join_texts(names, ", ");
            if text.as_str().is_empty() {
                None
            } else {
                Some(text)
            }
        },
        None => None,
    };
    let description = match (&role.description, &nicknames) {
        (Some(description), Some(nicknames)) => Some(
            glue3(description.as_str(), " nicknames=", nicknames.as_str()),
        ),
        (Some(description), None) => Some(description.clone()),
        (None, Some(nicknames)) => Some(glue("nicknames=", nicknames.as_str())),
        (None, None) => None,
    };
    let shown = match &description {
        Some(description) => description.clone(),
        None => String::new(),
    };
    let search_value = glue3(role.agent_type.as_str(), " ", shown.as_str());
    proof {
        assert(search_value@ =~= role.deep_view().agent_type + " "@ + match role_description(
            role.deep_view(),
        ) {
            Some(description) => description,
            None => Seq::empty(),
        });
    }
    SelectionItem {
        name: role.agent_type.clone(),
        description,
        search_value: Some(search_value),
        is_current: false,
        is_closed: None,
        event: AppEvent::OpenAgentNewParamsPrompt {
            parent_thread_id,
            agent_type: Some(role.agent_type.clone()),
        },
    }
}

/// What the `/agent new` command shows first.
#[derive(Debug, PartialEq, Eq)]
pub enum NewAgentPicker {
    Error(String),
    Show(SelectionView),
}

impl App {
    /// The thread that a new agent would belong to.
    pub open spec fn new_agent_parent(&self) -> Option<ThreadId> {
        match self.active_thread_id {
            Some(id) => Some(id),
            None => self.primary_thread_id,
        }
    }

    /// The thread that a new agent would belong to: the one that is displayed, or
    /// else the primary one.
    pub fn parent_for_new_agent(&self) -> (parent: Option<ThreadId>)
        ensures
            parent == self.new_agent_parent(),
    {
        match self.active_thread_id {
            Some(id) => Some(id),
            None => self.primary_thread_id,
        }
    }

    /// What the `/agent new` command shows first: the types to choose from, which
    /// are those that the session knows, or where it cannot tell, those of its
    /// configuration.
    pub fn open_agent_new_picker(
        &self,
        listed: Option<Vec<AgentRoleSummary>>,
        configured: Vec<AgentRoleSummary>,
    ) -> (picker: NewAgentPicker)
        ensures
            match self.new_agent_parent() {
                None => picker is Error && picker->Error_0@
                    == "/agent new is unavailable before the session starts."@,
                Some(parent) => {
                    let roles = ordered::<AgentRoleSummary>(
                        match listed {
                            Some(listed) => listed.deep_view(),
                            None => configured.deep_view(),
                        },
                    );
                    &&& picker is Show
                    &&& picker->Show_0.title@ == "New Subagent"@
                    &&& picker->Show_0.subtitle@
                        == "Choose an agent_type, then enter task_name -- initial message."@
                    &&& picker->Show_0.is_searchable
                    &&& picker->Show_0.initial_selected_idx is None
                    &&& picker->Show_0.items@.len() == roles.len() + 1
                    &&& picker->Show_0.items@[0].name@ == "default"@
                    &&& picker->Show_0.items@[0].description is Some
                    &&& picker->Show_0.items@[0].description->0@
                        == "Spawn without an agent_type override"@
                    &&& picker->Show_0.items@[0].search_value is Some
                    &&& picker->Show_0.items@[0].search_value->0@ == "default"@
                    &&& !picker->Show_0.items@[0].is_current
                    &&& picker->Show_0.items@[0].is_closed is None
                    &&& picker->Show_0.items@[0].event == (AppEvent::OpenAgentNewParamsPrompt {
                        parent_thread_id: parent,
                        agent_type: None,
                    })
                    &&& forall|i: int|
                        0 <= i < roles.len() ==> offers_role(
                            #[trigger] picker->Show_0.items@[i + 1],
                            roles[i],
                            parent,
                        )
                },
            },
    {
        let parent_thread_id = match self.parent_for_new_agent() {
            Some(parent) => parent,
            None => {
                return NewAgentPicker::Error(
                    "/agent new is unavailable before the session starts.".to_string(),
                );
            },
        };
        let roles = stable_sort(
            match listed {
                Some(listed) => listed,
                None => configured,
            },
        );
        let ghost infos = roles.deep_view();
        let mut items: Vec<SelectionItem> = Vec::new();
        items.push(
            SelectionItem {
                name: "default".to_string(),
                description: Some("Spawn without an agent_type override".to_string()),
                search_value: Some("default".to_string()),
                is_current: false,
                is_closed: None,
                event: AppEvent::OpenAgentNewParamsPrompt { parent_thread_id, agent_type: None },
            },
        );
        let ghost first = items@[0];
        let mut i: usize = 0;
        while i < roles.len()
            invariant
                i <= roles@.len(),
                infos == roles.deep_view(),
                items@.len() == i + 1,
                items@[0] == first,
                forall|k: int|
                    0 <= k < i ==> offers_role(
                        #[trigger] items@[k + 1],
                        infos[k],
                        parent_thread_id,
                    ),
            decreases roles@.len() - i,
        {
            let ghost before = items@;
            items.push(role_item(&roles[i], parent_thread_id));
            proof {
                assert forall|k: int| 0 <= k < i + 1 implies offers_role(
                    #[trigger] items@[k + 1],
                    infos[k],
                    parent_thread_id,
                ) by {
                    if k < i {
                        assert(items@[k + 1] == before[k + 1]);
                    }
                }
            }
            i += 1;
        }
        NewAgentPicker::Show(
            SelectionView {
                title: "New Subagent".to_string(),
                subtitle:
                    "Choose an agent_type, then enter task_name -- initial message.".to_string(),
                items,
                initial_selected_idx: None,
                is_searchable: true,
            },
        )
    }
}

/// The part of a trimmed prompt before and the part behind its first `--`, each
/// without the white space around it.
pub open spec fn prompt_parts(prompt: Seq<char>, at: int) -> (Seq<char>, Seq<char>) {
    (trim(prompt.take(at)), trim(prompt.skip(at + 2)))
}

/// Whether the first `--` of `prompt` stands at `at`.
pub open spec fn first_dashes(prompt: Seq<char>, at: int) -> bool {
    &&& occurs_at(prompt, "--"@, at)
    &&& forall|j: int| 0 <= j < at ==> !occurs_at(prompt, "--"@, j)
}

/// The task and the message of a prompt of the form `task_name -- message`, or
/// what is wrong with it.
pub open spec fn parsed_prompt(prompt: Seq<char>) -> Result<(Seq<char>, Seq<char>), Seq<char>> {
    let at = choose|at: int| first_dashes(prompt, at);
    let (task, message) = prompt_parts(prompt, at);
    if !contains_text(prompt, "--"@) {
        Err("Use task_name -- initial message."@)
    } else if task.len() == 0 {
        Err("Agent task_name must not be empty."@)
    } else if message.len() == 0 {
        Err("Agent initial message must not be empty."@)
    } else {
        Ok((task, message))
    }
}

/// There is one first `--` at most, so a prompt has one reading.
pub proof fn lemma_first_dashes_unique(prompt: Seq<char>, a: int, b: int)
    requires
        first_dashes(prompt, a),
        first_dashes(prompt, b),
    ensures
        a == b,
{
}

/// The task and the message of a prompt of the form `task_name -- message`.
pub fn parse_agent_new_prompt(input: &str) -> (parsed: Result<(String, String), String>)
    ensures
        match parsed {
            Ok((task, message)) => parsed_prompt(trim(input@)) == Ok::<
                (Seq<char>, Seq<char>),
                Seq<char>,
            >((task@, message@)),
            Err(err) => parsed_prompt(trim(input@)) == Err::<(Seq<char>, Seq<char>), Seq<char>>(
                err@,
            ),
        },
{
    let trimmed = trim_text(input);
    let chars = chars_of(trimmed.as_str());
    let dashes = chars_of("--");
    let ghost prompt = trim(input@);
    proof {
        reveal_strlit("--");
    }
    let at: usize = match find_text(&chars, &dashes) {
        Some(at) => at,
        None => {
            return Err("Use task_name -- initial message.".to_string());
        },
    };
    let end: usize = chars.len();
    let task_name = trim_text(text_of(&chars, 0, at).as_str());
    let message = trim_text(text_of(&chars, at + 2, end).as_str());
    proof {
        assert(prompt.subrange(0, at as int) =~= prompt.take(at as int));
        assert(prompt.subrange(at + 2, end as int) =~= prompt.skip(at + 2));
        assert(first_dashes(prompt, at as int));
        assert(contains_text(prompt, "--"@));
        lemma_first_dashes_unique(prompt, at as int, choose|at: int| first_dashes(prompt, at));
    }
    if task_name.as_str().is_empty() {
        return Err("Agent task_name must not be empty.".to_string());
    }
    if message.as_str().is_empty() {
        return Err("Agent initial message must not be empty.".to_string());
    }
    Ok((task_name, message))
}

/// What the prompt for a new agent says of the type that was chosen.
pub fn agent_new_context_label(agent_type: &Option<String>) -> (label: String)
    ensures
        label@ == match agent_type {
            Some(agent_type) => "agent_type: "@ + agent_type@,
            None => "agent_type: default"@,
        },
{
    match agent_type {
        Some(agent_type) => glue("agent_type: ", agent_type.as_str()),
        None => "agent_type: default".to_string(),
    }
}

/// What the prompt for a new agent shows.
#[derive(Debug, PartialEq, Eq)]
pub struct PromptView {
    pub title: String,
    pub placeholder: String,
    pub initial_text: String,
    pub context_label: String,
}

/// What the prompt for a new agent shows.
pub fn show_agent_new_params_prompt(agent_type: &Option<String>) -> (view: PromptView)
    ensures
        view.title@ == "New subagent"@,
        view.placeholder@ == "task_name -- initial message"@,
        view.initial_text@.len() == 0,
        view.context_label@ == match agent_type {
            Some(agent_type) => "agent_type: "@ + agent_type@,
            None => "agent_type: default"@,
        },
{
    PromptView {
        title: "New subagent".to_string(),
        placeholder: "task_name -- initial message".to_string(),
        initial_text: String::new(),
        context_label: agent_new_context_label(agent_type),
    }
}

/// What a prompt leads to.
#[derive(Debug, PartialEq, Eq)]
pub enum SpawnStep {
    /// The prompt is wrong: the error is shown and the prompt once more.
    AskAgain { error: String, parent_thread_id: ThreadId, agent_type: Option<String> },
    /// An agent is spawned.
    Spawn {
        parent_thread_id: ThreadId,
        agent_type: Option<String>,
        task_name: String,
        message: String,
    },
}

/// What a prompt leads to.
pub fn spawn_agent_from_prompt(
    parent_thread_id: ThreadId,
    agent_type: Option<String>,
    prompt: String,
) -> (step: SpawnStep)
    ensures
        match parsed_prompt(trim(prompt@)) {
            Ok((task, message)) => {
                &&& step is Spawn
                &&& step->Spawn_parent_thread_id == parent_thread_id
                &&& step->Spawn_agent_type == agent_type
                &&& step->task_name@ == task
                &&& step->message@ == message
            },
            Err(err) => {
                &&& step is AskAgain
                &&& step->error@ == err
                &&& step->AskAgain_parent_thread_id == parent_thread_id
                &&& step->AskAgain_agent_type == agent_type
            },
        },
{
    match parse_agent_new_prompt(prompt.as_str()) {
        Ok((task_name, message)) => SpawnStep::Spawn {
            parent_thread_id,
            agent_type,
            task_name,
            message,
        },
        Err(error) => SpawnStep::AskAgain { error, parent_thread_id, agent_type },
    }
}

/// What is told in the end.
#[derive(Debug, PartialEq, Eq)]
pub enum Notice {
    Info(String),
    Error(String),
}

/// What is told after an agent was spawned and attached, or could not be.
pub fn spawn_notice(
    task_name: &str,
    spawned: Result<ThreadId, String>,
    attached: Result<(), String>,
) -> (notice: Notice)
    ensures
        match spawned {
            Err(err) => notice is Error && notice->Error_0@ == "Failed to spawn subagent: "@ + err@,
            Ok(id) => match attached {
                Ok(_) => notice is Info && notice->Info_0@ == "Spawned subagent "@ + task_name@
                    + "."@,
                Err(err) => notice is Error && notice->Error_0@ == "Spawned agent "@ + id.text()
                    + ", but failed to attach it: "@ + err@,
            },
        },
{
    match spawned {
        Err(err) => Notice::Error(glue("Failed to spawn subagent: ", err.as_str())),
        Ok(id) => match attached {
            Ok(_) => Notice::Info(glue3("Spawned subagent ", task_name, ".")),
            Err(err) => Notice::Error(
                glue4(
                    "Spawned agent ",
                    id.to_text().as_str(),
                    ", but failed to attach it: ",
                    err.as_str(),
                ),
            ),
        },
    }
}

} // verus!
