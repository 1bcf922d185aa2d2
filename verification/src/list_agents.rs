//! The list of the agents of a session, past and present.

use vstd::prelude::*;

use crate::order::{
    in_order, lemma_ordered, lemma_ordered_contains, ordered, stable_sort, Ranked,
};
use crate::text::{
    contains_text, join_texts, joined, lemma_lex_less, lemma_opt_lex_less, lex_less,
    opt_lex_less, opt_text_less, same_opt_text, same_text, text_contains, text_less,
};

verus! {

/// Which agents are asked for. A filter that is absent lets every agent through.
#[derive(Debug, PartialEq, Eq)]
pub struct ListAgentsArgs {
    pub thread_id: Option<String>,
    pub task_name: Option<String>,
    pub agent_path: Option<String>,
    pub query: Option<String>,
    pub limit: Option<usize>,
}

/// One agent of the list.
#[derive(Debug, PartialEq, Eq)]
pub struct ListedAgent {
    pub task_name: Option<String>,
    pub agent_path: Option<String>,
    pub thread_id: String,
    pub agent_type: Option<String>,
    pub nickname: Option<String>,
    pub live_status: String,
    pub summary: String,
}

/// The contents of a `ListedAgent`.
#[verifier::ext_equal]
pub struct AgentRecord {
    pub task_name: Option<Seq<char>>,
    pub agent_path: Option<Seq<char>>,
    pub thread_id: Seq<char>,
    pub agent_type: Option<Seq<char>>,
    pub nickname: Option<Seq<char>>,
    pub live_status: Seq<char>,
    pub summary: Seq<char>,
}

impl DeepView for ListedAgent {
    type V = AgentRecord;

    open spec fn deep_view(&self) -> AgentRecord {
        AgentRecord {
            task_name: self.task_name.deep_view(),
            agent_path: self.agent_path.deep_view(),
            thread_id: self.thread_id@,
            agent_type: self.agent_type.deep_view(),
            nickname: self.nickname.deep_view(),
            live_status: self.live_status@,
            summary: self.summary@,
        }
    }
}

impl Ranked for ListedAgent {
    open spec fn ranks_before(a: AgentRecord, b: AgentRecord) -> bool {
        ||| opt_lex_less(a.agent_path, b.agent_path)
        ||| a.agent_path == b.agent_path && lex_less(a.thread_id, b.thread_id)
    }

    fn precedes(&self, other: &Self) -> (before: bool) {
        opt_text_less(&self.agent_path, &other.agent_path) || (same_opt_text(
            &self.agent_path,
            &other.agent_path,
        ) && text_less(self.thread_id.as_str(), other.thread_id.as_str()))
    }

    proof fn lemma_ranks(a: AgentRecord, b: AgentRecord, c: AgentRecord) {
        lemma_opt_lex_less(a.agent_path, b.agent_path, c.agent_path);
        lemma_opt_lex_less(b.agent_path, c.agent_path, a.agent_path);
        lemma_opt_lex_less(c.agent_path, a.agent_path, b.agent_path);
        lemma_opt_lex_less(b.agent_path, a.agent_path, c.agent_path);
        lemma_opt_lex_less(c.agent_path, b.agent_path, a.agent_path);
        lemma_opt_lex_less(a.agent_path, c.agent_path, b.agent_path);
        lemma_lex_less(a.thread_id, b.thread_id, c.thread_id);
        lemma_lex_less(b.thread_id, c.thread_id, a.thread_id);
        lemma_lex_less(c.thread_id, a.thread_id, b.thread_id);
        lemma_lex_less(b.thread_id, a.thread_id, c.thread_id);
        lemma_lex_less(a.thread_id, c.thread_id, b.thread_id);
    }
}

/// The list.
#[derive(Debug, PartialEq, Eq)]
pub struct ListAgentsResult {
    pub agents: Vec<ListedAgent>,
    pub table: String,
    /// Whether the limit cut agents off.
    pub truncated: bool,
    /// Whether the caller has to choose an agent and call again.
    pub selection_required: bool,
}

/// Whether a text that may be absent is the one asked for.
pub open spec fn passes(filter: Option<Seq<char>>, text: Option<Seq<char>>) -> bool {
    filter is Some ==> text == filter
}

/// Whether a text that may be absent contains `query`.
pub open spec fn mentions(text: Option<Seq<char>>, query: Seq<char>) -> bool {
    text is Some && contains_text(text->0, query)
}

/// Whether some column of an agent contains `query`.
pub open spec fn found_by(agent: AgentRecord, query: Seq<char>) -> bool {
    ||| mentions(agent.task_name, query)
    ||| mentions(agent.agent_path, query)
    ||| contains_text(agent.thread_id, query)
    ||| mentions(agent.agent_type, query)
    ||| mentions(agent.nickname, query)
    ||| contains_text(agent.summary, query)
}

/// Whether an agent passes all filters.
pub open spec fn selected(args: ListAgentsArgs, agent: AgentRecord) -> bool {
    &&& passes(args.thread_id.deep_view(), Some(agent.thread_id))
    &&& passes(args.task_name.deep_view(), agent.task_name)
    &&& passes(args.agent_path.deep_view(), agent.agent_path)
    &&& args.query is Some ==> found_by(agent, args.query->0@)
}

fn filter_passes(filter: &Option<String>, text: &Option<String>) -> (pass: bool)
    ensures
        pass == passes(filter.deep_view(), text.deep_view()),
{
    match filter {
        Some(_) => same_opt_text(text, filter),
        None => true,
    }
}

fn opt_contains(text: &Option<String>, query: &str) -> (found: bool)
    ensures
        found == mentions(text.deep_view(), query@),
{
    match text {
        Some(text) => text_contains(text.as_str(), query),
        None => false,
    }
}

/// Whether an agent passes all filters.
fn is_selected(args: &ListAgentsArgs, agent: &ListedAgent) -> (pass: bool)
    ensures
        pass == selected(*args, agent.deep_view()),
{
    let by_id = match &args.thread_id {
        Some(id) => same_text(agent.thread_id.as_str(), id.as_str()),
        None => true,
    };
    let by_query = match &args.query {
        Some(query) => {
            let query = query.as_str();
            opt_contains(&agent.task_name, query) || opt_contains(&agent.agent_path, query)
                || text_contains(agent.thread_id.as_str(), query) || opt_contains(
                &agent.agent_type,
                query,
            ) || opt_contains(&agent.nickname, query) || text_contains(
                agent.summary.as_str(),
                query,
            )
        },
        None => true,
    };
    by_id && filter_passes(&args.task_name, &agent.task_name) && filter_passes(
        &args.agent_path,
        &agent.agent_path,
    ) && by_query
}

/// The agents that are asked for, by path and id.
pub open spec fn selection(args: ListAgentsArgs, agents: Seq<AgentRecord>) -> Seq<AgentRecord> {
    ordered::<ListedAgent>(agents.filter(|agent: AgentRecord| selected(args, agent)))
}

/// The list, before the limit is applied, holds the agents that pass all filters
/// and no others, by path and id.
pub proof fn lemma_selection(args: ListAgentsArgs, agents: Seq<AgentRecord>, agent: AgentRecord)
    ensures
        selection(args, agents).contains(agent) <==> agents.contains(agent) && selected(
            args,
            agent,
        ),
        in_order::<ListedAgent>(selection(args, agents)),
{
    broadcast use vstd::seq_lib::group_filter_ensures;

    let pred = |a: AgentRecord| selected(args, a);
    let chosen = agents.filter(pred);
    lemma_ordered::<ListedAgent>(chosen, agent);
    lemma_ordered_contains::<ListedAgent>(chosen, agent);
    if chosen.contains(agent) {
        let i = chosen.index_of(agent);
        assert(pred(chosen[i]));
        agents.lemma_filter_contains_rev(pred, agent);
    }
    if agents.contains(agent) && pred(agent) {
        let i = agents.index_of(agent);
        assert(chosen.contains(agents[i]));
    }
}

/// How many of `count` agents the limit lets through.
pub open spec fn limited(limit: Option<usize>, count: nat) -> nat {
    match limit {
        Some(limit) => if limit < count {
            limit as nat
        } else {
            count
        },
        None => count,
    }
}

/// `text`, or a dash where there is none.
pub open spec fn cell_of(text: Option<Seq<char>>) -> Seq<char> {
    match text {
        Some(text) => text,
        None => "-"@,
    }
}

/// The cells of an agent.
pub open spec fn agent_cells(agent: AgentRecord) -> Seq<Seq<char>> {
    seq![
        cell_of(agent.task_name),
        cell_of(agent.agent_path),
        agent.thread_id,
        cell_of(agent.agent_type),
        cell_of(agent.nickname),
        agent.live_status,
        agent.summary,
    ]
}

/// The names of the columns.
pub open spec fn table_head() -> Seq<Seq<char>> {
    seq![
        "TASK"@,
        "AGENT PATH"@,
        "THREAD ID"@,
        "AGENT TYPE"@,
        "NICKNAME"@,
        "STATUS"@,
        "SUMMARY"@,
    ]
}

/// The lines of the table: the names of the columns and then the agents.
pub open spec fn table_lines(agents: Seq<AgentRecord>) -> Seq<Seq<char>> {
    seq![joined(table_head(), " | "@)] + agents.map_values(
        |agent: AgentRecord| joined(agent_cells(agent), " | "@),
    )
}

fn cell_text(text: &Option<String>) -> (cell: String)
    ensures
        cell@ == cell_of(text.deep_view()),
{
    match text {
        Some(text) => text.clone(),
        None => "-".to_string(),
    }
}

/// One line of the table.
fn agent_line(agent: &ListedAgent) -> (line: String)
    ensures
        line@ == joined(agent_cells(agent.deep_view()), " | "@),
{
    let mut cells: Vec<String> = Vec::new();
    cells.push(cell_text(&agent.task_name));
    cells.push(cell_text(&agent.agent_path));
    cells.push(agent.thread_id.clone());
    cells.push(cell_text(&agent.agent_type));
    cells.push(cell_text(&agent.nickname));
    cells.push(agent.live_status.clone());
    cells.push(agent.summary.clone());
    proof {
        assert(cells.deep_view() =~= agent_cells(agent.deep_view()));
    }
    join_texts(&cells, " | ")
}

/// The table of `agents`.
fn agent_table(agents: &Vec<ListedAgent>) -> (table: String)
    ensures
        table@ == joined(table_lines(agents.deep_view()), "\n"@),
{
    let mut head: Vec<String> = Vec::new();
    head.push("TASK".to_string());
    head.push("AGENT PATH".to_string());
    head.push("THREAD ID".to_string());
    head.push("AGENT TYPE".to_string());
    head.push("NICKNAME".to_string());
    head.push("STATUS".to_string());
    head.push("SUMMARY".to_string());
    proof {
        assert(head.deep_view() =~= table_head());
    }
    let mut lines: Vec<String> = Vec::new();
    lines.push(join_texts(&head, " | "));
    let mut i: usize = 0;
    while i < agents.len()
        invariant
            i <= agents@.len(),
            lines@.len() == i + 1,
            lines@[0]@ == joined(table_head(), " | "@),
            forall|k: int|
                0 <= k < i ==> (#[trigger] lines@[k + 1])@ == joined(
                    agent_cells(agents@[k].deep_view()),
                    " | "@,
                ),
        decreases agents@.len() - i,
    {
        lines.push(agent_line(&agents[i]));
        i += 1;
    }
    proof {
        let expected = table_lines(agents.deep_view());
        assert forall|k: int| 0 <= k < expected.len() implies #[trigger] lines.deep_view()[k]
            == expected[k] by {
            if k > 0 {
                assert(lines@[(k - 1) + 1]@ == joined(
                    agent_cells(agents@[k - 1].deep_view()),
                    " | "@,
                ));
            }
        }
        assert(lines.deep_view() =~= expected);
    }
    join_texts(&lines, "\n")
}

/// The agents that are asked for, as rows and as a table.
pub fn list_agents(
    args: &ListAgentsArgs,
    agents: Vec<ListedAgent>,
    selection_required: bool,
) -> (result: ListAgentsResult)
    ensures
        ({
            let all = selection(*args, agents.deep_view());
            let shown = all.take(limited(args.limit, all.len()) as int);
            &&& result.agents.deep_view() == shown
            &&& result.table@ == joined(table_lines(shown), "\n"@)
            &&& result.truncated == (shown.len() < all.len())
            &&& result.selection_required == selection_required
        }),
{
    let ghost given = agents.deep_view();
    let ghost pred = |agent: AgentRecord| selected(*args, agent);
    let mut chosen: Vec<ListedAgent> = Vec::new();
    proof {
        assert(given.take(0).filter(pred) =~= Seq::empty()) by {
            reveal(Seq::filter);
        }
        assert(chosen.deep_view() =~= Seq::empty());
    }
    for agent in it: agents
        invariant
            it.seq() == agents@,
            given == agents.deep_view(),
            pred == (|agent: AgentRecord| selected(*args, agent)),
            chosen.deep_view() == given.take(it.index()).filter(pred),
    {
        let ghost n = it.index();
        proof {
            assert(given.take(n + 1) =~= given.take(n).push(given[n]));
            given.take(n).lemma_filter_push(given[n], pred);
        }
        if is_selected(args, &agent) {
            let ghost before = chosen.deep_view();
            chosen.push(agent);
            proof {
                assert(chosen.deep_view() =~= before.push(given[n]));
            }
        }
    }
    proof {
        assert(given.take(given.len() as int) =~= given);
    }
    let sorted = stable_sort(chosen);
    let ghost all = sorted.deep_view();
    let count: usize = sorted.len();
    let keep: usize = match args.limit {
        Some(limit) => if limit < count {
            limit
        } else {
            count
        },
        None => count,
    };
    let mut shown: Vec<ListedAgent> = Vec::new();
    proof {
        assert(shown.deep_view() =~= all.take(0));
    }
    for agent in it: sorted
        invariant
            it.seq() == sorted@,
            all == sorted.deep_view(),
            keep <= all.len(),
            shown.deep_view() == all.take(
                if it.index() < keep {
                    it.index()
                } else {
                    keep as int
                },
            ),
    {
        let ghost n = it.index();
        if shown.len() < keep {
            let ghost before = shown.deep_view();
            shown.push(agent);
            proof {
                assert(before.len() == n);
                assert(shown.deep_view() =~= before.push(all[n]));
                assert(all.take(n + 1) =~= all.take(n).push(all[n]));
            }
        }
    }
    let table = agent_table(&shown);
    ListAgentsResult { agents: shown, table, truncated: keep < count, selection_required }
}

} // verus!
