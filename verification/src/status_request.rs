//! Answering a request of the status interface, step by step.

use vstd::prelude::*;

use crate::agent_tree::{has_agent_tree, is_agent_tree, AgentTreeResponse, ThreadStatusView};
use crate::agent_tree_laws::{distinct_ids, lemma_distinct_ids_have_agent_tree};
use crate::order::increasing;
use crate::status_ipc::{
    agent_tree, all_read, read_infos, status_summary, successor, summarizes, thread_read_result,
    thread_read_target, LoadedPage, LoadedStep, LoadedThreads, RequestIds, ServerRequest,
    StatusMetadata, StatusQuery, StatusSummary, ThreadLoadedListStatusResponse,
    ThreadReadStatusParams, LOADED_LIST_LIMIT,
};
use crate::text::glue;
use crate::thread::{status_info, Thread};

verus! {

/// What a client is told.
#[derive(Debug)]
pub enum StatusReply {
    Summary(StatusSummary),
    LoadedList(ThreadLoadedListStatusResponse),
    Thread(ThreadStatusView),
    Tree(AgentTreeResponse),
}

/// How answering a request ends.
#[derive(Debug)]
pub enum StatusEnd {
    Reply(StatusReply),
    Error(String),
    /// A thread hangs below itself, so that there is no tree.
    Endless,
}

/// A request that is being answered.
#[derive(Debug)]
pub struct StatusRun {
    pub query: StatusQuery,
    pub progress: StatusProgress,
}

/// How far the answer has come.
#[derive(Debug)]
pub enum StatusProgress {
    /// The loaded threads are being listed.
    Listing(LoadedThreads),
    /// The threads `ids` are being read, one after the other; `reads` is what came
    /// back so far.
    Reading { ids: Vec<String>, reads: Vec<Result<Thread, String>> },
}

/// What follows.
#[derive(Debug)]
pub enum StatusTurn {
    /// The app server is asked; see `StatusRun::next_request`.
    Ask(StatusRun),
    End(StatusEnd),
}

/// Whether the answer ends with an error that says `message`.
pub open spec fn refuses_with(turn: StatusTurn, message: Seq<char>) -> bool {
    &&& turn is End
    &&& turn->End_0 is Error
    &&& turn->End_0->Error_0@ == message
}

/// Whether `end` answers `query`, given that reading the threads `ids` gave `reads`.
pub open spec fn answers_query(
    end: StatusEnd,
    query: StatusQuery,
    metadata: StatusMetadata,
    ids: Seq<String>,
    reads: Seq<Result<Thread, String>>,
) -> bool {
    match query {
        StatusQuery::Summary => {
            &&& end is Reply
            &&& end->Reply_0 is Summary
            &&& summarizes(end->Reply_0->Summary_0, metadata, ids, reads)
        },
        StatusQuery::LoadedList => {
            &&& end is Reply
            &&& end->Reply_0 is LoadedList
            &&& end->Reply_0->LoadedList_0.thread_ids@ == ids
        },
        StatusQuery::ThreadRead => match reads[0] {
            Ok(thread) => {
                &&& end is Reply
                &&& end->Reply_0 is Thread
                &&& end->Reply_0->Thread_0.deep_view() == status_info(thread)
            },
            Err(err) => end is Error && end->Error_0@ == "thread/read failed: "@ + err@,
        },
        StatusQuery::AgentTree => if has_agent_tree(read_infos(reads)) {
            &&& end is Reply
            &&& end->Reply_0 is Tree
            &&& is_agent_tree(end->Reply_0->Tree_0.deep_view(), read_infos(reads))
        } else {
            end is Endless
        },
    }
}

impl StatusRun {
    pub open spec fn wf(&self) -> bool {
        match self.progress {
            StatusProgress::Listing(_) => !(self.query is ThreadRead),
            StatusProgress::Reading { ids, reads } => {
                &&& reads@.len() < ids@.len()
                &&& !(self.query is LoadedList)
                &&& self.query is ThreadRead ==> ids@.len() == 1
                &&& self.query is AgentTree ==> all_read(reads@)
            },
        }
    }

    /// How answering `query` begins. `params` are the parameters of a request for one
    /// thread.
    pub fn begin(query: StatusQuery, params: Result<ThreadReadStatusParams, String>) -> (turn:
        StatusTurn)
        ensures
            turn is Ask ==> turn->Ask_0.wf() && turn->Ask_0.query == query,
            match query {
                StatusQuery::ThreadRead => match params {
                    Ok(params) => {
                        &&& turn is Ask
                        &&& turn->Ask_0.progress is Reading
                        &&& turn->Ask_0.progress->ids@ == seq![params.thread_id]
                        &&& turn->Ask_0.progress->reads@.len() == 0
                    },
                    Err(err) => refuses_with(turn, "invalid thread/read params: "@ + err@),
                },
                _ => {
                    &&& turn is Ask
                    &&& turn->Ask_0.progress is Listing
                    &&& turn->Ask_0.progress->Listing_0.ids@.len() == 0
                    &&& turn->Ask_0.progress->Listing_0.cursor is None
                },
            },
    {
        match query {
            StatusQuery::ThreadRead => match thread_read_target(params) {
                Ok(thread_id) => {
                    let ids = vec![thread_id];
                    let reads: Vec<Result<Thread, String>> = Vec::new();
                    StatusTurn::Ask(
                        StatusRun { query, progress: StatusProgress::Reading { ids, reads } },
                    )
                },
                Err(message) => StatusTurn::End(StatusEnd::Error(message)),
            },
            _ => StatusTurn::Ask(
                StatusRun { query, progress: StatusProgress::Listing(LoadedThreads::new()) },
            ),
        }
    }

    /// What the app server is asked: for the next page of loaded threads, or for the
    /// next thread.
    pub fn next_request(&self, request_ids: &mut RequestIds) -> (request: ServerRequest)
        requires
            self.wf(),
        ensures
            request == match self.progress {
                StatusProgress::Listing(loaded) => ServerRequest::ThreadLoadedList {
                    request_id: old(request_ids).next,
                    cursor: loaded.cursor,
                    limit: Some(LOADED_LIST_LIMIT),
                },
                StatusProgress::Reading { ids, reads } => ServerRequest::ThreadRead {
                    request_id: old(request_ids).next,
                    thread_id: ids@[reads@.len() as int],
                    include_turns: false,
                },
            },
            final(request_ids).next == successor(old(request_ids).next),
    {
        match &self.progress {
            StatusProgress::Listing(loaded) => request_ids.loaded_list_request(loaded),
            StatusProgress::Reading { ids, reads } => request_ids.thread_read_request(
                ids[reads.len()].clone(),
            ),
        }
    }

    /// What follows when the app server has listed a page of loaded threads, or could
    /// not.
    pub fn listed(self, page: Result<LoadedPage, String>, metadata: &StatusMetadata) -> (turn:
        StatusTurn)
        requires
            self.wf(),
            self.progress is Listing,
        ensures
            turn is Ask ==> turn->Ask_0.wf() && turn->Ask_0.query == self.query,
            ({
                let loaded = self.progress->Listing_0;
                match page {
                    Err(err) => refuses_with(turn, "thread/loaded/list failed: "@ + err@),
                    Ok(page) => match page.next_cursor {
                        Some(cursor) => {
                            &&& turn is Ask
                            &&& turn->Ask_0.progress is Listing
                            &&& turn->Ask_0.progress->Listing_0.ids@ == loaded.ids@ + page.data@
                            &&& turn->Ask_0.progress->Listing_0.cursor == Some(cursor)
                        },
                        None => exists|ids: Vec<String>|
                            {
                                &&& increasing(ids.deep_view())
                                &&& ids.deep_view().to_set() == (loaded.ids.deep_view()
                                    + page.data.deep_view()).to_set()
                                &&& #[trigger] all_listed(turn, self.query, *metadata, ids)
                            },
                    },
                }
            }),
    {
        let query = self.query;
        let loaded = match self.progress {
            StatusProgress::Listing(loaded) => loaded,
            StatusProgress::Reading { .. } => vstd::pervasive::unreached(),
        };
        match loaded.load_all_thread_ids(page) {
            LoadedStep::Failed(message) => StatusTurn::End(StatusEnd::Error(message)),
            LoadedStep::More(loaded) => StatusTurn::Ask(
                StatusRun { query, progress: StatusProgress::Listing(loaded) },
            ),
            LoadedStep::Complete(ids) => {
                let reads: Vec<Result<Thread, String>> = Vec::new();
                let ghost listed = ids;
                let is_list = match query {
                    StatusQuery::LoadedList => true,
                    _ => false,
                };
                let turn = if is_list || ids.len() == 0 {
                    StatusTurn::End(finish(query, metadata, ids, reads))
                } else {
                    StatusTurn::Ask(
                        StatusRun { query, progress: StatusProgress::Reading { ids, reads } },
                    )
                };
                proof {
                    assert(reads@ =~= Seq::empty());
                    assert(all_listed(turn, query, *metadata, listed));
                }
                turn
            },
        }
    }

    /// What follows when the app server has read a thread, or could not.
    pub fn read(self, read: Result<Thread, String>, metadata: &StatusMetadata) -> (turn: StatusTurn)
        requires
            self.wf(),
            self.progress is Reading,
        ensures
            turn is Ask ==> turn->Ask_0.wf() && turn->Ask_0.query == self.query,
            ({
                let ids = self.progress->ids;
                let reads = self.progress->reads@.push(read);
                if self.query is AgentTree && read is Err {
                    refuses_with(turn, "thread/read failed: "@ + read->Err_0@)
                } else if reads.len() < ids@.len() {
                    &&& turn is Ask
                    &&& turn->Ask_0.progress is Reading
                    &&& turn->Ask_0.progress->ids == ids
                    &&& turn->Ask_0.progress->reads@ == reads
                } else {
                    &&& turn is End
                    &&& answers_query(turn->End_0, self.query, *metadata, ids@, reads)
                }
            }),
    {
        let query = self.query;
        let (ids, mut reads) = match self.progress {
            StatusProgress::Reading { ids, reads } => (ids, reads),
            StatusProgress::Listing(_) => vstd::pervasive::unreached(),
        };
        if let StatusQuery::AgentTree = query {
            if let Err(err) = &read {
                return StatusTurn::End(
                    StatusEnd::Error(glue("thread/read failed: ", err.as_str())),
                );
            }
        }
        reads.push(read);
        if reads.len() < ids.len() {
            StatusTurn::Ask(StatusRun { query, progress: StatusProgress::Reading { ids, reads } })
        } else {
            StatusTurn::End(finish(query, metadata, ids, reads))
        }
    }
}

/// Whether `turn` is what follows when the loaded threads are known to be `ids`: a
/// client that asked for them is told, and else they are read, if there are any.
pub open spec fn all_listed(
    turn: StatusTurn,
    query: StatusQuery,
    metadata: StatusMetadata,
    ids: Vec<String>,
) -> bool {
    if query is LoadedList || ids@.len() == 0 {
        &&& turn is End
        &&& answers_query(turn->End_0, query, metadata, ids@, Seq::empty())
    } else {
        &&& turn is Ask
        &&& turn->Ask_0.progress is Reading
        &&& turn->Ask_0.progress->ids == ids
        &&& turn->Ask_0.progress->reads@.len() == 0
    }
}

/// The answer to `query`, given what reading the threads `ids` gave.
fn finish(
    query: StatusQuery,
    metadata: &StatusMetadata,
    ids: Vec<String>,
    reads: Vec<Result<Thread, String>>,
) -> (end: StatusEnd)
    requires
        query is Summary ==> reads@.len() == ids@.len(),
        query is ThreadRead ==> reads@.len() == 1,
        query is AgentTree ==> all_read(reads@),
    ensures
        answers_query(end, query, *metadata, ids@, reads@),
{
    match query {
        StatusQuery::Summary => StatusEnd::Reply(
            StatusReply::Summary(status_summary(metadata, &ids, &reads)),
        ),
        StatusQuery::LoadedList => StatusEnd::Reply(
            StatusReply::LoadedList(ThreadLoadedListStatusResponse { thread_ids: ids }),
        ),
        StatusQuery::ThreadRead => {
            let mut reads = reads;
            let read = reads.remove(0);
            match thread_read_result(read) {
                Ok(view) => StatusEnd::Reply(StatusReply::Thread(view)),
                Err(message) => StatusEnd::Error(message),
            }
        },
        StatusQuery::AgentTree => match agent_tree(reads) {
            Ok(Some(tree)) => StatusEnd::Reply(StatusReply::Tree(tree)),
            Ok(None) => StatusEnd::Endless,
            Err(message) => StatusEnd::Error(message),
        },
    }
}

/// A client that asks for the tree of threads with distinct ids, all of which could
/// be read, is told the tree.
pub proof fn lemma_distinct_threads_are_answered(
    end: StatusEnd,
    metadata: StatusMetadata,
    ids: Seq<String>,
    reads: Seq<Result<Thread, String>>,
)
    requires
        all_read(reads),
        distinct_ids(read_infos(reads)),
        answers_query(end, StatusQuery::AgentTree, metadata, ids, reads),
    ensures
        end is Reply,
        end->Reply_0 is Tree,
        is_agent_tree(end->Reply_0->Tree_0.deep_view(), read_infos(reads)),
{
    lemma_distinct_ids_have_agent_tree(read_infos(reads));
}

} // verus!
