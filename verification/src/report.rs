//! What the reports of failed app-server requests tell.

use vstd::prelude::*;

use crate::app_state::App;
use crate::text::{contains_text, text_contains};

verus! {

/// `color_eyre::Report`, which failed requests come back as.
#[verifier::external_type_specification]
#[verifier::external_body]
pub struct ExReport(color_eyre::Report);

/// The messages of the errors that `report` is made of, from the error that it
/// was created from down to the cause of all others.
pub uninterp spec fn cause_messages(report: color_eyre::Report) -> Seq<Seq<char>>;

/// `Report::chain`: the errors that `report` is made of, each taken by its
/// message. There is always at least one, the error that the report was created
/// from. The messages themselves are those of the errors and are not restated.
#[verifier::external_body]
fn messages_of(report: &color_eyre::Report) -> (messages: Vec<String>)
    ensures
        messages.deep_view() == cause_messages(*report),
        messages@.len() >= 1,
{
    report.chain().map(|cause| cause.to_string()).collect()
}

/// The message of the error that `report` was created from.
pub fn report_message(report: &color_eyre::Report) -> (message: String)
    ensures
        message@ == cause_messages(*report)[0],
{
    let messages = messages_of(report);
    proof {
        assert(messages.deep_view()[0] == messages@[0]@);
    }
    messages[0].clone()
}

/// Whether one of `messages` contains `text`.
pub open spec fn any_contains(messages: Seq<Seq<char>>, text: Seq<char>) -> bool {
    exists|i: int| 0 <= i < messages.len() && contains_text(#[trigger] messages[i], text)
}

/// Whether one of `messages` contains `text`.
pub fn any_message_contains(messages: &Vec<String>, text: &str) -> (found: bool)
    ensures
        found == any_contains(messages.deep_view(), text@),
{
    let mut i: usize = 0;
    while i < messages.len()
        invariant
            i <= messages@.len(),
            forall|k: int| 0 <= k < i ==> !contains_text(#[trigger] messages.deep_view()[k], text@),
        decreases messages@.len() - i,
    {
        if text_contains(messages[i].as_str(), text) {
            proof {
                assert(contains_text(messages.deep_view()[i as int], text@));
            }
            return true;
        }
        i += 1;
    }
    false
}

/// Whether `messages` say that the thread is gone for good.
pub open spec fn says_not_loaded(messages: Seq<Seq<char>>) -> bool {
    any_contains(messages, "thread not loaded:"@)
}

/// Whether `messages` say that the thread has no turns to read yet, or never
/// has.
pub open spec fn says_no_turns(messages: Seq<Seq<char>>) -> bool {
    ||| any_contains(messages, "includeTurns is unavailable before first user message"@)
    ||| any_contains(messages, "ephemeral threads do not support includeTurns"@)
}

/// Whether `messages` say that the thread is gone for good.
pub fn messages_say_not_loaded(messages: &Vec<String>) -> (terminal: bool)
    ensures
        terminal == says_not_loaded(messages.deep_view()),
{
    any_message_contains(messages, "thread not loaded:")
}

/// Whether `messages` say that the thread has no turns to read.
pub fn messages_say_no_turns(messages: &Vec<String>) -> (no_turns: bool)
    ensures
        no_turns == says_no_turns(messages.deep_view()),
{
    any_message_contains(messages, "includeTurns is unavailable before first user message")
        || any_message_contains(messages, "ephemeral threads do not support includeTurns")
}

impl App {
    /// Whether a thread could not be read because it is gone for good.
    pub fn is_terminal_thread_read_error(err: &color_eyre::Report) -> (terminal: bool)
        ensures
            terminal == says_not_loaded(cause_messages(*err)),
    {
        messages_say_not_loaded(&messages_of(err))
    }

    /// Whether a thread counts as closed after it could not be read: it does where
    /// it is gone for good, and stays what it was otherwise.
    pub fn closed_state_for_thread_read_error(
        err: &color_eyre::Report,
        existing_is_closed: Option<bool>,
    ) -> (closed: bool)
        ensures
            closed == (says_not_loaded(cause_messages(*err)) || existing_is_closed == Some(true)),
    {
        Self::is_terminal_thread_read_error(err) || match existing_is_closed {
            Some(closed) => closed,
            None => false,
        }
    }

    /// Whether a thread that could not be read with its turns may still be read
    /// without them.
    pub fn can_fallback_from_include_turns_error(err: &color_eyre::Report) -> (fallback: bool)
        ensures
            fallback == says_no_turns(cause_messages(*err)),
    {
        messages_say_no_turns(&messages_of(err))
    }
}

} // verus!
