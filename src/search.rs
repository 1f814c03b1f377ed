use vstd::prelude::*;

use crate::pieces::Move;

verus! {

/// A command from the controller to the search worker.
#[derive(Clone, Copy, Debug, PartialEq, Eq, Structural)]
pub enum SearchCommand {
    /// Send the best move found so far, then play it on the tree.
    SendAndPlayBestMove,
    /// A move was played (by either side): play it on the tree.
    PlayedMove(Move),
}

/// What a non-blocking look at the command channel found.
#[derive(Clone, Copy, Debug, PartialEq, Eq, Structural)]
pub enum CommandPoll {
    /// No command is waiting.
    Empty,
    /// A command arrived.
    Received(SearchCommand),
    /// Every sender is gone.
    Disconnected,
}

/// What the search worker does next.
#[derive(Clone, Copy, Debug, PartialEq, Eq, Structural)]
pub enum SearchAction {
    /// Run one expansion of the tree.
    Expand,
    /// Send the tree's best move on the result channel.
    SendBestMove,
    /// Move the root of the tree to the child of this move.
    Advance(Move),
    /// End the worker.
    Stop,
}

/// The failure of a search worker, with its message when one could be read.
#[derive(Clone, Debug)]
pub enum SearchThreadError {
    Error(String),
    Unknown,
}

impl SearchThreadError {
    /// The error for a worker that failed with `message`, or with no readable message.
    pub fn new(message: Option<String>) -> (r: SearchThreadError)
        ensures
            message is None <==> r is Unknown,
            message is Some ==> (r matches SearchThreadError::Error(m) && m@ == message.unwrap()@),
    {
        match message {
            Some(m) => SearchThreadError::Error(m),
            None => SearchThreadError::Unknown,
        }
    }
}

/// The worker's decision on what the command channel gave: expand when nothing waits, stop
/// when the controller is gone, and otherwise carry out the command.
pub open spec fn decision(poll: CommandPoll) -> SearchAction {
    match poll {
        CommandPoll::Empty => SearchAction::Expand,
        CommandPoll::Received(SearchCommand::SendAndPlayBestMove) => SearchAction::SendBestMove,
        CommandPoll::Received(SearchCommand::PlayedMove(m)) => SearchAction::Advance(m),
        CommandPoll::Disconnected => SearchAction::Stop,
    }
}

/// What the worker does on a look at the command channel.
pub fn next_action(poll: CommandPoll) -> (r: SearchAction)
    ensures
        r == decision(poll),
{
    match poll {
        CommandPoll::Empty => SearchAction::Expand,
        CommandPoll::Received(command) => match command {
            SearchCommand::SendAndPlayBestMove => SearchAction::SendBestMove,
            SearchCommand::PlayedMove(m) => SearchAction::Advance(m),
        },
        CommandPoll::Disconnected => SearchAction::Stop,
    }
}

/// What the worker does after trying to send its best move `best`: play it on the tree if
/// the controller got it, and stop quietly if the controller is no longer listening.
pub fn after_send(sent: bool, best: Move) -> (r: SearchAction)
    ensures
        sent ==> r == SearchAction::Advance(best),
        !sent ==> r == SearchAction::Stop,
{
    if sent {
        SearchAction::Advance(best)
    } else {
        SearchAction::Stop
    }
}

} // verus!
