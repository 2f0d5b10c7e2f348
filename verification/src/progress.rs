//! What the two kinds of progress channel carry, and what the bars at their
//! other end do with it.
//!
//! Each transfer has a channel of numbers: the bytes that have come in so far,
//! and at the end a number that is not positive. All transfers share one
//! channel of texts, on which `Success` is the last word.

use vstd::prelude::*;
use crate::session::Failure;
use crate::text::same_text;

verus! {

/// What the shared status channel is told.
#[derive(Debug, Clone, Copy, PartialEq, Eq, Structural)]
pub enum Status {
    /// A bot was asked for a pack.
    Queued,
    /// A bot named an address, and the data connection is being opened.
    Connecting,
    /// The first bytes of a file came in.
    Downloading,
    /// One transfer ended with its file.
    Finished,
    /// One transfer ended without its file.
    Failed(Failure),
    /// Every transfer has ended, in whatever way. Nothing follows.
    AllFinished,
}

/// What a bar is made to do.
#[derive(Debug, Clone, PartialEq, Eq)]
pub enum BarCommand {
    /// Draw the bar again.
    Tick,
    /// Show this much as done.
    Position(u64),
    /// Count one more as done.
    Advance,
    /// Show this text beside the bar.
    Label(String),
    /// Show the bar as complete and leave it.
    Finish,
}

/// What a `BarCommand` holds.
pub enum BarCommandView {
    Tick,
    Position(u64),
    Advance,
    Label(Seq<char>),
    Finish,
}

impl View for BarCommand {
    type V = BarCommandView;

    open spec fn view(&self) -> BarCommandView {
        match self {
            BarCommand::Tick => BarCommandView::Tick,
            BarCommand::Position(n) => BarCommandView::Position(*n),
            BarCommand::Advance => BarCommandView::Advance,
            BarCommand::Label(text) => BarCommandView::Label(text@),
            BarCommand::Finish => BarCommandView::Finish,
        }
    }
}

/// What each of a list of commands holds.
pub open spec fn command_views(list: Seq<BarCommand>) -> Seq<BarCommandView> {
    Seq::new(list.len(), |i: int| list[i]@)
}

/// The text that stands for `status` on the status channel.
pub open spec fn status_text(status: Status) -> Seq<char> {
    match status {
        Status::Queued => "Queued"@,
        Status::Connecting => "Connecting"@,
        Status::Downloading => "Downloading"@,
        Status::Finished => "Episode Finished Downloading"@,
        Status::Failed(Failure::RequestTimeout) => "Failed: the bot did not answer"@,
        Status::Failed(Failure::DataConnectFailed) => "Failed: could not connect"@,
        Status::Failed(Failure::SizeMismatch) => "Failed: size mismatch"@,
        Status::Failed(Failure::IoWriteFailed) => "Failed: could not write"@,
        Status::Failed(Failure::Collision) => "Failed: file name taken"@,
        Status::Failed(Failure::Cancelled) => "Failed: cancelled"@,
        Status::AllFinished => "Success"@,
    }
}

/// What the bar of one transfer does with a number from its channel: a
/// positive number is the new count, any other number the end.
pub open spec fn bar_commands(value: i64) -> Seq<BarCommandView> {
    if value > 0 {
        seq![BarCommandView::Position(value as u64)]
    } else {
        seq![BarCommandView::Finish]
    }
}

/// What the bar of the whole batch does with a text from the status channel.
/// Every text is shown, with a space behind it. `Success` ends the bar; the
/// text of a finished transfer counts one more as done.
pub open spec fn status_commands(message: Seq<char>) -> Seq<BarCommandView> {
    let label = BarCommandView::Label(message + " "@);
    if message == "Success"@ {
        seq![label, BarCommandView::Tick, BarCommandView::Finish]
    } else if message == "Episode Finished Downloading"@ {
        seq![BarCommandView::Tick, BarCommandView::Advance, label]
    } else {
        seq![BarCommandView::Tick, label]
    }
}

/// Whether `commands` end with the bar complete, so that nothing more is read
/// from its channel.
pub open spec fn is_last(commands: Seq<BarCommandView>) -> bool {
    commands.len() > 0 && commands.last() is Finish
}

/// Only the last word of the status channel ends the bar of the batch, and
/// only the text of a finished transfer counts one more as done.
pub proof fn lemma_status_commands(status: Status)
    ensures
        is_last(status_commands(status_text(status))) <==> status is AllFinished,
        status_commands(status_text(status)).contains(BarCommandView::Advance) <==> status
            is Finished,
{
    reveal_strlit("Queued");
    reveal_strlit("Connecting");
    reveal_strlit("Downloading");
    reveal_strlit("Episode Finished Downloading");
    reveal_strlit("Failed: the bot did not answer");
    reveal_strlit("Failed: could not connect");
    reveal_strlit("Failed: size mismatch");
    reveal_strlit("Failed: could not write");
    reveal_strlit("Failed: file name taken");
    reveal_strlit("Failed: cancelled");
    reveal_strlit("Success");
    let text = status_text(status);
    let commands = status_commands(text);
    assert("Success"@[0] == 'S');
    assert("Episode Finished Downloading"@[0] == 'E');
    if status is Finished {
        assert(commands[1] == BarCommandView::Advance);
    } else if status is AllFinished {
        assert(commands.last() is Finish);
    } else {
        assert(text[0] != 'S' && text[0] != 'E');
        assert(commands.len() == 2);
    }
}

impl Status {
    /// The text that stands for this status on the status channel.
    pub fn text(&self) -> (r: &'static str)
        ensures
            r@ == status_text(*self),
    {
        match self {
            Status::Queued => "Queued",
            Status::Connecting => "Connecting",
            Status::Downloading => "Downloading",
            Status::Finished => "Episode Finished Downloading",
            Status::Failed(Failure::RequestTimeout) => "Failed: the bot did not answer",
            Status::Failed(Failure::DataConnectFailed) => "Failed: could not connect",
            Status::Failed(Failure::SizeMismatch) => "Failed: size mismatch",
            Status::Failed(Failure::IoWriteFailed) => "Failed: could not write",
            Status::Failed(Failure::Collision) => "Failed: file name taken",
            Status::Failed(Failure::Cancelled) => "Failed: cancelled",
            Status::AllFinished => "Success",
        }
    }
}

/// What the bar of one transfer does with a number from its channel.
pub fn update_bar(value: i64) -> (commands: Vec<BarCommand>)
    ensures
        command_views(commands@) == bar_commands(value),
{
    let commands: Vec<BarCommand> = if value > 0 {
        vec![BarCommand::Position(value as u64)]
    } else {
        vec![BarCommand::Finish]
    };
    assert(command_views(commands@) == bar_commands(value));
    commands
}

/// What the bar of the whole batch does with a text from the status channel.
pub fn update_status_bar(message: &str) -> (commands: Vec<BarCommand>)
    ensures
        command_views(commands@) == status_commands(message@),
{
    let label = BarCommand::Label(message.to_owned().concat(" "));
    let commands: Vec<BarCommand> = if same_text(message, "Success") {
        vec![label, BarCommand::Tick, BarCommand::Finish]
    } else if same_text(message, "Episode Finished Downloading") {
        vec![BarCommand::Tick, BarCommand::Advance, label]
    } else {
        vec![BarCommand::Tick, label]
    };
    assert(command_views(commands@) == status_commands(message@));
    commands
}

/// Whether `commands` end with the bar complete, so that nothing more is read
/// from its channel.
pub fn ends_bar(commands: &Vec<BarCommand>) -> (r: bool)
    ensures
        r == is_last(command_views(commands@)),
{
    let count: usize = commands.len();
    if count == 0 {
        return false;
    }
    match &commands[count - 1] {
        BarCommand::Finish => true,
        _ => false,
    }
}

} // verus!
