//! The vocabulary shared with the session backend: live windows as the
//! backend reports them, and the commands the engine asks it to perform.
//! The engine never talks to the multiplexer itself; it receives plain
//! snapshots and returns command lists for the caller to run.

use vstd::prelude::*;

verus! {

/// One window of a live session, as reported by the backend:
/// its real window index and its current name.
#[derive(Debug)]
pub struct LiveWindow {
    pub index: usize,
    pub name: String,
}

/// Mathematical model of a live window.
pub ghost struct LiveWindowModel {
    pub index: int,
    pub name: Seq<char>,
}

impl View for LiveWindow {
    type V = LiveWindowModel;

    open spec fn view(&self) -> LiveWindowModel {
        LiveWindowModel { index: self.index as int, name: self.name@ }
    }
}

impl DeepView for LiveWindow {
    type V = LiveWindowModel;

    open spec fn deep_view(&self) -> LiveWindowModel {
        self.view()
    }
}

impl LiveWindow {
    /// Packs an index and a name reported by the backend.
    pub fn new(index: usize, name: String) -> (w: LiveWindow)
        ensures
            w@ == (LiveWindowModel { index: index as int, name: name@ }),
    {
        LiveWindow { index, name }
    }
}

/// One command for the session backend. The engine only decides; the
/// caller performs these against the multiplexer in order.
#[derive(Debug)]
pub enum BackendCommand {
    /// Create a detached session, optionally rooted at a directory.
    CreateSession { name: String, base_dir: Option<String> },
    /// Cosmetic, best-effort status line configuration.
    SetMinimalStatusBar,
    /// Rename one window of a session.
    RenameWindow { session: String, index: usize, name: String },
    /// Type a command into one window of a session.
    SendKeys { session: String, index: usize, keys: String },
    /// Create a new window, optionally running a command in a directory.
    NewWindow { session: String, name: String, command: Option<String>, dir: Option<String> },
    /// Kill one window of a session.
    KillWindow { session: String, index: usize },
    /// Kill a whole session.
    KillSession { name: String },
}

/// Mathematical model of a backend command.
pub ghost enum CommandModel {
    CreateSession { name: Seq<char>, base_dir: Option<Seq<char>> },
    SetMinimalStatusBar,
    RenameWindow { session: Seq<char>, index: int, name: Seq<char> },
    SendKeys { session: Seq<char>, index: int, keys: Seq<char> },
    NewWindow { session: Seq<char>, name: Seq<char>, command: Option<Seq<char>>, dir: Option<Seq<char>> },
    KillWindow { session: Seq<char>, index: int },
    KillSession { name: Seq<char> },
}

impl View for BackendCommand {
    type V = CommandModel;

    open spec fn view(&self) -> CommandModel {
        match self {
            BackendCommand::CreateSession { name, base_dir } => CommandModel::CreateSession {
                name: name@,
                base_dir: base_dir.deep_view(),
            },
            BackendCommand::SetMinimalStatusBar => CommandModel::SetMinimalStatusBar,
            BackendCommand::RenameWindow { session, index, name } => CommandModel::RenameWindow {
                session: session@,
                index: *index as int,
                name: name@,
            },
            BackendCommand::SendKeys { session, index, keys } => CommandModel::SendKeys {
                session: session@,
                index: *index as int,
                keys: keys@,
            },
            BackendCommand::NewWindow { session, name, command, dir } => CommandModel::NewWindow {
                session: session@,
                name: name@,
                command: command.deep_view(),
                dir: dir.deep_view(),
            },
            BackendCommand::KillWindow { session, index } => CommandModel::KillWindow {
                session: session@,
                index: *index as int,
            },
            BackendCommand::KillSession { name } => CommandModel::KillSession { name: name@ },
        }
    }
}

impl DeepView for BackendCommand {
    type V = CommandModel;

    open spec fn deep_view(&self) -> CommandModel {
        self.view()
    }
}

} // verus!
