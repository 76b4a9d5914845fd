use vstd::prelude::*;

verus! {

/// Where the sequence that opens a database file read-only stands. The file
/// is checked for; a missing file is bootstrapped (created, its permissions
/// fixed, its schema migrated) before it is opened read-only; a file that
/// lacks the entry table is bootstrapped once and then opened again.
#[derive(Debug, Clone, Copy, PartialEq, Eq, Structural)]
pub enum OpenStage {
    /// Nothing is known yet.
    Start,
    /// The file does not exist.
    FileMissing,
    /// The file exists and is not open; `bootstrapped` tells whether this
    /// sequence has bootstrapped it.
    Closed { bootstrapped: bool },
    /// The file is open read-only.
    Opened { bootstrapped: bool },
    /// The open file lacks the entry table and has not been bootstrapped.
    TableMissing,
    /// The file is open read-only and holds the entry table.
    Ready,
    /// The entry table is missing even after a bootstrap.
    Corrupt,
}

/// What the caller is to do next.
#[derive(Debug, Clone, Copy, PartialEq, Eq, Structural)]
pub enum OpenAction {
    /// Check whether the file exists.
    CheckFile,
    /// Create the file, fix its permissions and migrate it, read-write.
    Bootstrap,
    /// Open the file read-only.
    OpenReadOnly,
    /// Check whether the open file holds the entry table.
    CheckTable,
    /// Hand the read-only connection to the caller.
    Finish,
    /// Report that the schema is missing.
    FailSchema,
}

/// What the caller found out, or did, in answer to an action.
#[derive(Debug, Clone, Copy, PartialEq, Eq, Structural)]
pub enum OpenEvent {
    FileChecked { exists: bool },
    Bootstrapped,
    OpenedReadOnly,
    TableChecked { exists: bool },
}

/// The action that `stage` calls for.
pub open spec fn action_of(stage: OpenStage) -> OpenAction {
    match stage {
        OpenStage::Start => OpenAction::CheckFile,
        OpenStage::FileMissing => OpenAction::Bootstrap,
        OpenStage::Closed { .. } => OpenAction::OpenReadOnly,
        OpenStage::Opened { .. } => OpenAction::CheckTable,
        OpenStage::TableMissing => OpenAction::Bootstrap,
        OpenStage::Ready => OpenAction::Finish,
        OpenStage::Corrupt => OpenAction::FailSchema,
    }
}

/// Whether `event` answers `action`.
pub open spec fn answers(action: OpenAction, event: OpenEvent) -> bool {
    match event {
        OpenEvent::FileChecked { .. } => action == OpenAction::CheckFile,
        OpenEvent::Bootstrapped => action == OpenAction::Bootstrap,
        OpenEvent::OpenedReadOnly => action == OpenAction::OpenReadOnly,
        OpenEvent::TableChecked { .. } => action == OpenAction::CheckTable,
    }
}

/// The stage after `event`; an event that does not answer the stage's
/// action leaves it as it is.
pub open spec fn step(stage: OpenStage, event: OpenEvent) -> OpenStage {
    if !answers(action_of(stage), event) {
        stage
    } else {
        match (stage, event) {
            (OpenStage::Start, OpenEvent::FileChecked { exists }) => if exists {
                OpenStage::Closed { bootstrapped: false }
            } else {
                OpenStage::FileMissing
            },
            (OpenStage::Closed { bootstrapped }, OpenEvent::OpenedReadOnly) => OpenStage::Opened {
                bootstrapped,
            },
            (OpenStage::Opened { bootstrapped }, OpenEvent::TableChecked { exists }) => if exists {
                OpenStage::Ready
            } else if bootstrapped {
                OpenStage::Corrupt
            } else {
                OpenStage::TableMissing
            },
            // the two stages that ask for a bootstrap
            _ => OpenStage::Closed { bootstrapped: true },
        }
    }
}

/// Whether the sequence has ended.
pub open spec fn is_final(stage: OpenStage) -> bool {
    stage == OpenStage::Ready || stage == OpenStage::Corrupt
}

/// An upper bound on the events that remain before the sequence ends.
pub open spec fn remaining_steps(stage: OpenStage) -> nat {
    match stage {
        OpenStage::Start => 6,
        OpenStage::Closed { bootstrapped } => if bootstrapped {
            2
        } else {
            5
        },
        OpenStage::Opened { bootstrapped } => if bootstrapped {
            1
        } else {
            4
        },
        OpenStage::FileMissing => 3,
        OpenStage::TableMissing => 3,
        OpenStage::Ready => 0,
        OpenStage::Corrupt => 0,
    }
}

/// Whether `stage` comes after a bootstrap of this sequence.
pub open spec fn after_bootstrap(stage: OpenStage) -> bool {
    match stage {
        OpenStage::Closed { bootstrapped } => bootstrapped,
        OpenStage::Opened { bootstrapped } => bootstrapped,
        OpenStage::Ready => true,
        OpenStage::Corrupt => true,
        _ => false,
    }
}

/// Each answered event brings the sequence closer to its end, so that it
/// ends after at most six of them, ready or reporting a missing schema.
pub proof fn lemma_open_sequence_ends(stage: OpenStage, event: OpenEvent)
    requires
        !is_final(stage),
        answers(action_of(stage), event),
    ensures
        remaining_steps(step(stage, event)) < remaining_steps(stage),
        remaining_steps(step(stage, event)) == 0 ==> is_final(step(stage, event)),
        remaining_steps(OpenStage::Start) == 6,
{
}

/// A sequence bootstraps the file at most once: once a bootstrap has been
/// answered, no later stage asks for another.
pub proof fn lemma_bootstrap_at_most_once(stage: OpenStage, event: OpenEvent)
    ensures
        action_of(stage) == OpenAction::Bootstrap && event == OpenEvent::Bootstrapped ==> after_bootstrap(
            step(stage, event),
        ),
        after_bootstrap(stage) ==> action_of(stage) != OpenAction::Bootstrap,
        after_bootstrap(stage) ==> after_bootstrap(step(stage, event)),
{
}

/// A sequence is ready only once a check has found the entry table in the
/// file that is open read-only.
pub proof fn lemma_ready_only_with_table(stage: OpenStage, event: OpenEvent)
    ensures
        step(stage, event) == OpenStage::Ready && stage != OpenStage::Ready ==> {
            &&& stage is Opened
            &&& event == (OpenEvent::TableChecked { exists: true })
        },
{
}

impl OpenStage {
    /// The stage before anything is known.
    pub fn start() -> (r: OpenStage)
        ensures
            r == OpenStage::Start,
    {
        OpenStage::Start
    }

    /// The action that this stage calls for.
    pub fn action(&self) -> (r: OpenAction)
        ensures
            r == action_of(*self),
    {
        match self {
            OpenStage::Start => OpenAction::CheckFile,
            OpenStage::FileMissing => OpenAction::Bootstrap,
            OpenStage::Closed { .. } => OpenAction::OpenReadOnly,
            OpenStage::Opened { .. } => OpenAction::CheckTable,
            OpenStage::TableMissing => OpenAction::Bootstrap,
            OpenStage::Ready => OpenAction::Finish,
            OpenStage::Corrupt => OpenAction::FailSchema,
        }
    }

    /// The stage after `event`; an event that does not answer this stage's
    /// action leaves it as it is.
    pub fn advance(self, event: OpenEvent) -> (r: OpenStage)
        ensures
            r == step(self, event),
    {
        match (self, event) {
            (OpenStage::Start, OpenEvent::FileChecked { exists }) => if exists {
                OpenStage::Closed { bootstrapped: false }
            } else {
                OpenStage::FileMissing
            },
            (OpenStage::FileMissing, OpenEvent::Bootstrapped) => OpenStage::Closed {
                bootstrapped: true,
            },
            (OpenStage::TableMissing, OpenEvent::Bootstrapped) => OpenStage::Closed {
                bootstrapped: true,
            },
            (OpenStage::Closed { bootstrapped }, OpenEvent::OpenedReadOnly) => OpenStage::Opened {
                bootstrapped,
            },
            (OpenStage::Opened { bootstrapped }, OpenEvent::TableChecked { exists }) => if exists {
                OpenStage::Ready
            } else if bootstrapped {
                OpenStage::Corrupt
            } else {
                OpenStage::TableMissing
            },
            _ => self,
        }
    }
}

} // verus!
