//! The kinds of editor commands: every change to the saved document goes
//! through one command dispatched to the editor controller. What the
//! controller does around a command (its undo snapshot) depends only on the
//! command's kind.

use vstd::prelude::*;

verus! {

/// Which editor command a dispatched command is.
#[derive(Debug, Clone, Copy, PartialEq, Eq, Structural)]
pub enum CommandKind {
    /// Create a node of a kind at a world position and select it.
    AddNode,
    /// Move a node to a new world position (fires continuously during a drag).
    MoveNode,
    /// Remove a node and every wire touching it.
    RemoveNode,
    /// Duplicate a node (same kind and settings) offset from the original.
    CloneNode,
    /// Set one editable setting on a node.
    SetField,
    /// Replace the automation timeline of a node's named parameter.
    SetAutomation,
    /// Wire an output port to an input port.
    Connect,
    /// Wire an output port to a node's automatable parameter.
    Modulate,
    /// Bind a sequencer's keyed output to an instrument's trigger inlet.
    Bind,
    /// Remove a single wire.
    Disconnect,
    /// Edit a note sequencer's song or sound outputs.
    EditSong,
    /// Edit a control sequencer's lanes or breakpoints.
    EditControl,
    /// Edit the active arrangement's tracks or clips.
    EditArrange,
    /// Render a Sound offline and store it as that sample's bounce.
    Bounce,
    /// Replace (or extend) the selection.
    SelectNodes,
    /// Clear the selection.
    ClearSelection,
    /// Set the canvas camera.
    SetCamera,
    /// Create a new empty sample and make it active.
    AddSample,
    /// Delete a sample (never the last one).
    RemoveSample,
    /// Duplicate a sample under a new id and make the copy active.
    CloneSample,
    /// Rename a sample.
    RenameSample,
    /// Mark a sample as the project root.
    SetRoot,
    /// Add an inlet/outlet boundary node.
    AddBoundary,
    /// Add a sample-reference node.
    AddSampleRef,
    /// Point an existing sample-reference node at a different sample.
    SetSampleRef,
    /// Rename a node.
    RenameNode,
    /// Set an inlet boundary node's default value.
    SetInputDefault,
    /// Set a per-instance inlet override on a sample-reference node.
    SetInputValue,
    /// Set the spatial listener position.
    SetListener,
    /// Encapsulate nodes into a new sub-sample.
    Encapsulate,
    /// Paste a clipboard payload onto the canvas.
    Paste,
}

/// The commands that take no automatic undo snapshot: continuous or
/// view-only gestures (move, select, camera), the structured song / control /
/// arrangement edits (they manage their own snapshots), bounces, and the
/// sample-list and scene edits (not part of the canvas snapshot).
pub open spec fn spec_is_transient(k: CommandKind) -> bool {
    k == CommandKind::MoveNode
        || k == CommandKind::SelectNodes
        || k == CommandKind::ClearSelection
        || k == CommandKind::SetCamera
        || k == CommandKind::EditSong
        || k == CommandKind::EditControl
        || k == CommandKind::EditArrange
        || k == CommandKind::Bounce
        || k == CommandKind::AddSample
        || k == CommandKind::RemoveSample
        || k == CommandKind::CloneSample
        || k == CommandKind::RenameSample
        || k == CommandKind::SetRoot
        || k == CommandKind::SetListener
}

impl CommandKind {
    /// Whether dispatch should skip its automatic undo snapshot for this
    /// command.
    pub fn is_transient(&self) -> (r: bool)
        ensures
            r == spec_is_transient(*self),
    {
        match self {

            CommandKind::MoveNode
            | CommandKind::SelectNodes
            | CommandKind::ClearSelection
            | CommandKind::SetCamera
            | CommandKind::EditSong
            | CommandKind::EditControl
            | CommandKind::EditArrange
            | CommandKind::Bounce
            | CommandKind::AddSample
            | CommandKind::RemoveSample
            | CommandKind::CloneSample
            | CommandKind::RenameSample
            | CommandKind::SetRoot
            | CommandKind::SetListener => true,
            _ => false,
        }
    }
}

/// Exactly fourteen command kinds skip the automatic undo snapshot: moving
/// nodes, selecting and clearing the selection, the camera, the song /
/// control / arrangement editors, bouncing, the five sample-list edits
/// (add, remove, clone, rename, set root) and the listener position.
pub proof fn lemma_transient_kinds(k: CommandKind)
    ensures
        spec_is_transient(k) <==> (k is MoveNode || k is SelectNodes || k is ClearSelection
            || k is SetCamera || k is EditSong || k is EditControl || k is EditArrange
            || k is Bounce || k is AddSample || k is RemoveSample || k is CloneSample
            || k is RenameSample || k is SetRoot || k is SetListener),
{
}

/// Every command that changes the canvas document takes an automatic undo
/// snapshot, so it can be undone: adding, removing, cloning, renaming and
/// configuring nodes, their automation, every kind of wiring and unwiring,
/// boundary and sample-reference nodes, encapsulation and paste.
pub proof fn lemma_document_edits_are_undoable(k: CommandKind)
    requires
        k is AddNode || k is RemoveNode || k is CloneNode || k is SetField || k is SetAutomation
            || k is Connect || k is Modulate || k is Bind || k is Disconnect || k is AddBoundary
            || k is AddSampleRef || k is SetSampleRef || k is RenameNode || k is SetInputDefault
            || k is SetInputValue || k is Encapsulate || k is Paste,
    ensures
        !spec_is_transient(k),
{
}

} // verus!
