//! The right-click context menu: which entries it offers for what was
//! clicked.

use vstd::prelude::*;

use crate::schema::{NodeId, SampleId};
use crate::text::{decimal, push_decimal};

verus! {

/// Identifies a wire in the editor.
#[derive(Debug, Clone, Copy, PartialEq, Eq, Structural)]
pub struct ConnId(pub u64);

/// What a context menu was opened on.
#[derive(Debug, Clone, Copy, PartialEq, Eq, Structural)]
pub enum ContextTarget {
    /// A canvas node.
    Node(NodeId),
    /// A wire.
    Wire(ConnId),
    /// A clip of the arrangement: its track and index.
    Clip { track: usize, clip: usize },
    /// A bounced Sound in the asset list.
    Sound(SampleId),
    /// An empty spot of an arrangement track.
    Lane { track: usize },
    /// A sample's tab.
    SampleTab(SampleId),
}

/// What choosing a menu entry does.
#[derive(Debug, Clone, Copy, PartialEq, Eq, Structural)]
pub enum MenuAction {
    CloneNode(NodeId),
    RemoveNode(NodeId),
    Disconnect(ConnId),
    CopySelectedClips,
    DeleteSelectedClips,
    /// Set the clip's looping to `looping`.
    SetClipLoop { track: usize, clip: usize, looping: bool },
    CopyClip { track: usize, clip: usize },
    OpenClipSource { track: usize, clip: usize },
    RemoveClip { track: usize, clip: usize },
    OpenSample(SampleId),
    PlaceSoundAtPlayhead(SampleId),
    /// Paste the clip clipboard at the clicked spot of `track`.
    PasteClipHere { track: usize },
    PasteClipAtPlayhead,
    CloneSample(SampleId),
}

/// One menu entry: its label, and its action (`None` for a dimmed,
/// non-interactive entry).
#[derive(Debug, Clone)]
pub struct MenuItem {
    pub label: String,
    pub action: Option<MenuAction>,
}

/// The entries as (label, action) pairs.
pub open spec fn items_view(items: Seq<MenuItem>) -> Seq<(Seq<char>, Option<MenuAction>)> {
    items.map_values(|m: MenuItem| (m.label@, m.action))
}

/// The entries offered for `target`, given the selected clips, whether the
/// clicked clip loops, and whether the clip clipboard holds anything.
pub open spec fn spec_items_for(
    target: ContextTarget,
    selected: Seq<(usize, usize)>,
    clip_looping: bool,
    has_clip_clipboard: bool,
) -> Seq<(Seq<char>, Option<MenuAction>)> {
    match target {
        ContextTarget::Node(node) => seq![
            ("Clone"@, Some(MenuAction::CloneNode(node))),
            ("Delete"@, Some(MenuAction::RemoveNode(node))),
        ],
        ContextTarget::Wire(id) => seq![("Delete wire"@, Some(MenuAction::Disconnect(id)))],
        ContextTarget::Clip { track, clip } => if selected.len() > 1 && selected.contains(
            (track, clip),
        ) {
            // A multi-selection holding this clip gets group actions.
            seq![
                ("Copy "@ + decimal(selected.len()) + " clips"@, Some(MenuAction::CopySelectedClips)),
                ("Delete "@ + decimal(selected.len()) + " clips"@, Some(MenuAction::DeleteSelectedClips)),
            ]
        } else {
            seq![
                (if clip_looping {
                    "Loop: on"@
                } else {
                    "Loop: off"@
                }, Some(MenuAction::SetClipLoop { track, clip, looping: !clip_looping })),
                ("Copy"@, Some(MenuAction::CopyClip { track, clip })),
                ("Open source"@, Some(MenuAction::OpenClipSource { track, clip })),
                ("Delete clip"@, Some(MenuAction::RemoveClip { track, clip })),
            ]
        },
        ContextTarget::Sound(id) => seq![
            ("Go to"@, Some(MenuAction::OpenSample(id))),
            ("Place at playhead"@, Some(MenuAction::PlaceSoundAtPlayhead(id))),
        ],
        ContextTarget::Lane { track } => if has_clip_clipboard {
            seq![
                ("Paste here"@, Some(MenuAction::PasteClipHere { track })),
                ("Paste at playhead"@, Some(MenuAction::PasteClipAtPlayhead)),
            ]
        } else {
            seq![("Nothing to paste"@, None)]
        },
        ContextTarget::SampleTab(id) => seq![("Clone"@, Some(MenuAction::CloneSample(id)))],
    }
}

fn item(label: &str, action: Option<MenuAction>) -> (m: MenuItem)
    ensures
        m.label@ == label@,
        m.action == action,
{
    MenuItem { label: String::from_str(label), action }
}

/// `prefix`, the decimal count `n`, then `suffix`.
fn counted(prefix: &str, n: usize, suffix: &str) -> (s: String)
    ensures
        s@ == prefix@ + decimal(n as nat) + suffix@,
{
    let mut s = String::from_str(prefix);
    push_decimal(&mut s, n);
    s.append(suffix);
    s
}

fn contains_clip(selected: &Vec<(usize, usize)>, track: usize, clip: usize) -> (r: bool)
    ensures
        r == selected@.contains((track, clip)),
{
    let n = selected.len();
    let mut i: usize = 0;
    while i < n
        invariant
            n == selected@.len(),
            0 <= i <= n,
            forall|j: int| 0 <= j < i ==> selected@[j] != (track, clip),
        decreases n - i,
    {
        let (t, c) = selected[i];
        if t == track && c == clip {
            assert(selected@[i as int] == (track, clip));
            return true;
        }
        i += 1;
    }
    false
}

/// The menu entries for a given target.
pub fn items_for(
    target: ContextTarget,
    selected: &Vec<(usize, usize)>,
    clip_looping: bool,
    has_clip_clipboard: bool,
) -> (items: Vec<MenuItem>)
    ensures
        items_view(items@) == spec_items_for(target, selected@, clip_looping, has_clip_clipboard),
{
    let mut v: Vec<MenuItem> = Vec::new();
    match target {
        ContextTarget::Node(node) => {
            v.push(item("Clone", Some(MenuAction::CloneNode(node))));
            v.push(item("Delete", Some(MenuAction::RemoveNode(node))));
        },
        ContextTarget::Wire(id) => {
            v.push(item("Delete wire", Some(MenuAction::Disconnect(id))));
        },
        ContextTarget::Clip { track, clip } => {
            let n = selected.len();
            if n > 1 && contains_clip(selected, track, clip) {
                v.push(MenuItem { label: counted("Copy ", n, " clips"), action: Some(MenuAction::CopySelectedClips) });
                v.push(MenuItem { label: counted("Delete ", n, " clips"), action: Some(MenuAction::DeleteSelectedClips) });
            } else {
                let label = if clip_looping {
                    "Loop: on"
                } else {
                    "Loop: off"
                };
                v.push(item(label, Some(MenuAction::SetClipLoop { track, clip, looping: !clip_looping })));
                v.push(item("Copy", Some(MenuAction::CopyClip { track, clip })));
                v.push(item("Open source", Some(MenuAction::OpenClipSource { track, clip })));
                v.push(item("Delete clip", Some(MenuAction::RemoveClip { track, clip })));
            }
        },
        ContextTarget::Sound(id) => {
            v.push(item("Go to", Some(MenuAction::OpenSample(id))));
            v.push(item("Place at playhead", Some(MenuAction::PlaceSoundAtPlayhead(id))));
        },
        ContextTarget::Lane { track } => {
            if has_clip_clipboard {
                v.push(item("Paste here", Some(MenuAction::PasteClipHere { track })));
                v.push(item("Paste at playhead", Some(MenuAction::PasteClipAtPlayhead)));
            } else {
                v.push(item("Nothing to paste", None));
            }
        },
        ContextTarget::SampleTab(id) => {
            v.push(item("Clone", Some(MenuAction::CloneSample(id))));
        },
    }
    assert(items_view(v@) =~= spec_items_for(target, selected@, clip_looping, has_clip_clipboard));
    v
}

/// The label that names `a` (`count`: how many clips are selected, for the
/// group actions). A loop toggle is named by the clip's current state,
/// which is the opposite of the looping it sets.
pub open spec fn names_action(label: Seq<char>, a: MenuAction, count: nat) -> bool {
    match a {
        MenuAction::CloneNode(_) => label == "Clone"@,
        MenuAction::RemoveNode(_) => label == "Delete"@,
        MenuAction::Disconnect(_) => label == "Delete wire"@,
        MenuAction::CopySelectedClips => label == "Copy "@ + decimal(count) + " clips"@,
        MenuAction::DeleteSelectedClips => label == "Delete "@ + decimal(count) + " clips"@,
        MenuAction::SetClipLoop { looping, .. } => label == if looping {
            "Loop: off"@
        } else {
            "Loop: on"@
        },
        MenuAction::CopyClip { .. } => label == "Copy"@,
        MenuAction::OpenClipSource { .. } => label == "Open source"@,
        MenuAction::RemoveClip { .. } => label == "Delete clip"@,
        MenuAction::OpenSample(_) => label == "Go to"@,
        MenuAction::PlaceSoundAtPlayhead(_) => label == "Place at playhead"@,
        MenuAction::PasteClipHere { .. } => label == "Paste here"@,
        MenuAction::PasteClipAtPlayhead => label == "Paste at playhead"@,
        MenuAction::CloneSample(_) => label == "Clone"@,
    }
}

/// Whether `a` acts on what the menu was opened on: the clicked node, wire,
/// clip, sound, track or sample.
pub open spec fn acts_on(a: MenuAction, target: ContextTarget) -> bool {
    match a {
        MenuAction::CloneNode(n) => target == ContextTarget::Node(n),
        MenuAction::RemoveNode(n) => target == ContextTarget::Node(n),
        MenuAction::Disconnect(id) => target == ContextTarget::Wire(id),
        MenuAction::CopySelectedClips => target is Clip,
        MenuAction::DeleteSelectedClips => target is Clip,
        MenuAction::SetClipLoop { track, clip, .. } => target == ContextTarget::Clip { track, clip },
        MenuAction::CopyClip { track, clip } => target == ContextTarget::Clip { track, clip },
        MenuAction::OpenClipSource { track, clip } => target == ContextTarget::Clip { track, clip },
        MenuAction::RemoveClip { track, clip } => target == ContextTarget::Clip { track, clip },
        MenuAction::OpenSample(id) => target == ContextTarget::Sound(id),
        MenuAction::PlaceSoundAtPlayhead(id) => target == ContextTarget::Sound(id),
        MenuAction::PasteClipHere { track } => target == ContextTarget::Lane { track },
        MenuAction::PasteClipAtPlayhead => target is Lane,
        MenuAction::CloneSample(id) => target == ContextTarget::SampleTab(id),
    }
}

/// Whether some entry of `entries` carries the action `a`.
pub open spec fn offers(entries: Seq<(Seq<char>, Option<MenuAction>)>, a: MenuAction) -> bool {
    exists|k: int| 0 <= k < entries.len() && entries[k].1 == Some(a)
}

/// Every entry's label names the action it carries, and that action acts on
/// what was clicked: "Delete" on a node removes that node, "Clone" clones
/// it, "Delete wire" disconnects that wire, and so on.
pub proof fn lemma_labels_name_actions(
    target: ContextTarget,
    selected: Seq<(usize, usize)>,
    clip_looping: bool,
    has_clip_clipboard: bool,
)
    ensures
        forall|k: int|
            0 <= k < spec_items_for(target, selected, clip_looping, has_clip_clipboard).len()
                && (#[trigger] spec_items_for(target, selected, clip_looping, has_clip_clipboard)[k]).1
                is Some ==> {
                let e = spec_items_for(target, selected, clip_looping, has_clip_clipboard)[k];
                &&& names_action(e.0, e.1->0, selected.len())
                &&& acts_on(e.1->0, target)
            },
{
}

/// The menu of a node offers deleting and cloning that node; of a wire,
/// disconnecting it; of a clip alone (not part of a larger selection), its
/// loop toggle, copying, opening its source and deleting it, and of a clip
/// in a larger selection, copying and deleting the selection; of a sound,
/// going to it and placing it; of a sample tab, cloning that sample; of a
/// track spot, pasting there when the clipboard holds clips, and otherwise
/// no action at all.
pub proof fn lemma_offered_actions(
    target: ContextTarget,
    selected: Seq<(usize, usize)>,
    clip_looping: bool,
    has_clip_clipboard: bool,
)
    ensures
        ({
            let e = spec_items_for(target, selected, clip_looping, has_clip_clipboard);
            &&& target matches ContextTarget::Node(n) ==> offers(e, MenuAction::RemoveNode(n))
                && offers(e, MenuAction::CloneNode(n))
            &&& target matches ContextTarget::Wire(id) ==> offers(e, MenuAction::Disconnect(id))
            &&& target matches ContextTarget::Clip { track, clip } ==> (!(selected.len() > 1
                && selected.contains((track, clip))) ==> offers(
                e,
                MenuAction::SetClipLoop { track, clip, looping: !clip_looping },
            ) && offers(e, MenuAction::CopyClip { track, clip }) && offers(
                e,
                MenuAction::OpenClipSource { track, clip },
            ) && offers(e, MenuAction::RemoveClip { track, clip }))
            &&& target matches ContextTarget::Clip { track, clip } ==> (selected.len() > 1
                && selected.contains((track, clip)) ==> offers(e, MenuAction::CopySelectedClips)
                && offers(e, MenuAction::DeleteSelectedClips))
            &&& target matches ContextTarget::Sound(id) ==> offers(e, MenuAction::OpenSample(id))
                && offers(e, MenuAction::PlaceSoundAtPlayhead(id))
            &&& target matches ContextTarget::SampleTab(id) ==> offers(e, MenuAction::CloneSample(id))
            &&& target matches ContextTarget::Lane { track } ==> (has_clip_clipboard ==> offers(
                e,
                MenuAction::PasteClipHere { track },
            ) && offers(e, MenuAction::PasteClipAtPlayhead)) && (!has_clip_clipboard ==> forall|
                k: int,
            |
                0 <= k < e.len() ==> (#[trigger] e[k]).1 is None)
        }),
{
    let e = spec_items_for(target, selected, clip_looping, has_clip_clipboard);
    match target {
        ContextTarget::Node(n) => {
            assert(e[1].1 == Some(MenuAction::RemoveNode(n)));
            assert(e[0].1 == Some(MenuAction::CloneNode(n)));
        },
        ContextTarget::Wire(id) => {
            assert(e[0].1 == Some(MenuAction::Disconnect(id)));
        },
        ContextTarget::Clip { track, clip } => {
            if selected.len() > 1 && selected.contains((track, clip)) {
                assert(e[0].1 == Some(MenuAction::CopySelectedClips));
                assert(e[1].1 == Some(MenuAction::DeleteSelectedClips));
            } else {
                assert(e[0].1 == Some(MenuAction::SetClipLoop { track, clip, looping: !clip_looping }));
                assert(e[1].1 == Some(MenuAction::CopyClip { track, clip }));
                assert(e[2].1 == Some(MenuAction::OpenClipSource { track, clip }));
                assert(e[3].1 == Some(MenuAction::RemoveClip { track, clip }));
            }
        },
        ContextTarget::Sound(id) => {
            assert(e[0].1 == Some(MenuAction::OpenSample(id)));
            assert(e[1].1 == Some(MenuAction::PlaceSoundAtPlayhead(id)));
        },
        ContextTarget::Lane { track } => {
            if has_clip_clipboard {
                assert(e[0].1 == Some(MenuAction::PasteClipHere { track }));
                assert(e[1].1 == Some(MenuAction::PasteClipAtPlayhead));
            }
        },
        ContextTarget::SampleTab(id) => {
            assert(e[0].1 == Some(MenuAction::CloneSample(id)));
        },
    }
}

/// How many entries each menu has: one per action offered above (and a
/// single dimmed entry on a track spot with nothing to paste), so no action
/// is offered twice and none beyond those.
pub proof fn lemma_menu_sizes(
    target: ContextTarget,
    selected: Seq<(usize, usize)>,
    clip_looping: bool,
    has_clip_clipboard: bool,
)
    ensures
        ({
            let n = spec_items_for(target, selected, clip_looping, has_clip_clipboard).len();
            &&& target is Node ==> n == 2
            &&& target is Wire ==> n == 1
            &&& target matches ContextTarget::Clip { track, clip } ==> n == if selected.len() > 1
                && selected.contains((track, clip)) {
                2nat
            } else {
                4nat
            }
            &&& target is Sound ==> n == 2
            &&& target is Lane ==> n == if has_clip_clipboard {
                2nat
            } else {
                1nat
            }
            &&& target is SampleTab ==> n == 1
        }),
{
}

} // verus!
