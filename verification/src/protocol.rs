//! Messages crossing the engine ↔ host boundary. The page receives
//! `EngineEvent`s as a tagged union through one callback and sends
//! `HostMsg`s through `dispatch`. Layout crosses as full snapshots — the
//! tree is tiny; no diffing.

use crate::mux::layout::Rect;
use crate::mux::share::Share;
use vstd::prelude::*;

verus! {

#[derive(Debug)]
pub enum EngineEvent {
    /// Bytes to write to a pane's terminal (already `\r\n`-converted).
    PaneOutput { pane: u32, data: String },
    /// The pane/window/session arrangement changed; reconcile from the
    /// snapshot.
    LayoutChanged { snapshot: LayoutSnapshot },
    PaneOpened { pane: u32 },
    PaneClosed { pane: u32 },
    SessionClosed { session: u32 },
    /// Prefix armed/disarmed — drive the PREFIX status cell and pane outline.
    PrefixState { active: bool },
    /// `mux hide` (prefix-d): the host should hide the panel.
    HidePanel,
    /// The engine hit a non-recoverable state; the wrapper should disable input.
    Fatal { message: String },
}

pub enum EventView {
    PaneOutput { pane: u32, data: Seq<char> },
    LayoutChanged { snapshot: SnapshotView },
    PaneOpened { pane: u32 },
    PaneClosed { pane: u32 },
    SessionClosed { session: u32 },
    PrefixState { active: bool },
    HidePanel,
    Fatal { message: Seq<char> },
}

impl View for EngineEvent {
    type V = EventView;

    open spec fn view(&self) -> EventView {
        match *self {
            EngineEvent::PaneOutput { pane, data } => EventView::PaneOutput { pane, data: data@ },
            EngineEvent::LayoutChanged { snapshot } => EventView::LayoutChanged {
                snapshot: snapshot@,
            },
            EngineEvent::PaneOpened { pane } => EventView::PaneOpened { pane },
            EngineEvent::PaneClosed { pane } => EventView::PaneClosed { pane },
            EngineEvent::SessionClosed { session } => EventView::SessionClosed { session },
            EngineEvent::PrefixState { active } => EventView::PrefixState { active },
            EngineEvent::HidePanel => EventView::HidePanel,
            EngineEvent::Fatal { message } => EventView::Fatal { message: message@ },
        }
    }
}

/// The views of some events.
pub open spec fn events_view(events: Seq<EngineEvent>) -> Seq<EventView> {
    events.map_values(|e: EngineEvent| e@)
}

/// Host → engine control messages (`dispatch`).
#[derive(Debug)]
pub enum HostMsg {
    /// The prefix chord was pressed.
    PrefixKey,
    /// The key following an armed prefix (browser `KeyboardEvent.key`).
    Key { key: String },
    /// The user clicked into a pane.
    FocusPane { pane: u32 },
    /// Status-bar window tab click.
    FocusWindow { window: u32 },
    /// Dock session pill click.
    FocusSession { session: u32 },
    /// Divider drag: set the fraction of the child at `path` in the active
    /// window's split tree (its next sibling absorbs the difference).
    ResizeSplit { path: Vec<usize>, fraction: Share },
}

#[derive(Debug)]
pub struct SessionInfo {
    pub id: u32,
    pub name: String,
    pub active: bool,
}

#[derive(Debug)]
pub struct WindowInfo {
    pub id: u32,
    pub name: String,
    pub active: bool,
}

/// A session or a window as the page lists it.
pub struct InfoView {
    pub id: u32,
    pub name: Seq<char>,
    pub active: bool,
}

impl View for SessionInfo {
    type V = InfoView;

    open spec fn view(&self) -> InfoView {
        InfoView { id: self.id, name: self.name@, active: self.active }
    }
}

impl View for WindowInfo {
    type V = InfoView;

    open spec fn view(&self) -> InfoView {
        InfoView { id: self.id, name: self.name@, active: self.active }
    }
}

#[derive(Clone, Copy, Debug, PartialEq, Eq, Structural)]
pub struct PaneInfo {
    pub pane: u32,
    pub rect: Rect,
    pub active: bool,
}

/// Full picture of the active session (the visible panel renders this) plus
/// the session list for pickers/status.
#[derive(Debug)]
pub struct LayoutSnapshot {
    pub sessions: Vec<SessionInfo>,
    /// Windows of the active session.
    pub windows: Vec<WindowInfo>,
    /// Panes of the active window with fractional rects.
    pub panes: Vec<PaneInfo>,
    /// The focused pane.
    pub active_pane: u32,
    pub zoomed: Option<u32>,
}

pub struct SnapshotView {
    pub sessions: Seq<InfoView>,
    pub windows: Seq<InfoView>,
    pub panes: Seq<PaneInfo>,
    pub active_pane: u32,
    pub zoomed: Option<u32>,
}

impl View for LayoutSnapshot {
    type V = SnapshotView;

    open spec fn view(&self) -> SnapshotView {
        SnapshotView {
            sessions: self.sessions@.map_values(|s: SessionInfo| s@),
            windows: self.windows@.map_values(|w: WindowInfo| w@),
            panes: self.panes@,
            active_pane: self.active_pane,
            zoomed: self.zoomed,
        }
    }
}

} // verus!
