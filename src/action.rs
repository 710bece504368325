use vstd::prelude::*;

use crate::handler::Resize;
use crate::layout::{LayoutDirection, MoveDirection, Type as LayoutType};
use crate::workspaces::Workspaces;

verus! {

/// A key command, resolved from the key bindings.
#[derive(Clone, Debug)]
pub enum Action {
    /// Run a program: its name and arguments.
    Exec(Vec<String>),
    SwitchLayout(LayoutType),
    ToggleFullscreen,
    Split,
    SwitchWorkspace(char),
    MoveToWorkspace(char),
    FocusDirection(MoveDirection),
    ResizeDirection(LayoutDirection, Resize),
    CloseWindow,
}

/// What the display has to do after a command.
pub enum Effect {
    Nothing,
    /// Start the program.
    Spawn(Vec<String>),
    /// Lay out the children of this container again.
    Relayout(u64),
    /// Move the input focus to this window.
    Focus(u64),
    /// Ask this window to close.
    Kill(u64),
    /// Show or leave full screen the window.
    Fullscreen(u64),
    /// The focused leaf was split; the new frame window is in use.
    Split(u64),
    /// The current workspace changed: hide `from`, show `to`.
    Switched { from: char, to: char },
    /// The focused window moved to another workspace; the windows of the
    /// containers this emptied are to be destroyed.
    Moved { pruned: Vec<u64> },
}

/// The container an effect asks to lay out again, if any.
pub open spec fn relayout_of(e: Effect) -> Option<u64> {
    match e {
        Effect::Relayout(id) => Some(id),
        _ => None,
    }
}

/// The window an effect shows or leaves full screen, if any.
pub open spec fn fullscreen_of(e: Effect) -> Option<u64> {
    match e {
        Effect::Fullscreen(id) => Some(id),
        _ => None,
    }
}

/// The window an effect moves the focus to, if any.
pub open spec fn focus_of(e: Effect) -> Option<u64> {
    match e {
        Effect::Focus(w) => Some(w),
        _ => None,
    }
}

impl Action {
    /// Whether the command may need a new frame window: to split a leaf, or to
    /// create a workspace.
    pub fn needs_frame(&self) -> (r: bool)
        ensures
            r == match self {
                Action::Split | Action::SwitchWorkspace(_) | Action::MoveToWorkspace(_) => true,
                _ => false,
            },
    {
        match self {
            Action::Split | Action::SwitchWorkspace(_) | Action::MoveToWorkspace(_) => true,
            _ => false,
        }
    }
}

impl Workspaces {
    /// Carries out a key command. `focus` is the window holding the input
    /// focus, `frame` a fresh window that a command may take as a new frame,
    /// and `root` the display's root window.
    pub fn dispatch(&mut self, action: Action, focus: u64, frame: u64, root: u64) -> (r: Effect)
        requires
            old(self).wf(),
        ensures
            final(self).wf(),
            match action {
                Action::Exec(argv) => r == Effect::Spawn(argv) && *final(self) == *old(self),
                Action::SwitchLayout(t) => (r is Relayout || r is Nothing)
                    && old(self).layout_outcome(t, focus, relayout_of(r), *final(self)),
                Action::ToggleFullscreen => (r is Fullscreen || r is Nothing)
                    && old(self).fullscreen_outcome(focus, fullscreen_of(r), *final(self)),
                Action::Split => (r == Effect::Split(frame) || r is Nothing)
                    && old(self).split_outcome(focus, frame, root, r is Split, *final(self)),
                Action::SwitchWorkspace(key) => old(self).switch_outcome(key, frame, r is Switched, *final(self))
                    && if key == old(self).current {
                    r is Nothing
                } else {
                    r == (Effect::Switched { from: old(self).current, to: key })
                },
                Action::MoveToWorkspace(key) => match r {
                    Effect::Moved { pruned } => old(self).move_outcome(key, focus, true, pruned@, *final(self)),
                    Effect::Nothing => old(self).move_outcome(key, focus, false, Seq::empty(), *final(self)),
                    _ => false,
                },
                Action::FocusDirection(d) => *final(self) == *old(self) && (r is Focus || r is Nothing)
                    && old(self).focus_outcome(d, focus, focus_of(r)),
                Action::ResizeDirection(axis, resize) => (r is Relayout || r is Nothing)
                    && old(self).resize_outcome(axis, resize, focus, relayout_of(r), *final(self)),
                Action::CloseWindow => *final(self) == *old(self) && if old(self).holds(focus) {
                    r == Effect::Kill(focus)
                } else {
                    r is Nothing
                },
            },
    {
        match action {
            Action::Exec(argv) => Effect::Spawn(argv),
            Action::SwitchLayout(t) => match self.change_focused_layout(t, focus) {
                Some(id) => Effect::Relayout(id),
                None => Effect::Nothing,
            },
            Action::ToggleFullscreen => match self.toggle_fullscreen(focus) {
                Some(id) => Effect::Fullscreen(id),
                None => Effect::Nothing,
            },
            Action::Split => {
                if self.split_focused(focus, frame, root) {
                    Effect::Split(frame)
                } else {
                    Effect::Nothing
                }
            },
            Action::SwitchWorkspace(key) => {
                let from = self.current;
                if self.switch_workspace(key, frame) {
                    Effect::Switched { from, to: key }
                } else {
                    Effect::Nothing
                }
            },
            Action::MoveToWorkspace(key) => {
                let mut pruned: Vec<u64> = Vec::new();
                let moved = self.move_focused_to_workspace(key, focus, frame, &mut pruned);
                proof {
                    assert(pruned@.skip(0) =~= pruned@);
                }
                if moved {
                    Effect::Moved { pruned }
                } else {
                    Effect::Nothing
                }
            },
            Action::FocusDirection(d) => match self.focus_direction(d, focus) {
                Some(w) => Effect::Focus(w),
                None => Effect::Nothing,
            },
            Action::ResizeDirection(axis, resize) => match self.resize_focused(axis, resize, focus) {
                Some(id) => Effect::Relayout(id),
                None => Effect::Nothing,
            },
            Action::CloseWindow => match self.locate(focus) {
                Some(_) => Effect::Kill(focus),
                None => Effect::Nothing,
            },
        }
    }
}

} // verus!
