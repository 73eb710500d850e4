//! The interactive session: the record collection, a selection cursor and a
//! pending kill confirmation, driven by key events. Side effects (refreshing,
//! killing) are returned as actions for the caller to perform.

use vstd::prelude::*;
use crate::netstat::{EntryView, NetStatEntry, PID, ProtocolSet, entries_view};

verus! {

/// An input event, already decoded from the terminal.
#[derive(PartialEq, Eq, Structural, Clone, Copy, Debug)]
pub enum Key {
    /// Quit key or interrupt combination.
    Quit,
    Refresh,
    Next,
    Prev,
    /// Select or confirm.
    Enter,
    /// Affirm a pending kill.
    Yes,
    /// Deny a pending kill.
    No,
    Other,
}

/// The side effect that the caller performs after a transition.
#[derive(PartialEq, Eq, Structural, Clone, Copy, Debug)]
pub enum Action {
    Nothing,
    /// Fetch the records again and hand them to `apply_refresh`.
    Refresh,
    /// Terminate the process, then refresh whatever the outcome.
    Kill(PID),
}

pub struct Tui {
    pub proto: ProtocolSet,
    pub ports: Vec<NetStatEntry>,
    pub selected: usize,
    pub confirm: bool,
    pub exit: bool,
}

pub struct TuiView {
    pub proto: ProtocolSet,
    pub ports: Seq<EntryView>,
    pub selected: usize,
    pub confirm: bool,
    pub exit: bool,
}

impl View for Tui {
    type V = TuiView;

    open spec fn view(&self) -> TuiView {
        TuiView {
            proto: self.proto,
            ports: entries_view(self.ports@),
            selected: self.selected,
            confirm: self.confirm,
            exit: self.exit,
        }
    }
}

/// The session's invariant: the selection is 0 or a valid index, and a
/// confirmation is pending only on a non-empty collection.
pub open spec fn view_wf(v: TuiView) -> bool {
    &&& v.selected == 0 || v.selected < v.ports.len()
    &&& v.confirm ==> v.ports.len() > 0
}

/// Leaving the confirmation and asking for the selected process to die.
pub open spec fn kill_step(v: TuiView) -> (TuiView, Action) {
    (
        TuiView { confirm: false, ..v },
        Action::Kill(v.ports[v.selected as int].pid),
    )
}

/// The transition for one key: the next state and the side effect.
pub open spec fn transition(v: TuiView, k: Key) -> (TuiView, Action) {
    if v.exit {
        (v, Action::Nothing)
    } else {
        match k {
            Key::Quit => (TuiView { exit: true, ..v }, Action::Nothing),
            Key::Refresh => (
                v,
                if v.confirm {
                    Action::Nothing
                } else {
                    Action::Refresh
                },
            ),
            Key::Next => if !v.confirm && v.ports.len() > 0 {
                (
                    TuiView { selected: ((v.selected + 1) % (v.ports.len() as int)) as usize, ..v },
                    Action::Nothing,
                )
            } else {
                (v, Action::Nothing)
            },
            Key::Prev => if !v.confirm && v.ports.len() > 0 {
                (
                    TuiView {
                        selected: if v.selected == 0 {
                            (v.ports.len() - 1) as usize
                        } else {
                            (v.selected - 1) as usize
                        },
                        ..v
                    },
                    Action::Nothing,
                )
            } else {
                (v, Action::Nothing)
            },
            Key::Enter => if v.confirm {
                kill_step(v)
            } else if v.ports.len() > 0 {
                (TuiView { confirm: true, ..v }, Action::Nothing)
            } else {
                (v, Action::Nothing)
            },
            Key::Yes => if v.confirm {
                kill_step(v)
            } else {
                (v, Action::Nothing)
            },
            Key::No => (TuiView { confirm: false, ..v }, Action::Nothing),
            Key::Other => (v, Action::Nothing),
        }
    }
}

/// The selection after the collection becomes `n` records long.
pub open spec fn clamp(selected: usize, n: nat) -> usize {
    if n == 0 {
        0
    } else if selected < n {
        selected
    } else {
        (n - 1) as usize
    }
}

impl Tui {
    pub open spec fn wf(&self) -> bool {
        view_wf(self@)
    }

    /// A session with no records yet, nothing selected and nothing pending.
    pub fn new(proto: ProtocolSet) -> (r: Tui)
        ensures
            r.wf(),
            r@.proto == proto,
            r@.ports.len() == 0,
            r@.selected == 0,
            !r@.confirm,
            !r@.exit,
    {
        Tui { proto, ports: Vec::new(), selected: 0, confirm: false, exit: false }
    }

    /// Applies one key and returns the side effect that the caller owes.
    pub fn handle_key(&mut self, k: Key) -> (r: Action)
        requires
            old(self).wf(),
        ensures
            final(self).wf(),
            (final(self)@, r) == transition(old(self)@, k),
    {
        if self.exit {
            return Action::Nothing;
        }
        match k {
            Key::Quit => {
                self.exit = true;
                Action::Nothing
            },
            Key::Refresh => if self.confirm {
                Action::Nothing
            } else {
                Action::Refresh
            },
            Key::Next => {
                if !self.confirm && self.ports.len() > 0 {
                    self.selected = (self.selected + 1) % self.ports.len();
                }
                Action::Nothing
            },
            Key::Prev => {
                if !self.confirm && self.ports.len() > 0 {
                    if self.selected == 0 {
                        self.selected = self.ports.len() - 1;
                    } else {
                        self.selected = self.selected - 1;
                    }
                }
                Action::Nothing
            },
            Key::Enter => if self.confirm {
                self.kill_selected()
            } else {
                if self.ports.len() > 0 {
                    self.confirm = true;
                }
                Action::Nothing
            },
            Key::Yes => if self.confirm {
                self.kill_selected()
            } else {
                Action::Nothing
            },
            Key::No => {
                self.confirm = false;
                Action::Nothing
            },
            Key::Other => Action::Nothing,
        }
    }

    fn kill_selected(&mut self) -> (r: Action)
        requires
            old(self).wf(),
            old(self).confirm,
            !old(self).exit,
        ensures
            final(self).wf(),
            (final(self)@, r) == kill_step(old(self)@),
    {
        self.confirm = false;
        let pid = self.ports[self.selected].pid;
        Action::Kill(pid)
    }

    /// Replaces the records with a fresh scan and clamps the selection; a
    /// confirmation does not survive an empty collection.
    pub fn apply_refresh(&mut self, ports: Vec<NetStatEntry>)
        requires
            old(self).wf(),
        ensures
            final(self).wf(),
            final(self)@.ports == entries_view(ports@),
            final(self)@.selected == clamp(old(self)@.selected, ports@.len()),
            final(self)@.confirm == (old(self)@.confirm && ports@.len() > 0),
            final(self)@.exit == old(self)@.exit,
            final(self)@.proto == old(self)@.proto,
    {
        let n = ports.len();
        self.ports = ports;
        if n == 0 {
            self.selected = 0;
            self.confirm = false;
        } else if self.selected >= n {
            self.selected = n - 1;
        }
    }

    /// The process that a pending confirmation would kill.
    pub fn pending_kill(&self) -> (r: Option<PID>)
        requires
            self.wf(),
        ensures
            r == (if self@.confirm {
                Some(self@.ports[self@.selected as int].pid)
            } else {
                None::<PID>
            }),
    {
        if self.confirm {
            Some(self.ports[self.selected].pid)
        } else {
            None
        }
    }
}

/// From a state with no pending confirmation, asking to kill and then
/// denying leaves the records and the selection as they were, with no
/// confirmation pending, and neither key asks for a kill.
pub proof fn lemma_confirm_then_deny(v: TuiView)
    requires
        view_wf(v),
        !v.confirm,
    ensures
        ({
            let (a, x) = transition(v, Key::Enter);
            let (b, y) = transition(a, Key::No);
            &&& b.ports == v.ports
            &&& b.selected == v.selected
            &&& !b.confirm
            &&& x == Action::Nothing
            &&& y == Action::Nothing
        }),
{
}

} // verus!
