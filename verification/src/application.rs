//! The event coordinator: the single-threaded owner of the session state.
//!
//! Hotkey notifications, fatal-error notifications and the shutdown signal
//! are merged into one state machine.  At most one recording session is
//! open at any time; every event either starts it, finishes it, or is
//! ignored.  The caller performs the returned [`Action`] (tray signal,
//! capture start, finish pipeline) and owns all the device plumbing.

use vstd::prelude::*;
use vstd::string::StringExecFns;

use crate::groq_client::TranscribeOpts;
use crate::text::{spec_decimal, u64_to_string};

verus! {

/// A hotkey notification delivered to the event coordinator.
#[derive(Debug)]
pub enum AppEvent {
    /// The key with this identifier went down, with the options configured
    /// for it.
    KeyPressed(u32, TranscribeOpts),
    /// The key with this identifier was released.
    KeyReleased(u32),
}

/// Command sent to the tray indicator.
#[derive(Debug, PartialEq, Eq, Structural)]
pub enum TrayCommand {
    /// Show the active (recording) or inactive icon.
    SetActive(bool),
}

/// What the coordinator asks its caller to do after handling an event.
#[derive(Debug)]
pub enum Action {
    /// The event was stale or foreign: do nothing.
    Ignore,
    /// A session began: signal the tray active and start capturing.
    Start,
    /// The active session ended: signal the tray inactive, then drain the
    /// capture, encode, transcribe with these options and inject the text.
    Finish(TranscribeOpts),
}

impl Action {
    /// The tray signal owed for this action: active on a session start,
    /// inactive on a session end, nothing for an ignored event.
    pub fn tray_command(&self) -> (r: Option<TrayCommand>)
        ensures
            r == match self {
                Action::Ignore => None::<TrayCommand>,
                Action::Start => Some(TrayCommand::SetActive(true)),
                Action::Finish(_) => Some(TrayCommand::SetActive(false)),
            },
    {
        match self {
            Action::Ignore => None,
            Action::Start => Some(TrayCommand::SetActive(true)),
            Action::Finish(_) => Some(TrayCommand::SetActive(false)),
        }
    }
}

/// The session state after an event: a press opens a session only when
/// none is active; only the release of the owning key closes it.
pub open spec fn next_active(
    active: Option<(u32, TranscribeOpts)>,
    event: AppEvent,
) -> Option<(u32, TranscribeOpts)> {
    match event {
        AppEvent::KeyPressed(id, opts) => if active is Some {
            active
        } else {
            Some((id, opts))
        },
        AppEvent::KeyReleased(id) => match active {
            Some((k, opts)) => if k == id {
                None
            } else {
                Some((k, opts))
            },
            None => None,
        },
    }
}

/// The action owed for an event: start on a qualifying press, finish with
/// the session's options on the owning key's release, otherwise nothing.
pub open spec fn event_action(active: Option<(u32, TranscribeOpts)>, event: AppEvent) -> Action {
    match event {
        AppEvent::KeyPressed(_, _) => if active is Some {
            Action::Ignore
        } else {
            Action::Start
        },
        AppEvent::KeyReleased(id) => match active {
            Some((k, opts)) => if k == id {
                Action::Finish(opts)
            } else {
                Action::Ignore
            },
            None => Action::Ignore,
        },
    }
}

/// The single owner of the session state.  `session() is Some` while a
/// recording session is open, holding the owning key and its options.
pub struct Coordinator {
    active: Option<(u32, TranscribeOpts)>,
}

impl Coordinator {
    /// The open session, if any: its owning key and its options.
    pub closed spec fn session(&self) -> Option<(u32, TranscribeOpts)> {
        self.active
    }

    /// The identifier of the key owning the open session, if any.
    pub open spec fn active_key(&self) -> Option<u32> {
        match self.session() {
            Some((k, _)) => Some(k),
            None => None,
        }
    }

    /// A fresh coordinator is idle.
    pub fn new() -> (c: Coordinator)
        ensures
            c.session() is None,
    {
        Coordinator { active: None }
    }

    /// Whether no session is open.
    pub fn is_idle(&self) -> (b: bool)
        ensures
            b == (self.session() is None),
    {
        self.active.is_none()
    }

    /// Handle one hotkey event, per `next_active` and `event_action`.
    pub fn handle_event(&mut self, event: AppEvent) -> (a: Action)
        ensures
            final(self).session() == next_active(old(self).session(), event),
            a == event_action(old(self).session(), event),
    {
        match event {
            AppEvent::KeyPressed(id, opts) => {
                if self.active.is_some() {
                    Action::Ignore
                } else {
                    self.active = Some((id, opts));
                    Action::Start
                }
            },
            AppEvent::KeyReleased(id) => {
                let owning = match &self.active {
                    Some((k, _)) => *k == id,
                    None => false,
                };
                if owning {
                    match self.active.take() {
                        Some((_, opts)) => Action::Finish(opts),
                        None => {
                            assert(false);
                            Action::Ignore
                        },
                    }
                } else {
                    Action::Ignore
                }
            },
        }
    }
}

/// An input to the coordinator's control loop.
#[derive(Debug)]
pub enum ControlEvent {
    /// A supervised background thread reported a failure.
    ThreadFailed,
    /// The hotkey listener delivered an event.
    Hotkey(AppEvent),
    /// An external shutdown request arrived.
    Shutdown,
}

/// How the control loop goes on after one input.
#[derive(Debug)]
pub enum LoopStep {
    /// Keep looping; perform this action first.
    Continue(Action),
    /// Stop with an error: a supervised thread is gone.
    FailStop,
    /// Stop cleanly; any open session is dropped by normal teardown.
    CleanStop,
}

impl Coordinator {
    /// Dispose of one control-loop input: a thread failure is always fatal,
    /// a shutdown request always stops the loop cleanly, and neither touches
    /// the session state; a hotkey event is handled by `handle_event`.
    pub fn step(&mut self, event: ControlEvent) -> (s: LoopStep)
        ensures
            match event {
                ControlEvent::ThreadFailed => final(self).session() == old(self).session() && s
                    == LoopStep::FailStop,
                ControlEvent::Hotkey(e) => final(self).session() == next_active(
                    old(self).session(),
                    e,
                ) && s == LoopStep::Continue(event_action(old(self).session(), e)),
                ControlEvent::Shutdown => final(self).session() == old(self).session() && s
                    == LoopStep::CleanStop,
            },
    {
        match event {
            ControlEvent::ThreadFailed => LoopStep::FailStop,
            ControlEvent::Hotkey(e) => LoopStep::Continue(self.handle_event(e)),
            ControlEvent::Shutdown => LoopStep::CleanStop,
        }
    }
}

/// Decide what text to inject after a transcription attempt: the returned
/// text when the call succeeded with something non-empty, nothing when it
/// came back empty, and nothing when the call failed (`None`).
pub fn text_to_inject(outcome: Option<String>) -> (r: Option<String>)
    ensures
        match outcome {
            Some(t) => if t@.len() == 0 {
                r is None
            } else {
                r == Some(t)
            },
            None => r is None,
        },
{
    match outcome {
        Some(t) => {
            if t.as_str().is_empty() {
                None
            } else {
                Some(t)
            }
        },
        None => None,
    }
}

/// Law: a release with no prior press is a no-op that leaves the
/// coordinator idle.
pub proof fn lemma_release_without_press(k: u32)
    ensures
        next_active(None, AppEvent::KeyReleased(k)) is None,
        event_action(None, AppEvent::KeyReleased(k)) == Action::Ignore,
{
}

/// Law: any press while a session is active is ignored; this covers both a
/// press of a second key and a double press of the active key itself.
pub proof fn lemma_press_while_active(
    active: Option<(u32, TranscribeOpts)>,
    k: u32,
    opts: TranscribeOpts,
)
    requires
        active is Some,
    ensures
        next_active(active, AppEvent::KeyPressed(k, opts)) == active,
        event_action(active, AppEvent::KeyPressed(k, opts)) == Action::Ignore,
{
}

/// Law: releasing a key other than the session's owner is ignored.
pub proof fn lemma_foreign_release(j: u32, opts: TranscribeOpts, k: u32)
    requires
        j != k,
    ensures
        next_active(Some((j, opts)), AppEvent::KeyReleased(k)) == Some((j, opts)),
        event_action(Some((j, opts)), AppEvent::KeyReleased(k)) == Action::Ignore,
{
}

/// Law: from idle, pressing a key opens a session owned by it, and
/// releasing the same key closes it again, finishing with the options the
/// press carried: the coordinator is fully back to idle.
pub proof fn lemma_press_release_cycle(k: u32, opts: TranscribeOpts)
    ensures
        ({
            let pressed = AppEvent::KeyPressed(k, opts);
            let s1 = next_active(None, pressed);
            &&& event_action(None, pressed) == Action::Start
            &&& s1 == Some((k, opts))
            &&& next_active(s1, AppEvent::KeyReleased(k)) is None
            &&& event_action(s1, AppEvent::KeyReleased(k)) == Action::Finish(opts)
        }),
{
}

/// The logging form of an event: its variant and key identifier only,
/// never the options.
pub open spec fn spec_event_display(e: AppEvent) -> Seq<char> {
    match e {
        AppEvent::KeyPressed(id, _) => "KeyPressed("@ + spec_decimal(id as int) + ")"@,
        AppEvent::KeyReleased(id) => "KeyReleased("@ + spec_decimal(id as int) + ")"@,
    }
}

impl AppEvent {
    /// Rendering used for logging, `KeyPressed(<id>)` or `KeyReleased(<id>)`.
    pub fn display(&self) -> (r: String)
        ensures
            r@ == spec_event_display(*self),
    {
        match self {
            AppEvent::KeyPressed(id, _) => {
                let mut s = String::from_str("KeyPressed(");
                s.append(u64_to_string(*id as u64).as_str());
                s.append(")");
                proof {
                    assert(s@ =~= spec_event_display(*self));
                }
                s
            },
            AppEvent::KeyReleased(id) => {
                let mut s = String::from_str("KeyReleased(");
                s.append(u64_to_string(*id as u64).as_str());
                s.append(")");
                proof {
                    assert(s@ =~= spec_event_display(*self));
                }
                s
            },
        }
    }
}

} // verus!
