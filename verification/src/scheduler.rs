//! The render loop's decisions: tray messages, the window state machine,
//! and the adaptive frame budget.
//!
//! The loop itself — the windowing backend, the draw callback, the
//! sleeps — stays with the caller.  Each iteration it feeds what happened
//! (a tray message, a window event, a finished frame) into the functions
//! here and performs the actions they hand back.  Time is passed in as
//! milliseconds of elapsed wall clock.

use vstd::prelude::*;

verus! {

/// A control message from the tray thread to the main thread.
#[derive(PartialEq, Eq, Structural, Clone, Copy)]
pub enum TrayMessage {
    /// Make the window visible again.
    Show,
    /// Leave the event loop and end the process.
    Quit,
}

/// What the event loop should do once the current iteration ends.
#[derive(PartialEq, Eq, Structural, Clone, Copy)]
pub enum ControlSignal {
    /// Block until the next window event.
    Waiting,
    /// Run another iteration immediately.
    Polling,
    /// Leave the loop.
    Exiting,
}

/// The scheduler's persistent mode across iterations.
#[derive(PartialEq, Eq, Structural, Clone, Copy)]
pub enum SchedulerPhase {
    /// Nothing pending: idle between frames.
    Idle,
    /// One extra frame was requested: the next iteration must poll once
    /// more instead of blocking.  This evens out how idling is reported
    /// across platforms.
    PendingExtraFrame,
    /// The loop is ending.
    Exiting,
}

/// A window-manager event, as the scheduler cares about it.
pub enum WindowEvent {
    /// The window was moved: the user is dragging it.
    Moved,
    /// The cursor entered the window.
    CursorEntered,
    /// The cursor left the window.
    CursorLeft,
    /// The user asked to close the window.
    CloseRequested,
    /// The window was resized to this size.
    Resized { width: u32, height: u32 },
    /// Anything else: forwarded to the input adapter, nothing decided.
    Other,
}

/// Frame budget, in milliseconds, while the window is being dragged.
pub const BUDGET_DRAGGING_MS: u64 = 8;

/// Frame budget, in milliseconds, while the window is minimized.
pub const BUDGET_MINIMIZED_MS: u64 = 100;

/// Frame budget, in milliseconds, otherwise.
pub const BUDGET_ACTIVE_MS: u64 = 16;

/// How long, in milliseconds, the dragging flag outlives the last move
/// event.
pub const DRAG_TIMEOUT_MS: u64 = 3000;

/// How long, in milliseconds, the loop sleeps per iteration while the
/// window is minimized.
pub const MINIMIZED_WAIT_MS: u64 = 200;

/// The phase after one tray message: `Quit` ends the loop, and nothing
/// brings it back; `Show` leaves the phase alone.
pub open spec fn phase_after_message(phase: SchedulerPhase, msg: TrayMessage) -> SchedulerPhase {
    match msg {
        TrayMessage::Quit => SchedulerPhase::Exiting,
        TrayMessage::Show => phase,
    }
}

/// The phase after a queue of tray messages, processed oldest first.
pub open spec fn phase_after_messages(
    phase: SchedulerPhase,
    msgs: Seq<TrayMessage>,
) -> SchedulerPhase
    decreases msgs.len(),
{
    if msgs.len() == 0 {
        phase
    } else {
        phase_after_messages(phase_after_message(phase, msgs[0]), msgs.drop_first())
    }
}

/// Whether `b` agrees with `a` on every field but the mouse flag.
pub open spec fn except_mouse_unchanged(a: &RenderScheduler, b: &RenderScheduler) -> bool {
    &&& b.minimized() == a.minimized()
    &&& b.dragging() == a.dragging()
    &&& b.last_drag_ms() == a.last_drag_ms()
    &&& b.last_frame_ms() == a.last_frame_ms()
    &&& b.phase() == a.phase()
}

/// Whether `b` agrees with `a` on every field but the phase.
pub open spec fn except_phase_unchanged(a: &RenderScheduler, b: &RenderScheduler) -> bool {
    &&& b.minimized() == a.minimized()
    &&& b.dragging() == a.dragging()
    &&& b.mouse_in_window() == a.mouse_in_window()
    &&& b.last_drag_ms() == a.last_drag_ms()
    &&& b.last_frame_ms() == a.last_frame_ms()
}

/// Whether `b` agrees with `a` on every field but the minimized flag.
pub open spec fn except_minimized_unchanged(a: &RenderScheduler, b: &RenderScheduler) -> bool {
    &&& b.dragging() == a.dragging()
    &&& b.mouse_in_window() == a.mouse_in_window()
    &&& b.last_drag_ms() == a.last_drag_ms()
    &&& b.last_frame_ms() == a.last_frame_ms()
    &&& b.phase() == a.phase()
}

/// The main thread's transient window state, reset at process start.
pub struct RenderScheduler {
    minimized: bool,
    dragging: bool,
    mouse_in_window: bool,
    last_drag_ms: u64,
    last_frame_ms: u64,
    phase: SchedulerPhase,
}

impl RenderScheduler {
    /// Whether the window is minimized (hidden to the tray).
    pub closed spec fn minimized(&self) -> bool {
        self.minimized
    }

    /// Whether the window is being dragged.
    pub closed spec fn dragging(&self) -> bool {
        self.dragging
    }

    /// Whether the mouse is inside the window.
    pub closed spec fn mouse_in_window(&self) -> bool {
        self.mouse_in_window
    }

    /// When, in milliseconds, the window was last moved.
    pub closed spec fn last_drag_ms(&self) -> u64 {
        self.last_drag_ms
    }

    /// When, in milliseconds, the previous frame began.
    pub closed spec fn last_frame_ms(&self) -> u64 {
        self.last_frame_ms
    }

    /// The scheduler's persistent mode.
    pub closed spec fn phase(&self) -> SchedulerPhase {
        self.phase
    }

    /// A scheduler at process start: all flags clear, idle.
    pub fn new(now_ms: u64) -> (s: RenderScheduler)
        ensures
            !s.minimized(),
            !s.dragging(),
            !s.mouse_in_window(),
            s.last_drag_ms() == now_ms,
            s.last_frame_ms() == now_ms,
            s.phase() == SchedulerPhase::Idle,
    {
        RenderScheduler {
            minimized: false,
            dragging: false,
            mouse_in_window: false,
            last_drag_ms: now_ms,
            last_frame_ms: now_ms,
            phase: SchedulerPhase::Idle,
        }
    }

    /// Takes one tray message.  `Show` clears the minimized flag and asks
    /// the caller to make the window visible; `Quit` clears it and ends
    /// the loop.  Returns whether the window must be made visible now.
    pub fn on_tray_message(&mut self, msg: TrayMessage) -> (show_window: bool)
        ensures
            !final(self).minimized(),
            final(self).phase() == phase_after_message(old(self).phase(), msg),
            show_window == (msg == TrayMessage::Show),
            final(self).dragging() == old(self).dragging(),
            final(self).mouse_in_window() == old(self).mouse_in_window(),
            final(self).last_drag_ms() == old(self).last_drag_ms(),
            final(self).last_frame_ms() == old(self).last_frame_ms(),
    {
        match msg {
            TrayMessage::Show => {
                self.minimized = false;
                true
            },
            TrayMessage::Quit => {
                self.minimized = false;
                self.phase = SchedulerPhase::Exiting;
                false
            },
        }
    }

    /// Takes a whole queue of tray messages, oldest first, as they must
    /// be processed.  Returns whether any of them asks for the window to
    /// be made visible.
    pub fn on_tray_messages(&mut self, msgs: &Vec<TrayMessage>) -> (show_window: bool)
        ensures
            final(self).phase() == phase_after_messages(old(self).phase(), msgs@),
            show_window == msgs@.contains(TrayMessage::Show),
            msgs@.len() > 0 ==> !final(self).minimized(),
            msgs@.len() == 0 ==> *final(self) == *old(self),
    {
        proof {
            assert(msgs@.skip(0) =~= msgs@);
            assert(msgs@.take(0) =~= Seq::<TrayMessage>::empty());
        }
        let mut show_window = false;
        let mut i: usize = 0;
        while i < msgs.len()
            invariant
                i <= msgs@.len(),
                phase_after_messages(old(self).phase(), msgs@) == phase_after_messages(
                    self.phase(),
                    msgs@.skip(i as int),
                ),
                show_window == msgs@.take(i as int).contains(TrayMessage::Show),
                i > 0 ==> !self.minimized(),
                i == 0 ==> *self == *old(self),
            decreases msgs@.len() - i,
        {
            let ghost pre = msgs@.skip(i as int);
            let shown = self.on_tray_message(msgs[i]);
            show_window = show_window || shown;
            proof {
                assert(pre[0] == msgs@[i as int]);
                assert(pre.drop_first() =~= msgs@.skip(i as int + 1));
                assert(msgs@.take(i as int + 1).drop_last() =~= msgs@.take(i as int));
                assert(msgs@.take(i as int + 1).last() == msgs@[i as int]);
                if show_window {
                    assert(msgs@.take(i as int + 1).contains(TrayMessage::Show));
                } else {
                    assert forall|k: int| 0 <= k < i + 1 implies #[trigger] msgs@.take(
                        i as int + 1,
                    )[k] != TrayMessage::Show by {
                        if k < i {
                            assert(msgs@.take(i as int)[k] == msgs@.take(i as int + 1)[k]);
                        }
                    }
                }
            }
            i = i + 1;
        }
        proof {
            assert(msgs@.take(msgs@.len() as int) =~= msgs@);
            assert(msgs@.skip(msgs@.len() as int) =~= Seq::<TrayMessage>::empty());
        }
        show_window
    }

    /// How long the loop should sleep before this iteration goes on:
    /// a fixed pause while the window is minimized, none otherwise.
    /// This sleep happens outside any store lock.
    pub fn idle_wait_ms(&self) -> (ms: u64)
        ensures
            ms == if self.minimized() {
                MINIMIZED_WAIT_MS
            } else {
                0u64
            },
    {
        if self.minimized {
            MINIMIZED_WAIT_MS
        } else {
            0
        }
    }

    /// A new event batch begins: returns the wall-clock time the previous
    /// frame took, for the UI's delta time, and stamps the frame.
    pub fn on_new_events(&mut self, now_ms: u64) -> (delta_ms: u64)
        requires
            old(self).last_frame_ms() <= now_ms,
        ensures
            delta_ms == now_ms - old(self).last_frame_ms(),
            final(self).last_frame_ms() == now_ms,
            final(self).minimized() == old(self).minimized(),
            final(self).dragging() == old(self).dragging(),
            final(self).mouse_in_window() == old(self).mouse_in_window(),
            final(self).last_drag_ms() == old(self).last_drag_ms(),
            final(self).phase() == old(self).phase(),
    {
        let delta = now_ms - self.last_frame_ms;
        self.last_frame_ms = now_ms;
        delta
    }

    /// The redraw pass is over.  When an extra frame is pending, the loop
    /// must poll once more and the pending mark is spent; otherwise it
    /// blocks.  An ending loop keeps ending.
    pub fn on_redraw_events_cleared(&mut self) -> (signal: ControlSignal)
        ensures
            old(self).phase() == SchedulerPhase::Exiting ==> signal == ControlSignal::Exiting
                && final(self).phase() == SchedulerPhase::Exiting,
            old(self).phase() == SchedulerPhase::PendingExtraFrame ==> signal
                == ControlSignal::Polling && final(self).phase() == SchedulerPhase::Idle,
            old(self).phase() == SchedulerPhase::Idle ==> signal == ControlSignal::Waiting
                && final(self).phase() == SchedulerPhase::Idle,
            final(self).minimized() == old(self).minimized(),
            final(self).dragging() == old(self).dragging(),
            final(self).mouse_in_window() == old(self).mouse_in_window(),
            final(self).last_drag_ms() == old(self).last_drag_ms(),
            final(self).last_frame_ms() == old(self).last_frame_ms(),
    {
        match self.phase {
            SchedulerPhase::Exiting => ControlSignal::Exiting,
            SchedulerPhase::PendingExtraFrame => {
                self.phase = SchedulerPhase::Idle;
                ControlSignal::Polling
            },
            SchedulerPhase::Idle => ControlSignal::Waiting,
        }
    }

    /// The frame budget the window state asks for: dragging wins over
    /// everything, a minimized window renders slowest, and an ordinary
    /// visible window sits in between.
    pub open spec fn budget_ms(&self) -> u64 {
        if self.dragging() {
            BUDGET_DRAGGING_MS
        } else if self.minimized() {
            BUDGET_MINIMIZED_MS
        } else {
            BUDGET_ACTIVE_MS
        }
    }

    /// The frame budget the current window state asks for; see
    /// [`Self::budget_ms`].
    pub fn frame_budget_ms(&self) -> (budget: u64)
        ensures
            budget == self.budget_ms(),
            self.dragging() ==> budget == BUDGET_DRAGGING_MS,
            !self.dragging() && self.minimized() ==> budget == BUDGET_MINIMIZED_MS,
            !self.dragging() && !self.minimized() ==> budget == BUDGET_ACTIVE_MS,
    {
        if self.dragging {
            BUDGET_DRAGGING_MS
        } else if self.minimized {
            BUDGET_MINIMIZED_MS
        } else {
            BUDGET_ACTIVE_MS
        }
    }

    /// A frame just finished drawing, having taken `frame_ms`.  When the
    /// draw callback asked for a refresh, an extra frame is scheduled.
    /// Returns how long to sleep so the frame fills its budget — the
    /// budget the flags asked for while the frame was drawn — and then
    /// retires the dragging flag once the last move event is
    /// [`DRAG_TIMEOUT_MS`] behind `now_ms`.
    pub fn on_frame_drawn(&mut self, refresh_requested: bool, frame_ms: u64, now_ms: u64) -> (sleep_ms:
        u64)
        requires
            old(self).last_drag_ms() <= now_ms,
        ensures
            sleep_ms == if frame_ms < old(self).budget_ms() {
                (old(self).budget_ms() - frame_ms) as u64
            } else {
                0u64
            },
            final(self).dragging() == (old(self).dragging() && now_ms - old(self).last_drag_ms()
                <= DRAG_TIMEOUT_MS),
            final(self).phase() == if refresh_requested && old(self).phase()
                != SchedulerPhase::Exiting {
                SchedulerPhase::PendingExtraFrame
            } else {
                old(self).phase()
            },
            final(self).minimized() == old(self).minimized(),
            final(self).mouse_in_window() == old(self).mouse_in_window(),
            final(self).last_drag_ms() == old(self).last_drag_ms(),
            final(self).last_frame_ms() == old(self).last_frame_ms(),
    {
        if refresh_requested && !matches!(self.phase, SchedulerPhase::Exiting) {
            self.phase = SchedulerPhase::PendingExtraFrame;
        }
        let budget = self.frame_budget_ms();
        let sleep_ms = if frame_ms < budget {
            budget - frame_ms
        } else {
            0
        };
        if self.dragging && now_ms - self.last_drag_ms > DRAG_TIMEOUT_MS {
            self.dragging = false;
        }
        sleep_ms
    }

    /// Takes one window-manager event.  Moving stamps and sets the
    /// dragging flag; the cursor events track the mouse; a close request
    /// ends the loop; shrinking to nothing minimizes.  Returns whether
    /// the window must be hidden now.
    pub fn on_window_event(&mut self, event: &WindowEvent, now_ms: u64) -> (hide_window: bool)
        ensures
            event is Moved ==> final(self).dragging() && final(self).last_drag_ms() == now_ms
                && final(self).minimized() == old(self).minimized() && final(self).phase() == old(
                self,
            ).phase() && final(self).mouse_in_window() == old(self).mouse_in_window(),
            event is CursorEntered ==> final(self).mouse_in_window() && except_mouse_unchanged(
                old(self),
                final(self),
            ),
            event is CursorLeft ==> !final(self).mouse_in_window() && except_mouse_unchanged(
                old(self),
                final(self),
            ),
            event is CloseRequested ==> final(self).phase() == SchedulerPhase::Exiting
                && except_phase_unchanged(old(self), final(self)),
            (event matches WindowEvent::Resized { width, height } && width == 0 && height == 0)
                ==> final(self).minimized() && except_minimized_unchanged(old(self), final(self)),
            (event matches WindowEvent::Resized { width, height } && !(width == 0 && height == 0))
                ==> *final(self) == *old(self),
            event is Other ==> *final(self) == *old(self),
            hide_window == (event matches WindowEvent::Resized { width, height } && width == 0
                && height == 0),
    {
        match event {
            WindowEvent::Moved => {
                self.last_drag_ms = now_ms;
                self.dragging = true;
                false
            },
            WindowEvent::CursorEntered => {
                self.mouse_in_window = true;
                false
            },
            WindowEvent::CursorLeft => {
                self.mouse_in_window = false;
                false
            },
            WindowEvent::CloseRequested => {
                self.phase = SchedulerPhase::Exiting;
                false
            },
            WindowEvent::Resized { width, height } => {
                if *width == 0 && *height == 0 {
                    self.minimized = true;
                    true
                } else {
                    false
                }
            },
            WindowEvent::Other => false,
        }
    }

    /// Whether the loop is ending.
    pub fn is_exiting(&self) -> (r: bool)
        ensures
            r == (self.phase() == SchedulerPhase::Exiting),
    {
        matches!(self.phase, SchedulerPhase::Exiting)
    }
}

/// A queue of tray messages holding a `Quit` anywhere ends the loop, no
/// matter what else stands before or after it.
pub proof fn lemma_quit_wins(phase: SchedulerPhase, msgs: Seq<TrayMessage>)
    requires
        msgs.contains(TrayMessage::Quit),
    ensures
        phase_after_messages(phase, msgs) == SchedulerPhase::Exiting,
    decreases msgs.len(),
{
    let i = choose|i: int| 0 <= i < msgs.len() && msgs[i] == TrayMessage::Quit;
    if i == 0 {
        lemma_exiting_is_terminal(msgs.drop_first());
    } else {
        assert(msgs.drop_first()[i - 1] == TrayMessage::Quit);
        assert(msgs.drop_first().contains(TrayMessage::Quit));
        lemma_quit_wins(phase_after_message(phase, msgs[0]), msgs.drop_first());
    }
}

/// Once the scheduler is ending, no later tray message revives it.
pub proof fn lemma_exiting_is_terminal(msgs: Seq<TrayMessage>)
    ensures
        phase_after_messages(SchedulerPhase::Exiting, msgs) == SchedulerPhase::Exiting,
    decreases msgs.len(),
{
    if msgs.len() > 0 {
        lemma_exiting_is_terminal(msgs.drop_first());
    }
}

/// A queue without a `Quit` leaves the phase alone: in particular `Show`
/// never ends the loop.
pub proof fn lemma_show_keeps_phase(phase: SchedulerPhase, msgs: Seq<TrayMessage>)
    requires
        !msgs.contains(TrayMessage::Quit),
    ensures
        phase_after_messages(phase, msgs) == phase,
    decreases msgs.len(),
{
    if msgs.len() > 0 {
        assert(msgs[0] != TrayMessage::Quit);
        assert forall|k: int| 0 <= k < msgs.drop_first().len() implies msgs.drop_first()[k]
            != TrayMessage::Quit by {
            assert(msgs.drop_first()[k] == msgs[k + 1]);
        }
        lemma_show_keeps_phase(phase, msgs.drop_first());
    }
}

} // verus!
