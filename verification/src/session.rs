//! What the interactive loop and the one-shot snapshot do next.
//!
//! The loop outside drains the socket, reads the clock, draws and waits for
//! input; each decision in between is made here.

use vstd::prelude::*;

use crate::app::{key_to_cmd, App, AppView, Cmd, KeyCode};
use crate::model::{
    flow_seq, is_detail, is_table, row_views, visible_rows, EngineView, Flow, FlowView, ProcRow,
    RowView,
};
use crate::model::Engine;

verus! {

/// How many samples a sparkline remembers.
pub const HIST_LEN: usize = 60;

/// What falls due after the socket has been drained.
#[derive(Clone, Copy, Debug, PartialEq, Eq, Structural)]
pub struct Due {
    /// A pause has ended: poll fresh counters and re-baseline every flow.
    pub resume: bool,
    /// An interval has passed: recompute the rates over this many nanoseconds,
    /// poll again and note the time of the update.
    pub tick: Option<u64>,
}

/// A terminal event, as far as the loop tells events apart.
#[derive(Clone, Copy, Debug, PartialEq, Eq, Structural)]
pub enum Event {
    /// A key went down or repeats.
    Key { code: KeyCode, ctrl: bool },
    ScrollDown,
    ScrollUp,
    /// Any other move of the mouse.
    Mouse,
    Resize,
    /// Anything else, a key that went up among it.
    Other,
}

/// The loop's memory between rounds. Times are in nanoseconds on a clock that
/// never goes back.
#[derive(Clone, Copy, Debug, PartialEq, Eq, Structural)]
pub struct Session {
    pub interval: u64,
    pub last_tick: u64,
    pub needs_redraw: bool,
    /// Row count and cursor pid of the last rendered frame: input is interpreted
    /// against what is on screen.
    pub shown_len: usize,
    pub shown_pid: Option<u32>,
    /// Pause freezes sampling, so a resume re-primes rather than measure a delta
    /// that spans the whole pause.
    pub was_paused: bool,
}

/// What one frame shows.
pub struct Frame {
    pub rows: Vec<ProcRow>,
    pub flows: Vec<Flow>,
}

impl Session {
    /// A session that is about to draw its first frame.
    pub open spec fn starting(interval: u64, now: u64) -> Session {
        Session {
            interval,
            last_tick: now,
            needs_redraw: true,
            shown_len: 0,
            shown_pid: None,
            was_paused: false,
        }
    }

    /// The time since the last tick.
    pub open spec fn elapsed(self, now: u64) -> u64 {
        if now >= self.last_tick {
            (now - self.last_tick) as u64
        } else {
            0
        }
    }

    /// What falls due at `now`. On the edge from paused to running the clock
    /// starts anew, so the pause is never part of a tick.
    pub open spec fn due(self, paused: bool, now: u64) -> Due {
        let resume = self.was_paused && !paused;
        let elapsed = if resume {
            0
        } else {
            self.elapsed(now)
        };
        Due {
            resume,
            tick: if !paused && elapsed >= self.interval {
                Some(elapsed)
            } else {
                None
            },
        }
    }

    /// The session once what fell due has been seen to.
    pub open spec fn advanced(self, paused: bool, now: u64) -> Session {
        let due = self.due(paused, now);
        Session {
            last_tick: if due.resume || due.tick is Some {
                now
            } else {
                self.last_tick
            },
            needs_redraw: self.needs_redraw || due.tick is Some,
            was_paused: paused,
            ..self
        }
    }

    /// Start the loop at `now`.
    pub fn new(interval: u64, now: u64) -> (r: Self)
        ensures
            r == Session::starting(interval, now),
    {
        Session {
            interval,
            last_tick: now,
            needs_redraw: true,
            shown_len: 0,
            shown_pid: None,
            was_paused: false,
        }
    }

    /// One round of the loop has drained the socket: what is to be done before
    /// drawing.
    pub fn advance(&mut self, paused: bool, now: u64) -> (due: Due)
        ensures
            due == old(self).due(paused, now),
            *final(self) == old(self).advanced(paused, now),
    {
        let resume: bool = self.was_paused && !paused;
        if resume {
            self.last_tick = now;
        }
        self.was_paused = paused;
        let elapsed: u64 = now.saturating_sub(self.last_tick);
        let mut tick: Option<u64> = None;
        if !paused && elapsed >= self.interval {
            tick = Some(elapsed);
            self.last_tick = now;
            self.needs_redraw = true;
        }
        Due { resume, tick }
    }

    /// The frame to draw, or `None` while nothing has changed. The selection is
    /// brought into the list, and what the frame shows is remembered for the
    /// input that follows.
    pub fn frame(&mut self, app: &mut App, engine: &Engine) -> (r: Option<Frame>)
        ensures
            r is Some <==> old(self).needs_redraw,
            r is None ==> *final(self) == *old(self) && final(app)@ == old(app)@,
            r is Some ==> {
                let frame = r->0;
                let rows = row_views(frame.rows@);
                &&& is_table(
                    rows,
                    engine@.rows,
                    old(app)@.filter,
                    old(app)@.sort,
                    old(app)@.sort_desc,
                )
                &&& final(app)@ == old(app)@.clamped(rows.len())
                &&& shows_detail(flow_seq(frame.flows@), engine@, old(app)@.expanded)
                &&& *final(self) == (Session {
                    needs_redraw: false,
                    shown_len: rows.len() as usize,
                    shown_pid: pid_at(rows, final(app)@.selected),
                    ..*old(self)
                })
            },
    {
        if !self.needs_redraw {
            return None;
        }
        let rows: Vec<ProcRow> = visible_rows(
            engine.rows(),
            app.filter.as_str(),
            app.sort,
            app.sort_desc,
        );
        app.clamp_selection(rows.len());
        self.shown_len = rows.len();
        self.shown_pid = if app.selected < rows.len() {
            Some(rows[app.selected].pid)
        } else {
            None
        };
        let flows: Vec<Flow> = match app.expanded {
            Some(pid) => engine.flows_for(pid),
            None => Vec::new(),
        };
        self.needs_redraw = false;
        assert(app.expanded is None ==> flow_seq(flows@) =~= seq![]);
        Some(Frame { rows, flows })
    }

    /// The session once an event has been seen.
    pub open spec fn seen(self, ev: Event) -> Session {
        Session { needs_redraw: self.needs_redraw || ev != Event::Other, ..self }
    }

    /// What an event means to the UI.
    pub open spec fn meaning(ev: Event, a: AppView) -> Option<Cmd> {
        match ev {
            Event::Key { code, ctrl } => crate::app::key_cmd(code, ctrl, a.mode),
            Event::ScrollDown => Some(Cmd::Down),
            Event::ScrollUp => Some(Cmd::Up),
            _ => None,
        }
    }

    /// An event came in: a key, the mouse or a resize asks for a redraw, and a
    /// command acts on the list that is on screen.
    pub fn on_event(&mut self, app: &mut App, ev: Event)
        ensures
            *final(self) == old(self).seen(ev),
            final(app)@ == match Session::meaning(ev, old(app)@) {
                Some(cmd) => old(app)@.after(cmd, old(self).shown_len as nat, old(self).shown_pid),
                None => old(app)@,
            },
    {
        let cmd: Option<Cmd> = match ev {
            Event::Key { code, ctrl } => key_to_cmd(code, ctrl, app.mode),
            Event::ScrollDown => Some(Cmd::Down),
            Event::ScrollUp => Some(Cmd::Up),
            _ => None,
        };
        if let Some(cmd) = cmd {
            app.handle(cmd, self.shown_len, self.shown_pid);
        }
        match ev {
            Event::Other => {},
            _ => self.needs_redraw = true,
        }
    }
}

/// The pid of the row at `i`, if there is one.
pub open spec fn pid_at(rows: Seq<RowView>, i: nat) -> Option<u32> {
    if i < rows.len() {
        Some(rows[i as int].pid)
    } else {
        None
    }
}

/// Whether `flows` is what the detail pane lists: the flows of the expanded
/// process, nothing if none is.
pub open spec fn shows_detail(flows: Seq<FlowView>, engine: EngineView, expanded: Option<u32>) -> bool {
    match expanded {
        Some(pid) => is_detail(flows, engine.flows, pid),
        None => flows.len() == 0,
    }
}

/// How many rows a page jump skips, for a terminal of the height.
pub open spec fn page_rows(height: nat) -> nat {
    if height >= 7 {
        (height - 6) as nat
    } else {
        1
    }
}

/// How many rows a page jump skips: what is left of the height without the
/// frame's own lines, at least one.
pub fn page_size(height: u16) -> (r: usize)
    ensures
        r == page_rows(height as nat),
{
    if height >= 7 {
        (height - 6) as usize
    } else {
        1
    }
}

// ---- one-shot snapshots ----------------------------------------------------

/// A step of a snapshot.
#[derive(Clone, Copy, Debug, PartialEq, Eq, Structural)]
pub enum Step {
    /// Apply what the kernel has sent and send the next descriptor requests.
    Drain,
    /// Wait the settling time.
    Settle,
    /// Ask for fresh counters.
    Poll,
    /// Wait one interval.
    Wait,
    /// Recompute the rates over one interval.
    Tick,
}

/// Milliseconds of the settling time.
pub const SETTLE_MILLIS: u64 = 60;

/// The `i`-th step of a snapshot, `None` at its end. First it settles: descriptor
/// requests are paced, so twelve drains let every source be seen and named. Then
/// two count samples, spaced by the interval, give a real rate.
pub open spec fn nth_step(i: nat) -> Option<Step> {
    if i < 24 {
        if i % 2 == 0 {
            Some(Step::Drain)
        } else {
            Some(Step::Settle)
        }
    } else if i < 32 {
        if i % 4 == 0 {
            Some(Step::Poll)
        } else if i % 4 == 1 {
            Some(Step::Wait)
        } else if i % 4 == 2 {
            Some(Step::Drain)
        } else {
            Some(Step::Tick)
        }
    } else {
        None
    }
}

/// What a snapshot does after `done` steps; `None` when it is complete.
pub fn snapshot_step(done: usize) -> (r: Option<Step>)
    ensures
        r == nth_step(done as nat),
{
    if done < 24 {
        if done % 2 == 0 {
            Some(Step::Drain)
        } else {
            Some(Step::Settle)
        }
    } else if done < 32 {
        match done % 4 {
            0 => Some(Step::Poll),
            1 => Some(Step::Wait),
            2 => Some(Step::Drain),
            _ => Some(Step::Tick),
        }
    } else {
        None
    }
}

// ---- laws ------------------------------------------------------------------

/// A pause is never part of a tick: while paused none falls due, and on the
/// resume edge the flows are re-baselined and the clock starts anew, so the next
/// tick spans only time after the pause.
pub proof fn law_pause_is_not_measured(s: Session, now: u64, resumed: u64, later: u64)
    requires
        s.interval > 0,
        now <= resumed <= later,
    ensures
        ({
            let paused = s.advanced(true, now);
            let running = paused.advanced(false, resumed);
            &&& s.due(true, now).tick is None
            &&& paused.due(false, resumed).resume
            &&& paused.due(false, resumed).tick is None
            &&& running.due(false, later).tick matches Some(nanos) ==> nanos == later - resumed
        }),
{
}

/// Ticks are at least one interval apart, and tile the running time: each spans
/// just the time since the one before.
pub proof fn law_ticks_tile_the_time(s: Session, now: u64, later: u64)
    requires
        !s.was_paused,
        s.due(false, now).tick is Some,
        now <= later,
    ensures
        s.due(false, now).tick->0 >= s.interval,
        s.advanced(false, now).due(false, later).tick matches Some(nanos) ==> nanos == later - now,
{
}

/// Without a tick and without input nothing is drawn again.
pub proof fn law_idle_rounds_draw_nothing(s: Session, paused: bool, now: u64)
    requires
        !s.needs_redraw,
        s.due(paused, now).tick is None,
    ensures
        !s.advanced(paused, now).needs_redraw,
        !s.advanced(paused, now).seen(Event::Other).needs_redraw,
{
}

/// While it runs, a tick falls due as soon as an interval has passed since the
/// last one, not before, and spans just the time since.
pub proof fn law_tick_falls_due(s: Session, now: u64)
    requires
        !s.was_paused,
        s.last_tick <= now,
    ensures
        now - s.last_tick >= s.interval ==> s.due(false, now) == (Due {
            resume: false,
            tick: Some((now - s.last_tick) as u64),
        }),
        now - s.last_tick < s.interval ==> s.due(false, now) == (Due {
            resume: false,
            tick: None,
        }),
        now - s.last_tick >= s.interval ==> s.advanced(false, now).last_tick == now
            && s.advanced(false, now).needs_redraw,
        now - s.last_tick < s.interval ==> s.advanced(false, now) == s,
{
}

/// A pause stops the clock and is remembered; its end is a resume, and starts the
/// clock anew. Neither changes what is on screen.
pub proof fn law_pause_and_resume(s: Session, now: u64)
    requires
        s.interval > 0,
    ensures
        s.due(true, now) == (Due { resume: false, tick: None }),
        s.advanced(true, now) == (Session { was_paused: true, ..s }),
        s.was_paused ==> s.due(false, now) == (Due { resume: true, tick: None }),
        s.was_paused ==> s.advanced(false, now) == (Session {
            was_paused: false,
            last_tick: now,
            ..s
        }),
{
}

/// The wheel moves as the arrows do, keys mean what the key map says, and no other
/// event is a command; any of them but noise asks for a redraw and changes nothing
/// else.
pub proof fn law_events_have_their_meaning(s: Session, code: KeyCode, ctrl: bool, a: AppView)
    ensures
        Session::meaning(Event::ScrollDown, a) == Some(Cmd::Down),
        Session::meaning(Event::ScrollUp, a) == Some(Cmd::Up),
        Session::meaning(Event::Key { code, ctrl }, a) == crate::app::key_cmd(code, ctrl, a.mode),
        Session::meaning(Event::Mouse, a) is None,
        Session::meaning(Event::Resize, a) is None,
        Session::meaning(Event::Other, a) is None,
        s.seen(Event::ScrollDown) == (Session { needs_redraw: true, ..s }),
        s.seen(Event::ScrollUp) == (Session { needs_redraw: true, ..s }),
        s.seen(Event::Key { code, ctrl }) == (Session { needs_redraw: true, ..s }),
        s.seen(Event::Mouse) == (Session { needs_redraw: true, ..s }),
        s.seen(Event::Resize) == (Session { needs_redraw: true, ..s }),
        s.seen(Event::Other) == s,
{
}

/// A session starts by drawing, and measures from its start.
pub proof fn law_session_starts_now(interval: u64, now: u64)
    ensures
        ({
            let s = Session::starting(interval, now);
            &&& s.interval == interval && s.last_tick == now
            &&& s.needs_redraw && !s.was_paused
            &&& s.shown_len == 0 && s.shown_pid is None
        }),
{
}

/// The pid under the cursor is that of the row there, and there is none past the
/// last row.
pub proof fn law_cursor_pid(rows: Seq<RowView>, i: nat)
    ensures
        i < rows.len() ==> pid_at(rows, i) == Some(rows[i as int].pid),
        i >= rows.len() ==> pid_at(rows, i) is None,
{
}

/// The detail pane lists the flows of the expanded process, and nothing when none
/// is.
pub proof fn law_detail_is_of_the_expanded(
    flows: Seq<FlowView>,
    engine: EngineView,
    expanded: Option<u32>,
)
    requires
        shows_detail(flows, engine, expanded),
    ensures
        expanded is Some ==> is_detail(flows, engine.flows, expanded->0),
        expanded is None ==> flows.len() == 0,
{
}

/// A page is what six lines of frame leave of the height, and never nothing.
pub proof fn law_page_fills_the_height(height: nat)
    ensures
        page_rows(height) >= 1,
        height > 6 ==> page_rows(height) + 6 == height,
        height <= 6 ==> page_rows(height) == 1,
{
}

/// A snapshot drains twelve times with a rest after each, then samples twice: it
/// polls, waits an interval, drains and ticks, and so has a real rate at its end.
pub proof fn law_snapshot_samples_twice(i: nat)
    ensures
        i < 12 ==> nth_step(2 * i) == Some(Step::Drain) && nth_step(2 * i + 1) == Some(
            Step::Settle,
        ),
        i < 2 ==> {
            &&& nth_step(24 + 4 * i) == Some(Step::Poll)
            &&& nth_step(25 + 4 * i) == Some(Step::Wait)
            &&& nth_step(26 + 4 * i) == Some(Step::Drain)
            &&& nth_step(27 + 4 * i) == Some(Step::Tick)
        },
        i >= 32 ==> nth_step(i) is None,
{
}

/// A clock that went back measures nothing.
pub proof fn law_clock_never_runs_back(s: Session, now: u64)
    requires
        now < s.last_tick,
        s.interval > 0,
    ensures
        s.due(false, now).tick is None,
        HIST_LEN == 60 && SETTLE_MILLIS == 60,
{
}

} // verus!
