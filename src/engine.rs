//! The session engine: a state machine that turns focus changes, idle ticks
//! and a shutdown signal into numbered activity records.
use vstd::prelude::*;

verus! {

/// Seconds after which an idle tick splits a session that is still open.
pub const TIMEOUT_DELAY: u64 = 10;

/// What the window manager reported when focus moved.
pub struct FocusSnapshot {
    pub window_id: u64,
    pub title: String,
    pub workspace: String,
}

/// Abstract value of a [`FocusSnapshot`].
pub struct SnapshotView {
    pub window_id: u64,
    pub title: Seq<char>,
    pub workspace: Seq<char>,
}

impl View for FocusSnapshot {
    type V = SnapshotView;

    open spec fn view(&self) -> SnapshotView {
        SnapshotView { window_id: self.window_id, title: self.title@, workspace: self.workspace@ }
    }
}

impl FocusSnapshot {
    pub fn new(window_id: u64, title: String, workspace: String) -> (r: FocusSnapshot)
        ensures
            r@ == (SnapshotView { window_id, title: title@, workspace: workspace@ }),
    {
        FocusSnapshot { window_id, title, workspace }
    }

    /// A copy holding the same values.
    pub fn duplicate(&self) -> (r: FocusSnapshot)
        ensures
            r@ == self@,
    {
        FocusSnapshot {
            window_id: self.window_id,
            title: self.title.clone(),
            workspace: self.workspace.clone(),
        }
    }
}

/// A finished, numbered stretch of time during which one window had focus.
pub struct LogRecord {
    pub id: u64,
    pub snapshot: FocusSnapshot,
    pub start: u64,
    pub end: u64,
}

/// Abstract value of a [`LogRecord`].
pub struct RecordView {
    pub id: nat,
    pub snapshot: SnapshotView,
    pub start: nat,
    pub end: nat,
}

impl RecordView {
    pub open spec fn duration(self) -> int {
        self.end - self.start
    }
}

impl View for LogRecord {
    type V = RecordView;

    open spec fn view(&self) -> RecordView {
        RecordView {
            id: self.id as nat,
            snapshot: self.snapshot@,
            start: self.start as nat,
            end: self.end as nat,
        }
    }
}

impl LogRecord {
    /// Seconds between the opening and the closing of the session.
    pub fn duration(&self) -> (r: u64)
        requires
            self.start <= self.end,
        ensures
            r == self@.duration(),
    {
        self.end - self.start
    }
}

/// One input of the engine, in the order in which it arrived.
pub enum Event {
    FocusChanged(FocusSnapshot),
    /// An idle wake-up, carrying the record ID that was next when it was armed.
    Tick(u64),
    Shutdown,
}

pub enum EventView {
    FocusChanged(SnapshotView),
    Tick(nat),
    Shutdown,
}

impl View for Event {
    type V = EventView;

    open spec fn view(&self) -> EventView {
        match self {
            Event::FocusChanged(s) => EventView::FocusChanged(s@),
            Event::Tick(t) => EventView::Tick(*t as nat),
            Event::Shutdown => EventView::Shutdown,
        }
    }
}

/// The open half of a record: a snapshot and the time it became current.
pub struct Session {
    pub snapshot: FocusSnapshot,
    pub start: u64,
}

enum Phase {
    Idle,
    Tracking(Session),
    Done,
}

pub enum PhaseView {
    /// No focus change seen yet.
    Idle,
    /// A session is open.
    Tracking { snapshot: SnapshotView, start: nat },
    /// Shutdown was handled; nothing more is processed.
    Done,
}

pub struct EngineView {
    /// The ID that the next record will carry.
    pub next_id: nat,
    pub phase: PhaseView,
}

/// What the driver must do after one step.
pub struct Outcome {
    /// A record to append to the log.
    pub record: Option<LogRecord>,
    /// Arm an idle timer carrying this token.
    pub arm: Option<u64>,
    /// Flush the log and stop.
    pub exit: bool,
}

pub struct OutcomeView {
    pub record: Option<RecordView>,
    pub arm: Option<nat>,
    pub exit: bool,
}

impl View for Outcome {
    type V = OutcomeView;

    open spec fn view(&self) -> OutcomeView {
        OutcomeView {
            record: match self.record {
                Some(r) => Some(r@),
                None => None,
            },
            arm: match self.arm {
                Some(t) => Some(t as nat),
                None => None,
            },
            exit: self.exit,
        }
    }
}

/// A clock reading earlier than the session's start counts as the start.
pub open spec fn close_time(start: nat, now: nat) -> nat {
    if now < start {
        start
    } else {
        now
    }
}

pub open spec fn quiet(exit: bool) -> OutcomeView {
    OutcomeView { record: None, arm: None, exit }
}

/// One transition of the engine: the next state and what to do.
pub open spec fn next(s: EngineView, ev: EventView, now: nat) -> (EngineView, OutcomeView) {
    match s.phase {
        PhaseView::Done => (s, quiet(false)),
        PhaseView::Idle => match ev {
            EventView::FocusChanged(snap) => (
                EngineView { next_id: s.next_id, phase: PhaseView::Tracking { snapshot: snap, start: now } },
                OutcomeView { record: None, arm: Some(s.next_id), exit: false },
            ),
            EventView::Tick(_) => (s, quiet(false)),
            EventView::Shutdown => (EngineView { next_id: s.next_id, phase: PhaseView::Done }, quiet(true)),
        },
        PhaseView::Tracking { snapshot, start } => {
            let rec = RecordView { id: s.next_id, snapshot, start, end: close_time(start, now) };
            match ev {
                EventView::FocusChanged(snap) => (
                    EngineView {
                        next_id: s.next_id + 1,
                        phase: PhaseView::Tracking { snapshot: snap, start: close_time(start, now) },
                    },
                    OutcomeView { record: Some(rec), arm: Some((s.next_id + 1) as nat), exit: false },
                ),
                EventView::Tick(token) => if token == s.next_id {
                    (
                        EngineView {
                            next_id: s.next_id + 1,
                            phase: PhaseView::Tracking { snapshot, start: close_time(start, now) },
                        },
                        OutcomeView { record: Some(rec), arm: Some((s.next_id + 1) as nat), exit: false },
                    )
                } else {
                    (s, quiet(false))
                },
                EventView::Shutdown => (
                    EngineView { next_id: s.next_id + 1, phase: PhaseView::Done },
                    OutcomeView { record: Some(rec), arm: None, exit: true },
                ),
            }
        },
    }
}

/// The engine's state: the next record ID and the current session, if any.
pub struct Engine {
    next_id: u64,
    phase: Phase,
}

impl View for Engine {
    type V = EngineView;

    closed spec fn view(&self) -> EngineView {
        EngineView {
            next_id: self.next_id as nat,
            phase: match self.phase {
                Phase::Idle => PhaseView::Idle,
                Phase::Tracking(sess) => PhaseView::Tracking {
                    snapshot: sess.snapshot@,
                    start: sess.start as nat,
                },
                Phase::Done => PhaseView::Done,
            },
        }
    }
}

impl Engine {
    /// An engine with no session whose first record will carry `next_id`.
    pub fn new(next_id: u64) -> (r: Engine)
        ensures
            r@ == (EngineView { next_id: next_id as nat, phase: PhaseView::Idle }),
    {
        Engine { next_id, phase: Phase::Idle }
    }

    /// The ID that the next record will carry.
    pub fn next_id(&self) -> (r: u64)
        ensures
            r == self@.next_id,
    {
        self.next_id
    }

    /// Whether a session is open.
    pub fn is_tracking(&self) -> (r: bool)
        ensures
            r == self@.phase is Tracking,
    {
        match self.phase {
            Phase::Tracking(_) => true,
            _ => false,
        }
    }

    /// Whether shutdown has been handled.
    pub fn is_done(&self) -> (r: bool)
        ensures
            r == self@.phase is Done,
    {
        match self.phase {
            Phase::Done => true,
            _ => false,
        }
    }

    /// Consumes one event observed at time `now` (in seconds).
    pub fn step(&mut self, event: Event, now: u64) -> (out: Outcome)
        requires
            old(self)@.next_id < u64::MAX,
        ensures
            (final(self)@, out@) == next(old(self)@, event@, now as nat),
    {
        let id = self.next_id;
        let mut phase = Phase::Done;
        std::mem::swap(&mut self.phase, &mut phase);
        match phase {
            Phase::Done => Outcome { record: None, arm: None, exit: false },
            Phase::Idle => match event {
                Event::FocusChanged(snap) => {
                    self.phase = Phase::Tracking(Session { snapshot: snap, start: now });
                    Outcome { record: None, arm: Some(id), exit: false }
                },
                Event::Tick(_) => {
                    self.phase = Phase::Idle;
                    Outcome { record: None, arm: None, exit: false }
                },
                Event::Shutdown => Outcome { record: None, arm: None, exit: true },
            },
            Phase::Tracking(sess) => {
                let end = if now < sess.start {
                    sess.start
                } else {
                    now
                };
                match event {
                    Event::FocusChanged(snap) => {
                        let rec = LogRecord { id, snapshot: sess.snapshot, start: sess.start, end };
                        self.next_id = id + 1;
                        self.phase = Phase::Tracking(Session { snapshot: snap, start: end });
                        Outcome { record: Some(rec), arm: Some(id + 1), exit: false }
                    },
                    Event::Tick(token) => {
                        if token == id {
                            let copy = sess.snapshot.duplicate();
                            let rec = LogRecord { id, snapshot: sess.snapshot, start: sess.start, end };
                            self.next_id = id + 1;
                            self.phase = Phase::Tracking(Session { snapshot: copy, start: end });
                            Outcome { record: Some(rec), arm: Some(id + 1), exit: false }
                        } else {
                            self.phase = Phase::Tracking(sess);
                            Outcome { record: None, arm: None, exit: false }
                        }
                    },
                    Event::Shutdown => {
                        let rec = LogRecord { id, snapshot: sess.snapshot, start: sess.start, end };
                        self.next_id = id + 1;
                        Outcome { record: Some(rec), arm: None, exit: true }
                    },
                }
            },
        }
    }
}

} // verus!
