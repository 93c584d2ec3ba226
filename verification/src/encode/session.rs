//! A running pipeline, from its start to its end: what to do next, whatever the
//! pipeline, the user or the clock do.
use crate::text;
use vstd::prelude::*;

verus! {

/// Which pipeline runs.
#[derive(Clone, Copy, Debug, PartialEq, Eq, Structural)]
pub enum SessionKind {
    /// Frames in memory.
    Video,
    /// Frames on the graphics card.
    Dmabuf,
    /// Several monitors composed on the graphics card.
    Composite,
    /// An animated image.
    Gif,
}

/// How far the session has come.
pub enum Phase {
    /// The pipeline is being started.
    Starting,
    /// Frames flow.
    Running,
    /// The stream was ended and the pipeline writes what it still has. An
    /// animated image already has its outcome here.
    Draining(Result<(), String>),
    /// The pipeline is being shut down.
    Stopping(Result<(), String>),
    /// The image encoder writes the file.
    Writing(Result<(), String>),
    /// Over, with this outcome.
    Finished(Result<(), String>),
}

/// What happens to a session.
pub enum SessionEvent {
    /// The start came back.
    StartReturned(Result<(), String>),
    /// The start broke down.
    StartPanicked(String),
    /// The start did not come back in time.
    StartTimedOut,
    /// The pipeline ended, with an error or without; nothing more will be heard
    /// of it where there is no word.
    Bus(Option<Result<(), String>>),
    /// The user stops the recording.
    Stop,
    /// The pipeline did not finish in time.
    DrainTimedOut,
    /// The shutdown came back.
    NullReturned(Result<(), String>),
    /// The shutdown broke down, or did not come back in time.
    NullLost,
    /// The image encoder has written the file.
    WriterReturned(Result<(), String>),
    /// The image encoder broke down.
    WriterPanicked,
}

/// What to do next.
#[derive(Clone, Copy, Debug, PartialEq, Eq, Structural)]
pub enum SessionAction {
    /// Wait for the next event.
    Wait,
    /// End the stream, and wait that many seconds for the pipeline.
    EndStream { timeout_secs: u64 },
    /// Shut the pipeline down, and wait that many seconds for it.
    ShutDown { timeout_secs: u64 },
    /// Close the image encoder's input and wait for its file.
    CloseWriter,
    /// Nothing is left to do.
    Finish,
}

/// How long a pipeline may take to start.
pub const START_TIMEOUT_SECS: u64 = 3;

/// How long a pipeline may take to finish its file.
pub const DRAIN_TIMEOUT_SECS: u64 = 3;

/// How long an animated image's pipeline may take to hand over its last frames.
pub const GIF_DRAIN_TIMEOUT_SECS: u64 = 2;

/// How long a pipeline may take to shut down.
pub const NULL_TIMEOUT_SECS: u64 = 2;

/// What stands before the error of a failed start.
pub open spec fn start_context(kind: SessionKind) -> Seq<char> {
    match kind {
        SessionKind::Video => "pipeline → Playing: "@,
        SessionKind::Dmabuf => "→ Playing: "@,
        SessionKind::Composite => "composite → Playing: "@,
        SessionKind::Gif => "gif pipeline → Playing: "@,
    }
}

/// What stands before the words of a start that broke down.
pub open spec fn panic_context(kind: SessionKind) -> Seq<char> {
    match kind {
        SessionKind::Video => "set_state(Playing) task panicked: "@,
        SessionKind::Gif => "gif set_state(Playing) task panicked: "@,
        _ => "set_state(Playing) panicked: "@,
    }
}

/// The words for a start that did not come back.
pub open spec fn timeout_text(kind: SessionKind) -> Seq<char> {
    match kind {
        SessionKind::Video => "pipeline failed to start within 3s (pipewiresrc wedged on caps negotiation)"@,
        SessionKind::Dmabuf => "set_state(Playing) did not return within 3s"@,
        SessionKind::Composite => "composite set_state(Playing) did not return within 3s"@,
        SessionKind::Gif => "gif pipeline failed to start within 3s"@,
    }
}

/// An outcome, its words as text.
pub enum Outcome {
    Good,
    Bad(Seq<char>),
}

/// A phase, its words as text.
pub enum PhaseModel {
    Starting,
    Running,
    Draining(Outcome),
    Stopping(Outcome),
    Writing(Outcome),
    Finished(Outcome),
}

/// An event, its words as text.
pub enum EventModel {
    StartReturned(Outcome),
    StartPanicked(Seq<char>),
    StartTimedOut,
    Bus(Option<Outcome>),
    Stop,
    DrainTimedOut,
    NullReturned(Outcome),
    NullLost,
    WriterReturned(Outcome),
    WriterPanicked,
}

/// A result's words as text.
pub open spec fn outcome(r: Result<(), String>) -> Outcome {
    match r {
        Ok(_) => Outcome::Good,
        Err(e) => Outcome::Bad(e@),
    }
}

impl View for Phase {
    type V = PhaseModel;

    open spec fn view(&self) -> PhaseModel {
        match *self {
            Phase::Starting => PhaseModel::Starting,
            Phase::Running => PhaseModel::Running,
            Phase::Draining(r) => PhaseModel::Draining(outcome(r)),
            Phase::Stopping(r) => PhaseModel::Stopping(outcome(r)),
            Phase::Writing(r) => PhaseModel::Writing(outcome(r)),
            Phase::Finished(r) => PhaseModel::Finished(outcome(r)),
        }
    }
}

impl View for SessionEvent {
    type V = EventModel;

    open spec fn view(&self) -> EventModel {
        match *self {
            SessionEvent::StartReturned(r) => EventModel::StartReturned(outcome(r)),
            SessionEvent::StartPanicked(s) => EventModel::StartPanicked(s@),
            SessionEvent::StartTimedOut => EventModel::StartTimedOut,
            SessionEvent::Bus(r) => EventModel::Bus(
                match r {
                    Some(r) => Some(outcome(r)),
                    None => None,
                },
            ),
            SessionEvent::Stop => EventModel::Stop,
            SessionEvent::DrainTimedOut => EventModel::DrainTimedOut,
            SessionEvent::NullReturned(r) => EventModel::NullReturned(outcome(r)),
            SessionEvent::NullLost => EventModel::NullLost,
            SessionEvent::WriterReturned(r) => EventModel::WriterReturned(outcome(r)),
            SessionEvent::WriterPanicked => EventModel::WriterPanicked,
        }
    }
}

/// The first outcome that is bad, else good.
pub open spec fn both(a: Outcome, b: Outcome) -> Outcome {
    match a {
        Outcome::Good => b,
        Outcome::Bad(e) => Outcome::Bad(e),
    }
}

/// What the pipeline's last word comes to.
pub open spec fn bus_outcome(r: Option<Outcome>) -> Outcome {
    match r {
        Some(o) => o,
        None => Outcome::Good,
    }
}

/// The phase behind an event, and what to do then. An event that the phase does
/// not wait for changes nothing.
pub open spec fn next(kind: SessionKind, phase: PhaseModel, ev: EventModel) -> (
    PhaseModel,
    SessionAction,
) {
    let gif = kind == SessionKind::Gif;
    let shut = SessionAction::ShutDown { timeout_secs: NULL_TIMEOUT_SECS };
    let ended = |o: Outcome|
        if gif {
            (
                PhaseModel::Draining(o),
                SessionAction::EndStream { timeout_secs: GIF_DRAIN_TIMEOUT_SECS },
            )
        } else {
            (PhaseModel::Stopping(o), shut)
        };
    let stopped = |o: Outcome|
        if gif {
            (PhaseModel::Writing(o), SessionAction::CloseWriter)
        } else {
            (PhaseModel::Finished(o), SessionAction::Finish)
        };
    match (phase, ev) {
        (PhaseModel::Starting, EventModel::StartReturned(o)) => match o {
            Outcome::Good => (PhaseModel::Running, SessionAction::Wait),
            Outcome::Bad(e) => (
                PhaseModel::Finished(Outcome::Bad(start_context(kind) + e)),
                SessionAction::Finish,
            ),
        },
        (PhaseModel::Starting, EventModel::StartPanicked(e)) => (
            PhaseModel::Finished(Outcome::Bad(panic_context(kind) + e)),
            SessionAction::Finish,
        ),
        (PhaseModel::Starting, EventModel::StartTimedOut) => (
            PhaseModel::Finished(Outcome::Bad(timeout_text(kind))),
            SessionAction::Finish,
        ),
        (PhaseModel::Running, EventModel::Bus(r)) => ended(bus_outcome(r)),
        (PhaseModel::Running, EventModel::Stop) => if gif {
            ended(Outcome::Good)
        } else {
            (
                PhaseModel::Draining(Outcome::Good),
                SessionAction::EndStream { timeout_secs: DRAIN_TIMEOUT_SECS },
            )
        },
        (PhaseModel::Draining(o), EventModel::Bus(r)) => (
            PhaseModel::Stopping(
                if gif {
                    o
                } else {
                    bus_outcome(r)
                },
            ),
            shut,
        ),
        (PhaseModel::Draining(o), EventModel::DrainTimedOut) => (PhaseModel::Stopping(o), shut),
        (PhaseModel::Stopping(o), EventModel::NullReturned(n)) => match n {
            Outcome::Bad(e) => if kind == SessionKind::Video {
                (
                    PhaseModel::Finished(Outcome::Bad("pipeline → Null: "@ + e)),
                    SessionAction::Finish,
                )
            } else {
                stopped(o)
            },
            Outcome::Good => stopped(o),
        },
        (PhaseModel::Stopping(o), EventModel::NullLost) => stopped(o),
        (PhaseModel::Writing(o), EventModel::WriterReturned(w)) => (
            PhaseModel::Finished(both(o, w)),
            SessionAction::Finish,
        ),
        (PhaseModel::Writing(_), EventModel::WriterPanicked) => (
            PhaseModel::Finished(Outcome::Bad("gif writer thread panicked"@)),
            SessionAction::Finish,
        ),
        (PhaseModel::Finished(o), _) => (PhaseModel::Finished(o), SessionAction::Finish),
        _ => (phase, SessionAction::Wait),
    }
}

/// A session and how far it has come.
pub struct Session {
    pub kind: SessionKind,
    pub phase: Phase,
}

fn failed_start(kind: SessionKind, e: &String) -> (s: String)
    ensures
        s@ == start_context(kind) + e@,
{
    let mut s = text::owned(
        match kind {
            SessionKind::Video => "pipeline → Playing: ",
            SessionKind::Dmabuf => "→ Playing: ",
            SessionKind::Composite => "composite → Playing: ",
            SessionKind::Gif => "gif pipeline → Playing: ",
        },
    );
    s.append(e.as_str());
    s
}

fn panicked_start(kind: SessionKind, e: &String) -> (s: String)
    ensures
        s@ == panic_context(kind) + e@,
{
    let mut s = text::owned(
        match kind {
            SessionKind::Video => "set_state(Playing) task panicked: ",
            SessionKind::Gif => "gif set_state(Playing) task panicked: ",
            _ => "set_state(Playing) panicked: ",
        },
    );
    s.append(e.as_str());
    s
}

fn late_start(kind: SessionKind) -> (s: String)
    ensures
        s@ == timeout_text(kind),
{
    text::owned(
        match kind {
            SessionKind::Video => "pipeline failed to start within 3s (pipewiresrc wedged on caps negotiation)",
            SessionKind::Dmabuf => "set_state(Playing) did not return within 3s",
            SessionKind::Composite => "composite set_state(Playing) did not return within 3s",
            SessionKind::Gif => "gif pipeline failed to start within 3s",
        },
    )
}

fn bus_result(r: Option<Result<(), String>>) -> (o: Result<(), String>)
    ensures
        outcome(o) == bus_outcome(
            match r {
                Some(r) => Some(outcome(r)),
                None => None,
            },
        ),
{
    match r {
        Some(r) => r,
        None => Ok(()),
    }
}

fn first_error(a: Result<(), String>, b: Result<(), String>) -> (o: Result<(), String>)
    ensures
        outcome(o) == both(outcome(a), outcome(b)),
{
    match a {
        Ok(_) => b,
        Err(e) => Err(e),
    }
}

impl Session {
    /// A session whose pipeline is being started.
    pub fn new(kind: SessionKind) -> (s: Session)
        ensures
            s.kind == kind,
            s.phase@ == PhaseModel::Starting,
    {
        Session { kind, phase: Phase::Starting }
    }

    /// The session after an event, and what to do then.
    pub fn step(self, ev: SessionEvent) -> (r: (Session, SessionAction))
        ensures
            r.0.kind == self.kind,
            (r.0.phase@, r.1) == next(self.kind, self.phase@, ev@),
    {
        let kind = self.kind;
        let gif: bool = match kind {
            SessionKind::Gif => true,
            _ => false,
        };
        let shut = SessionAction::ShutDown { timeout_secs: NULL_TIMEOUT_SECS };
        let (phase, action) = match (self.phase, ev) {
            (Phase::Starting, SessionEvent::StartReturned(r)) => match r {
                Ok(_) => (Phase::Running, SessionAction::Wait),
                Err(e) => (Phase::Finished(Err(failed_start(kind, &e))), SessionAction::Finish),
            },
            (Phase::Starting, SessionEvent::StartPanicked(e)) => (
                Phase::Finished(Err(panicked_start(kind, &e))),
                SessionAction::Finish,
            ),
            (Phase::Starting, SessionEvent::StartTimedOut) => (
                Phase::Finished(Err(late_start(kind))),
                SessionAction::Finish,
            ),
            (Phase::Running, SessionEvent::Bus(r)) => if gif {
                (
                    Phase::Draining(bus_result(r)),
                    SessionAction::EndStream { timeout_secs: GIF_DRAIN_TIMEOUT_SECS },
                )
            } else {
                (Phase::Stopping(bus_result(r)), shut)
            },
            (Phase::Running, SessionEvent::Stop) => if gif {
                (
                    Phase::Draining(Ok(())),
                    SessionAction::EndStream { timeout_secs: GIF_DRAIN_TIMEOUT_SECS },
                )
            } else {
                (
                    Phase::Draining(Ok(())),
                    SessionAction::EndStream { timeout_secs: DRAIN_TIMEOUT_SECS },
                )
            },
            (Phase::Draining(o), SessionEvent::Bus(r)) => (
                Phase::Stopping(if gif { o } else { bus_result(r) }),
                shut,
            ),
            (Phase::Draining(o), SessionEvent::DrainTimedOut) => (Phase::Stopping(o), shut),
            (Phase::Stopping(o), SessionEvent::NullReturned(n)) => match n {
                Err(e) => match kind {
                    SessionKind::Video => {
                        let mut s = text::owned("pipeline → Null: ");
                        s.append(e.as_str());
                        (Phase::Finished(Err(s)), SessionAction::Finish)
                    },
                    SessionKind::Gif => (Phase::Writing(o), SessionAction::CloseWriter),
                    _ => (Phase::Finished(o), SessionAction::Finish),
                },
                Ok(_) => if gif {
                    (Phase::Writing(o), SessionAction::CloseWriter)
                } else {
                    (Phase::Finished(o), SessionAction::Finish)
                },
            },
            (Phase::Stopping(o), SessionEvent::NullLost) => if gif {
                (Phase::Writing(o), SessionAction::CloseWriter)
            } else {
                (Phase::Finished(o), SessionAction::Finish)
            },
            (Phase::Writing(o), SessionEvent::WriterReturned(w)) => (
                Phase::Finished(first_error(o, w)),
                SessionAction::Finish,
            ),
            (Phase::Writing(_), SessionEvent::WriterPanicked) => (
                Phase::Finished(Err(text::owned("gif writer thread panicked"))),
                SessionAction::Finish,
            ),
            (Phase::Finished(o), _) => (Phase::Finished(o), SessionAction::Finish),
            (phase, _) => (phase, SessionAction::Wait),
        };
        (Session { kind, phase }, action)
    }
}

/// A recording that the user stops ends well, even where the pipeline never
/// answers: the stream is ended, the wait is cut off, and so is the shutdown.
pub proof fn a_stopped_recording_ends_well(kind: SessionKind)
    requires
        kind != SessionKind::Gif,
    ensures
        ({
            let a = next(kind, PhaseModel::Running, EventModel::Stop);
            let b = next(kind, a.0, EventModel::DrainTimedOut);
            let c = next(kind, b.0, EventModel::NullLost);
            &&& a.1 == SessionAction::EndStream { timeout_secs: 3 }
            &&& b.1 == SessionAction::ShutDown { timeout_secs: 2 }
            &&& c == (PhaseModel::Finished(Outcome::Good), SessionAction::Finish)
        }),
{
}

/// An error that the pipeline reports while frames flow is the outcome, however
/// the shutdown behind it goes: it may be lost, or succeed.
pub proof fn a_pipeline_error_is_the_outcome(kind: SessionKind, e: Seq<char>)
    requires
        kind != SessionKind::Gif,
    ensures
        ({
            let a = next(kind, PhaseModel::Running, EventModel::Bus(Some(Outcome::Bad(e))));
            &&& next(kind, a.0, EventModel::NullLost).0 == PhaseModel::Finished(Outcome::Bad(e))
            &&& next(kind, a.0, EventModel::NullReturned(Outcome::Good)).0
                == PhaseModel::Finished(Outcome::Bad(e))
        }),
{
}

/// An animated image is written whatever ended it, and its first error is the
/// outcome.
pub proof fn an_image_is_always_written(ev: EventModel, w: Outcome)
    requires
        ev is Stop || ev is Bus,
    ensures
        ({
            let kind = SessionKind::Gif;
            let first = if ev is Stop {
                Outcome::Good
            } else {
                bus_outcome(ev->Bus_0)
            };
            let a = next(kind, PhaseModel::Running, ev);
            let b = next(kind, a.0, EventModel::DrainTimedOut);
            let c = next(kind, b.0, EventModel::NullLost);
            let d = next(kind, c.0, EventModel::WriterReturned(w));
            &&& c.1 == SessionAction::CloseWriter
            &&& d == (PhaseModel::Finished(both(first, w)), SessionAction::Finish)
        }),
{
}

/// A session that is over stays over, with its outcome.
pub proof fn a_finished_session_stays_finished(kind: SessionKind, o: Outcome, ev: EventModel)
    ensures
        next(kind, PhaseModel::Finished(o), ev) == (PhaseModel::Finished(o), SessionAction::Finish),
{
}

/// What the counts of a finished recording show to be wrong.
#[derive(Clone, Copy, Debug, PartialEq, Eq, Structural)]
pub enum Diagnosis {
    /// No frame came through the pipeline.
    NoFrames,
    /// Frames came, but nothing was written.
    NoBytes,
    Fine,
}

/// What the counts of a finished recording show.
pub open spec fn shown_by_counts(frames: u64, bytes: u64) -> Diagnosis {
    if frames == 0 {
        Diagnosis::NoFrames
    } else if bytes == 0 {
        Diagnosis::NoBytes
    } else {
        Diagnosis::Fine
    }
}

/// The time that a parsed picture is shown at.
pub open spec fn shown_at(pts: Option<u64>, dts: Option<u64>) -> Option<u64> {
    if pts is Some {
        pts
    } else {
        dts
    }
}

/// What the counts of a finished recording show.
pub fn diagnose(frames: u64, bytes: u64) -> (d: Diagnosis)
    ensures
        d == (if frames == 0 {
            Diagnosis::NoFrames
        } else if bytes == 0 {
            Diagnosis::NoBytes
        } else {
            Diagnosis::Fine
        }),
        d == shown_by_counts(frames, bytes),
{
    if frames == 0 {
        Diagnosis::NoFrames
    } else if bytes == 0 {
        Diagnosis::NoBytes
    } else {
        Diagnosis::Fine
    }
}

/// The time that a parsed picture is shown at: its own, or its decoding time
/// where it has none.
pub fn muxer_pts(pts: Option<u64>, dts: Option<u64>) -> (r: Option<u64>)
    ensures
        r == (if pts is Some {
            pts
        } else {
            dts
        }),
        r == shown_at(pts, dts),
{
    match pts {
        Some(t) => Some(t),
        None => dts,
    }
}

/// The word that a phase carries of how the recording went, where it carries one.
pub open spec fn carried(phase: PhaseModel) -> Option<Outcome> {
    match phase {
        PhaseModel::Starting => None,
        PhaseModel::Running => None,
        PhaseModel::Draining(o) => Some(o),
        PhaseModel::Stopping(o) => Some(o),
        PhaseModel::Writing(o) => Some(o),
        PhaseModel::Finished(o) => Some(o),
    }
}

/// An animated image is never given up unwritten: however its shutdown ends, the image
/// encoder's input is closed and its file waited for, with the outcome so far; and a
/// running or draining one is nowhere near its end.
pub proof fn an_image_is_written_before_the_end(o: Outcome, ev: EventModel)
    ensures
        ev is NullReturned || ev is NullLost ==> next(
            SessionKind::Gif,
            PhaseModel::Stopping(o),
            ev,
        ) == (PhaseModel::Writing(o), SessionAction::CloseWriter),
        ev is Bus || ev is DrainTimedOut ==> next(SessionKind::Gif, PhaseModel::Draining(o), ev)
            == (PhaseModel::Stopping(o), (SessionAction::ShutDown { timeout_secs: 2 })),
        !(next(SessionKind::Gif, PhaseModel::Running, ev).0 is Finished),
        !(next(SessionKind::Gif, PhaseModel::Draining(o), ev).0 is Finished),
        !(next(SessionKind::Gif, PhaseModel::Stopping(o), ev).0 is Finished),
{
}

/// Only an animated image has a file to be written behind its shutdown; every other
/// recording is over then.
pub proof fn videos_end_with_their_shutdown(kind: SessionKind, o: Outcome, ev: EventModel)
    requires
        kind != SessionKind::Gif,
        ev is NullReturned || ev is NullLost,
    ensures
        ({
            let (phase, action) = next(kind, PhaseModel::Stopping(o), ev);
            &&& phase is Finished && action == SessionAction::Finish
            &&& ev == EventModel::NullReturned(Outcome::Good) || ev is NullLost || kind
                != SessionKind::Video ==> phase == PhaseModel::Finished(o)
        }),
{
}

/// A recording goes through its phases one by one: it runs before it drains, drains or
/// fails before it is shut down, and is shut down before it is over. Only a start that
/// fails ends it at once.
pub proof fn no_phase_is_passed_over(kind: SessionKind, phase: PhaseModel, ev: EventModel)
    ensures
        ({
            let after = next(kind, phase, ev).0;
            match phase {
                PhaseModel::Starting => after is Starting || after is Running || (after is Finished
                    && carried(after)->0 is Bad),
                PhaseModel::Running => after is Running || after is Draining || after is Stopping,
                PhaseModel::Draining(_) => after is Draining || after is Stopping,
                PhaseModel::Stopping(_) => after is Stopping || after is Writing || after is Finished,
                PhaseModel::Writing(_) => after is Writing || after is Finished,
                PhaseModel::Finished(_) => after is Finished,
            }
        }),
{
}

/// What is to be done is what the phase is for: each phase that is entered asks for its
/// own work, and one that is stayed in only waits.
pub proof fn each_phase_asks_for_its_work(kind: SessionKind, phase: PhaseModel, ev: EventModel)
    ensures
        ({
            let (after, action) = next(kind, phase, ev);
            let wait = if kind == SessionKind::Gif {
                2u64
            } else {
                3u64
            };
            let stayed = match phase {
                PhaseModel::Starting => after is Starting,
                PhaseModel::Running => after is Running,
                PhaseModel::Draining(_) => after is Draining,
                PhaseModel::Stopping(_) => after is Stopping,
                PhaseModel::Writing(_) => after is Writing,
                PhaseModel::Finished(_) => false,
            };
            if stayed {
                action == SessionAction::Wait && after == phase
            } else {
                match after {
                    PhaseModel::Starting => false,
                    PhaseModel::Running => action == SessionAction::Wait,
                    PhaseModel::Draining(_) => action == (SessionAction::EndStream {
                        timeout_secs: wait,
                    }),
                    PhaseModel::Stopping(_) => action == (SessionAction::ShutDown {
                        timeout_secs: 2,
                    }),
                    PhaseModel::Writing(_) => action == SessionAction::CloseWriter,
                    PhaseModel::Finished(_) => action == SessionAction::Finish,
                }
            }
        }),
{
}

/// Every phase has a way on: the events that a phase waits for move it.
pub proof fn no_phase_is_stuck(kind: SessionKind, o: Outcome, ev: EventModel)
    ensures
        ev is StartReturned || ev is StartPanicked || ev is StartTimedOut ==> !(next(
            kind,
            PhaseModel::Starting,
            ev,
        ).0 is Starting),
        next(kind, PhaseModel::Starting, EventModel::StartReturned(Outcome::Good)).0
            == PhaseModel::Running,
        ev is Bus || ev is Stop ==> !(next(kind, PhaseModel::Running, ev).0 is Running),
        ev is Bus || ev is DrainTimedOut ==> next(kind, PhaseModel::Draining(o), ev).0 is Stopping,
        ev is NullReturned || ev is NullLost ==> !(next(kind, PhaseModel::Stopping(o), ev).0
            is Stopping),
        ev is WriterReturned || ev is WriterPanicked ==> next(kind, PhaseModel::Writing(o), ev).0
            is Finished,
{
}

/// A stop asks the pipeline to finish its file before it is shut down, and by itself is
/// no failure.
pub proof fn a_stop_ends_the_stream_first(kind: SessionKind)
    ensures
        next(kind, PhaseModel::Running, EventModel::Stop).0 == PhaseModel::Draining(Outcome::Good),
        next(kind, PhaseModel::Running, EventModel::Stop).1 is EndStream,
{
}

/// No failure gets lost, and none is made up: a recording whose phase carries a failure
/// goes on carrying one, and one that carries none comes to carry one only by an event
/// that tells of one. An animated image carries what happened first.
pub proof fn failures_are_kept(kind: SessionKind, phase: PhaseModel, ev: EventModel)
    requires
        carried(phase) is Some,
        kind != SessionKind::Gif && phase is Draining ==> carried(phase) == Some(Outcome::Good),
    ensures
        ({
            let after = carried(next(kind, phase, ev).0);
            let told = match ev {
                EventModel::Bus(Some(Outcome::Bad(_))) => true,
                EventModel::NullReturned(Outcome::Bad(_)) => true,
                EventModel::WriterReturned(Outcome::Bad(_)) => true,
                EventModel::WriterPanicked => true,
                _ => false,
            };
            &&& after is Some
            &&& carried(phase)->0 is Bad ==> after->0 is Bad
            &&& carried(phase)->0 is Good && after->0 is Bad ==> told
            &&& kind == SessionKind::Gif && carried(phase)->0 is Bad && !(ev is WriterPanicked)
                ==> after == carried(phase)
        }),
{
}

/// The pipeline's last word is the outcome of a recording that it ends, or that is being
/// drained: its error, in its own words, or success.
pub proof fn the_last_word_is_the_outcome(kind: SessionKind, o: Outcome)
    ensures
        carried(next(kind, PhaseModel::Running, EventModel::Bus(Some(o))).0) == Some(o),
        carried(next(kind, PhaseModel::Running, EventModel::Bus(None)).0) == Some(Outcome::Good),
        kind != SessionKind::Gif ==> carried(
            next(kind, PhaseModel::Draining(Outcome::Good), EventModel::Bus(Some(o))).0,
        ) == Some(o),
        next(SessionKind::Gif, PhaseModel::Writing(Outcome::Good), EventModel::WriterReturned(o)).0
            == PhaseModel::Finished(o),
{
}

/// A start that fails says so, in the words that it failed with, behind words that tell
/// which pipeline it was.
pub proof fn a_failed_start_is_reported(kind: SessionKind, e: Seq<char>)
    ensures
        ({
            let a = carried(next(kind, PhaseModel::Starting, EventModel::StartReturned(Outcome::Bad(e))).0);
            let b = carried(next(kind, PhaseModel::Starting, EventModel::StartPanicked(e)).0);
            let c = carried(next(kind, PhaseModel::Starting, EventModel::StartTimedOut).0);
            &&& a matches Some(Outcome::Bad(s)) && text::ends(s, e) && s.len() > e.len()
            &&& b matches Some(Outcome::Bad(s)) && text::ends(s, e) && s.len() > e.len()
            &&& c matches Some(Outcome::Bad(s)) && s.len() > 0
        }),
{
    text::lemma_ends(start_context(kind), e);
    text::lemma_ends(panic_context(kind), e);
    reveal_strlit("pipeline → Playing: ");
    reveal_strlit("→ Playing: ");
    reveal_strlit("composite → Playing: ");
    reveal_strlit("gif pipeline → Playing: ");
    reveal_strlit("set_state(Playing) task panicked: ");
    reveal_strlit("gif set_state(Playing) task panicked: ");
    reveal_strlit("set_state(Playing) panicked: ");
    reveal_strlit(
        "pipeline failed to start within 3s (pipewiresrc wedged on caps negotiation)",
    );
    reveal_strlit("set_state(Playing) did not return within 3s");
    reveal_strlit("composite set_state(Playing) did not return within 3s");
    reveal_strlit("gif pipeline failed to start within 3s");
}

/// A recording is fine where frames came and bytes were written; where no frame came, that
/// is what is said, whatever was written.
pub proof fn a_fine_recording_has_frames_and_bytes(frames: u64, bytes: u64)
    ensures
        shown_by_counts(frames, bytes) == Diagnosis::Fine <==> frames > 0 && bytes > 0,
        shown_by_counts(frames, bytes) == Diagnosis::NoFrames <==> frames == 0,
        shown_by_counts(frames, bytes) == Diagnosis::NoBytes ==> bytes == 0 && frames > 0,
{
}

/// A picture is shown at its own time; one without goes by its decoding time, and only one
/// without either has none.
pub proof fn pictures_are_shown_at_their_time(pts: u64, dts: Option<u64>)
    ensures
        shown_at(Some(pts), dts) == Some(pts),
        shown_at(None, dts) == dts,
{
}

} // verus!
