//! The screencast portal: what is asked of it, and what is done with a token of
//! an earlier choice that it no longer takes.
use crate::text;
use vstd::prelude::*;

verus! {

/// Kinds of sources.
#[derive(Clone, Copy, Debug, PartialEq, Eq, Structural)]
pub struct SourceTypes {
    pub monitor: bool,
    pub window: bool,
}

/// The kinds to ask for: monitors and windows as far as they can be had, and
/// monitors where neither can, or where nobody says.
pub open spec fn requested_sources(available: Option<SourceTypes>) -> SourceTypes {
    match available {
        Some(a) => if a.monitor || a.window {
            a
        } else {
            SourceTypes { monitor: true, window: false }
        },
        None => SourceTypes { monitor: true, window: false },
    }
}

/// The kinds to ask for.
pub fn request_sources(available: Option<SourceTypes>) -> (r: SourceTypes)
    ensures
        r == requested_sources(available),
{
    match available {
        Some(a) if a.monitor || a.window => a,
        _ => SourceTypes { monitor: true, window: false },
    }
}

/// How the pointer is delivered.
#[derive(Clone, Copy, Debug, PartialEq, Eq, Structural)]
pub enum CursorMode {
    Hidden,
    Embedded,
    Metadata,
}

/// The ways that can be had.
#[derive(Clone, Copy, Debug, PartialEq, Eq, Structural)]
pub struct CursorModes {
    pub hidden: bool,
    pub embedded: bool,
    pub metadata: bool,
}

/// The way to ask for. With the pointer: drawn in, else hidden. Without it:
/// hidden, else the first that can be had, else hidden all the same.
pub open spec fn requested_cursor(cursor: bool, available: Option<CursorModes>) -> CursorMode {
    let a = match available {
        Some(a) => a,
        None => CursorModes { hidden: true, embedded: false, metadata: false },
    };
    if cursor {
        if a.embedded {
            CursorMode::Embedded
        } else {
            CursorMode::Hidden
        }
    } else if a.hidden {
        CursorMode::Hidden
    } else if a.embedded {
        CursorMode::Embedded
    } else if a.metadata {
        CursorMode::Metadata
    } else {
        CursorMode::Hidden
    }
}

/// The way to ask for.
pub fn request_cursor(cursor: bool, available: Option<CursorModes>) -> (m: CursorMode)
    ensures
        m == requested_cursor(cursor, available),
{
    let a = match available {
        Some(a) => a,
        None => CursorModes { hidden: true, embedded: false, metadata: false },
    };
    if cursor {
        if a.embedded {
            CursorMode::Embedded
        } else {
            CursorMode::Hidden
        }
    } else if a.hidden {
        CursorMode::Hidden
    } else if a.embedded {
        CursorMode::Embedded
    } else if a.metadata {
        CursorMode::Metadata
    } else {
        CursorMode::Hidden
    }
}

/// How far the request has come; `retry` is the second attempt, without a token.
#[derive(Clone, Copy, Debug, PartialEq, Eq, Structural)]
pub enum CastPhase {
    Creating { retry: bool },
    Selecting { retry: bool },
    Starting { retry: bool },
    /// The start was taken, and its answer is read.
    Answering { retry: bool },
    Done,
    Failed,
}

/// What to ask of the portal next.
#[derive(Clone, Copy, Debug, PartialEq, Eq, Structural)]
pub enum CastAction {
    CreateSession,
    /// Ask for sources, with the stored token or without one.
    SelectSources { with_token: bool },
    /// Forget the stored token and create a session anew.
    ForgetTokenAndCreateSession,
    Start,
    /// Read the answer to the start.
    ReadAnswer,
    /// The stream can be opened.
    OpenStream,
    /// The request failed.
    Fail,
}

/// The next phase, and what to ask then, once the last request has come back
/// well or not.
pub open spec fn next(phase: CastPhase, has_token: bool, ok: bool) -> (CastPhase, CastAction) {
    match phase {
        CastPhase::Creating { retry } => if ok {
            (
                CastPhase::Selecting { retry },
                CastAction::SelectSources { with_token: has_token && !retry },
            )
        } else {
            (CastPhase::Failed, CastAction::Fail)
        },
        CastPhase::Selecting { retry } => if ok {
            (CastPhase::Starting { retry }, CastAction::Start)
        } else if has_token && !retry {
            (CastPhase::Creating { retry: true }, CastAction::ForgetTokenAndCreateSession)
        } else {
            (CastPhase::Failed, CastAction::Fail)
        },
        CastPhase::Starting { retry } => if ok {
            (CastPhase::Answering { retry }, CastAction::ReadAnswer)
        } else if has_token && !retry {
            (CastPhase::Creating { retry: true }, CastAction::ForgetTokenAndCreateSession)
        } else {
            (CastPhase::Failed, CastAction::Fail)
        },
        CastPhase::Answering { retry } => if ok {
            (CastPhase::Done, CastAction::OpenStream)
        } else if has_token && !retry {
            (CastPhase::Creating { retry: true }, CastAction::ForgetTokenAndCreateSession)
        } else {
            (CastPhase::Failed, CastAction::Fail)
        },
        CastPhase::Done => (CastPhase::Done, CastAction::OpenStream),
        CastPhase::Failed => (CastPhase::Failed, CastAction::Fail),
    }
}

/// What stands before the error of a request that failed.
pub open spec fn failure_context(phase: CastPhase) -> Seq<char> {
    match phase {
        CastPhase::Creating { retry } => if retry {
            "create Screencast session (retry)"@
        } else {
            "create Screencast session"@
        },
        CastPhase::Selecting { retry } => if retry {
            "Screencast select_sources (retry)"@
        } else {
            "Screencast select_sources"@
        },
        CastPhase::Starting { retry } => if retry {
            "Screencast start (retry)"@
        } else {
            "Screencast start"@
        },
        CastPhase::Answering { retry } => if retry {
            "Screencast start response (retry)"@
        } else {
            "Screencast start response"@
        },
        _ => ""@,
    }
}

/// A request to the portal under way.
#[derive(Clone, Copy, Debug, PartialEq, Eq, Structural)]
pub struct CastRequest {
    pub phase: CastPhase,
    /// Whether a token of an earlier choice is stored.
    pub has_token: bool,
}

impl CastRequest {
    /// A request that is about to create its session.
    pub fn new(has_token: bool) -> (r: (CastRequest, CastAction))
        ensures
            r.0.phase == (CastPhase::Creating { retry: false }),
            r.0.has_token == has_token,
            r.1 == CastAction::CreateSession,
    {
        (
            CastRequest { phase: CastPhase::Creating { retry: false }, has_token },
            CastAction::CreateSession,
        )
    }

    /// What stands before the error of the request that is out.
    pub fn context(&self) -> (s: &'static str)
        ensures
            s@ == failure_context(self.phase),
    {
        match self.phase {
            CastPhase::Creating { retry } => if retry {
                "create Screencast session (retry)"
            } else {
                "create Screencast session"
            },
            CastPhase::Selecting { retry } => if retry {
                "Screencast select_sources (retry)"
            } else {
                "Screencast select_sources"
            },
            CastPhase::Starting { retry } => if retry {
                "Screencast start (retry)"
            } else {
                "Screencast start"
            },
            CastPhase::Answering { retry } => if retry {
                "Screencast start response (retry)"
            } else {
                "Screencast start response"
            },
            _ => "",
        }
    }

    /// Takes the answer to the last request and says what to ask next.
    pub fn step(&mut self, ok: bool) -> (a: CastAction)
        ensures
            (final(self).phase, a) == next(old(self).phase, old(self).has_token, ok),
            final(self).has_token == old(self).has_token,
    {
        let (phase, action) = match self.phase {
            CastPhase::Creating { retry } => if ok {
                (
                    CastPhase::Selecting { retry },
                    CastAction::SelectSources { with_token: self.has_token && !retry },
                )
            } else {
                (CastPhase::Failed, CastAction::Fail)
            },
            CastPhase::Selecting { retry } => if ok {
                (CastPhase::Starting { retry }, CastAction::Start)
            } else if self.has_token && !retry {
                (CastPhase::Creating { retry: true }, CastAction::ForgetTokenAndCreateSession)
            } else {
                (CastPhase::Failed, CastAction::Fail)
            },
            CastPhase::Starting { retry } => if ok {
                (CastPhase::Answering { retry }, CastAction::ReadAnswer)
            } else if self.has_token && !retry {
                (CastPhase::Creating { retry: true }, CastAction::ForgetTokenAndCreateSession)
            } else {
                (CastPhase::Failed, CastAction::Fail)
            },
            CastPhase::Answering { retry } => if ok {
                (CastPhase::Done, CastAction::OpenStream)
            } else if self.has_token && !retry {
                (CastPhase::Creating { retry: true }, CastAction::ForgetTokenAndCreateSession)
            } else {
                (CastPhase::Failed, CastAction::Fail)
            },
            CastPhase::Done => (CastPhase::Done, CastAction::OpenStream),
            CastPhase::Failed => (CastPhase::Failed, CastAction::Fail),
        };
        self.phase = phase;
        action
    }
}

/// A stale token costs one attempt, whether the portal refuses it when it is asked
/// for sources, when it is to start or in its answer to that: it is forgotten, the
/// sources are asked for without it, and if that works the stream comes. A second
/// failure is the end.
pub proof fn a_stale_token_is_retried_once(phase: CastPhase)
    requires
        phase == (CastPhase::Selecting { retry: false }) || phase == (CastPhase::Starting {
            retry: false,
        }) || phase == (CastPhase::Answering { retry: false }),
    ensures
        ({
            let a = next(phase, true, false);
            let b = next(a.0, true, true);
            let c = next(b.0, true, true);
            let d = next(c.0, true, true);
            let e = next(d.0, true, true);
            &&& a.1 == CastAction::ForgetTokenAndCreateSession
            &&& b.1 == (CastAction::SelectSources { with_token: false })
            &&& c.1 == CastAction::Start
            &&& d.1 == CastAction::ReadAnswer
            &&& e == (CastPhase::Done, CastAction::OpenStream)
            &&& next(a.0, true, false) == (CastPhase::Failed, CastAction::Fail)
            &&& next(b.0, true, false) == (CastPhase::Failed, CastAction::Fail)
            &&& next(c.0, true, false) == (CastPhase::Failed, CastAction::Fail)
            &&& next(d.0, true, false) == (CastPhase::Failed, CastAction::Fail)
        }),
{
}

/// Whether a token that came has to be stored: not where it is stored already.
pub fn token_to_store(stored: &Option<String>, received: &Option<String>) -> (r: Option<String>)
    ensures
        match received {
            Some(t) => if stored is Some && stored->0@ == t@ {
                r is None
            } else {
                r == Some(*t)
            },
            None => r is None,
        },
{
    match received {
        Some(t) => {
            if let Some(s) = stored {
                if *s == *t {
                    return None;
                }
            }
            Some(t.clone())
        },
        None => None,
    }
}

/// A stream that the portal grants.
#[derive(Clone, Copy, Debug)]
pub struct CastStream {
    pub node_id: u32,
    pub size: Option<(i32, i32)>,
}

/// The stream to open: the first one.
pub fn first_stream(streams: &Vec<CastStream>) -> (r: Result<CastStream, String>)
    ensures
        match r {
            Ok(s) => streams@.len() > 0 && s == streams@[0],
            Err(e) => streams@.len() == 0 && e@ == "ScreenCast returned no streams"@,
        },
{
    if streams.len() == 0 {
        Err(text::owned("ScreenCast returned no streams"))
    } else {
        Ok(streams[0])
    }
}

/// What is asked for can be had, where anything can; a monitor where nothing is said to be.
pub proof fn sources_asked_for_can_be_had(available: Option<SourceTypes>)
    ensures
        ({
            let r = requested_sources(available);
            &&& r.monitor || r.window
            &&& available matches Some(a) ==> (a.monitor || a.window ==> r.monitor == a.monitor
                && r.window == a.window)
            &&& available is None ==> r.monitor && !r.window
        }),
{
}

/// A pointer that is wanted is drawn in where it can be, and one that is not is hidden
/// where it can be; what is asked for can be had, where anything can.
pub proof fn the_pointer_is_as_wanted(cursor: bool, available: Option<CursorModes>)
    ensures
        ({
            let m = requested_cursor(cursor, available);
            &&& available matches Some(a) ==> {
                &&& cursor && a.embedded ==> m == CursorMode::Embedded
                &&& !cursor && a.hidden ==> m == CursorMode::Hidden
                &&& m == CursorMode::Embedded ==> a.embedded
                &&& m == CursorMode::Metadata ==> a.metadata && !cursor && !a.hidden && !a.embedded
                &&& !cursor && m == CursorMode::Hidden ==> a.hidden || !(a.embedded || a.metadata)
            }
            &&& available is None ==> m == CursorMode::Hidden
        }),
{
}

/// A request goes through its steps in their order, one for each answer, and opens the
/// stream behind the last of them and not before.
pub proof fn a_request_goes_through_its_steps(phase: CastPhase, has_token: bool, ok: bool)
    ensures
        ({
            let (p, a) = next(phase, has_token, ok);
            &&& a == CastAction::OpenStream <==> p == CastPhase::Done
            &&& p == CastPhase::Done <==> phase == CastPhase::Done || (phase is Answering && ok)
            &&& p is Selecting <==> phase is Creating && ok
            &&& p is Starting <==> phase is Selecting && ok
            &&& p is Answering <==> phase is Starting && ok
            &&& a is SelectSources <==> p is Selecting
            &&& a == CastAction::Start <==> p is Starting
            &&& a == CastAction::ReadAnswer <==> p is Answering
            &&& a == CastAction::Fail <==> p == CastPhase::Failed
            &&& a == CastAction::ForgetTokenAndCreateSession <==> p is Creating
            &&& phase == CastPhase::Failed ==> p == CastPhase::Failed
        }),
{
}

/// Only a first attempt with a token is tried again; the token is shown to the portal in
/// that attempt, and never in the second.
pub proof fn only_a_token_is_tried_again(phase: CastPhase, has_token: bool, ok: bool)
    ensures
        ({
            let (p, a) = next(phase, has_token, ok);
            &&& p is Creating ==> has_token && !ok && p == (CastPhase::Creating { retry: true })
            &&& !has_token && !ok && phase != CastPhase::Done ==> p == CastPhase::Failed
            &&& phase == (CastPhase::Creating { retry: false }) && ok ==> a == (
            CastAction::SelectSources { with_token: has_token })
            &&& phase == (CastPhase::Creating { retry: true }) && ok ==> a == (
            CastAction::SelectSources { with_token: false })
            &&& (phase == (CastPhase::Selecting { retry: true }) || phase == (CastPhase::Starting {
                retry: true,
            }) || phase == (CastPhase::Answering { retry: true })) && !ok ==> p == CastPhase::Failed
            &&& phase is Creating && !ok ==> p == CastPhase::Failed
        }),
{
}

/// The error of a second attempt says that it is one, and is else that of the first.
pub proof fn second_attempts_say_so()
    ensures
        failure_context(CastPhase::Creating { retry: true }) == failure_context(
            CastPhase::Creating { retry: false },
        ) + " (retry)"@,
        failure_context(CastPhase::Selecting { retry: true }) == failure_context(
            CastPhase::Selecting { retry: false },
        ) + " (retry)"@,
        failure_context(CastPhase::Starting { retry: true }) == failure_context(
            CastPhase::Starting { retry: false },
        ) + " (retry)"@,
        failure_context(CastPhase::Answering { retry: true }) == failure_context(
            CastPhase::Answering { retry: false },
        ) + " (retry)"@,
{
    reveal_strlit(" (retry)");
    reveal_strlit("create Screencast session");
    reveal_strlit("create Screencast session (retry)");
    reveal_strlit("Screencast select_sources");
    reveal_strlit("Screencast select_sources (retry)");
    reveal_strlit("Screencast start");
    reveal_strlit("Screencast start (retry)");
    reveal_strlit("Screencast start response");
    reveal_strlit("Screencast start response (retry)");
}

} // verus!
