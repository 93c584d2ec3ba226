//! Capture loops: how often they ask for a frame, when they say their format,
//! and when they stop.
use vstd::prelude::*;

verus! {

/// Nanoseconds in a second.
pub const SECOND_NS: u64 = 1_000_000_000;

/// The time for one frame at a rate of at least one.
pub open spec fn frame_budget(fps: u32) -> u64 {
    SECOND_NS / (if fps < 1 {
        1
    } else {
        fps as u64
    })
}

/// Spaces frames out evenly.
#[derive(Clone, Copy, Debug, PartialEq, Eq, Structural)]
pub struct Pacer {
    pub budget_ns: u64,
    pub next_deadline_ns: u64,
}

impl Pacer {
    /// A pacer for a frame rate, at rest since `now`.
    pub fn new(fps: u32, now: u64) -> (p: Pacer)
        ensures
            p.budget_ns == frame_budget(fps),
            p.next_deadline_ns == now,
    {
        let rate: u64 = if fps < 1 { 1 } else { fps as u64 };
        Pacer { budget_ns: SECOND_NS / rate, next_deadline_ns: now }
    }

    /// How long to sleep behind a frame: until the next deadline, or not at all
    /// where it has passed, which then counts from now.
    pub fn after_frame(&mut self, now: u64) -> (sleep: Option<u64>)
        requires
            old(self).next_deadline_ns + old(self).budget_ns <= u64::MAX,
        ensures
            final(self).budget_ns == old(self).budget_ns,
            final(self).next_deadline_ns == deadline_after(
                old(self).next_deadline_ns as int,
                old(self).budget_ns as int,
                now as int,
            ),
            sleep == (if final(self).next_deadline_ns > now {
                Some((final(self).next_deadline_ns - now) as u64)
            } else {
                None
            }),
    {
        self.next_deadline_ns = self.next_deadline_ns + self.budget_ns;
        if self.next_deadline_ns > now {
            Some(self.next_deadline_ns - now)
        } else {
            self.next_deadline_ns = now;
            None
        }
    }
}

/// The deadline behind a frame: one frame further, but not in the past.
pub open spec fn deadline_after(deadline: int, budget: int, now: int) -> int {
    if deadline + budget > now {
        deadline + budget
    } else {
        now
    }
}

/// A loop that lost time does not hurry to catch up: whatever the clock did, the
/// next deadline is neither in the past nor more than one frame ahead.
pub proof fn pacing_never_bursts(deadline: int, budget: int, now: int)
    requires
        0 <= budget,
    ensures
        now <= deadline_after(deadline, budget, now),
        deadline <= now ==> deadline_after(deadline, budget, now) <= now + budget,
{
}

/// What a captured buffer is.
#[derive(Clone, Copy, Debug, PartialEq, Eq, Structural)]
pub struct BufferFormat {
    pub width: u32,
    pub height: u32,
    pub fourcc: u32,
    pub modifier: u64,
}

/// The format of a stream of buffers, known before its first frame.
#[derive(Clone, Copy, Debug, PartialEq, Eq, Structural)]
pub struct DmabufStreamFormat {
    pub width: u32,
    pub height: u32,
    pub fourcc: u32,
    pub modifier: u64,
    pub fps: u32,
}

/// What to do with a captured buffer.
#[derive(Clone, Copy, Debug, PartialEq, Eq, Structural)]
pub enum StreamStep {
    /// Its format is not that of the stream: stop.
    Drifted,
    /// Say the format first, then hand the buffer on.
    Announce(DmabufStreamFormat),
    /// Hand the buffer on.
    Forward,
}

/// A capture loop: its rate, the format of its stream, and whether that was
/// said.
#[derive(Clone, Copy, Debug, PartialEq, Eq, Structural)]
pub struct StreamLoop {
    pub fps: u32,
    pub expected: Option<BufferFormat>,
    pub announced: bool,
}

/// Two buffers have the same pixel format and layout.
pub open spec fn same_layout(a: BufferFormat, b: BufferFormat) -> bool {
    a.fourcc == b.fourcc && a.modifier == b.modifier
}

impl StreamLoop {
    /// What to do with a captured buffer.
    pub open spec fn step(self, f: BufferFormat) -> StreamStep {
        if self.expected is Some && !same_layout(self.expected->0, f) {
            StreamStep::Drifted
        } else if self.announced {
            StreamStep::Forward
        } else {
            StreamStep::Announce(
                DmabufStreamFormat {
                    width: f.width,
                    height: f.height,
                    fourcc: f.fourcc,
                    modifier: f.modifier,
                    fps: self.fps,
                },
            )
        }
    }

    /// A loop that has captured nothing yet; its rate is at least one.
    pub fn new(fps: u32) -> (l: StreamLoop)
        ensures
            l.fps == (if fps < 1 {
                1
            } else {
                fps
            }),
            l.expected is None,
            !l.announced,
    {
        StreamLoop { fps: if fps < 1 { 1 } else { fps }, expected: None, announced: false }
    }

    /// Takes a captured buffer and says what to do with it.
    pub fn on_captured(&mut self, f: BufferFormat) -> (s: StreamStep)
        ensures
            s == old(self).step(f),
            final(self).fps == old(self).fps,
            s == StreamStep::Drifted ==> *final(self) == *old(self),
            s != StreamStep::Drifted ==> final(self).announced && final(self).expected == (
            if old(self).expected is Some {
                old(self).expected
            } else {
                Some(f)
            }),
    {
        match self.expected {
            Some(e) => {
                if e.fourcc != f.fourcc || e.modifier != f.modifier {
                    return StreamStep::Drifted;
                }
            },
            None => {
                self.expected = Some(f);
            },
        }
        if self.announced {
            StreamStep::Forward
        } else {
            self.announced = true;
            StreamStep::Announce(
                DmabufStreamFormat {
                    width: f.width,
                    height: f.height,
                    fourcc: f.fourcc,
                    modifier: f.modifier,
                    fps: self.fps,
                },
            )
        }
    }
}

/// The format is said once: behind a buffer that was handed on, no buffer of the
/// same layout announces again, and one of another layout stops the stream.
pub proof fn format_is_announced_once(l: StreamLoop, f: BufferFormat)
    requires
        l.announced,
        l.expected is Some,
    ensures
        l.step(f) == (if same_layout(l.expected->0, f) {
            StreamStep::Forward
        } else {
            StreamStep::Drifted
        }),
{
}

/// Whether a thumbnail's frame is whole; a torn one is left out.
pub fn frame_is_whole(len: usize, stride: u32, height: u32) -> (b: bool)
    ensures
        b == (len >= stride * height),
{
    proof {
        assert(0 <= stride * height <= 0xffff_ffff * 0xffff_ffff) by (nonlinear_arith)
            requires
                0 <= stride <= 0xffff_ffff,
                0 <= height <= 0xffff_ffff,
        ;
    }
    len as u64 >= stride as u64 * height as u64
}

/// At a frame rate of at least one, the frames of a second take no longer than the
/// second, and with a nanosecond more each they would.
pub proof fn frames_fill_their_second(fps: u32)
    requires
        fps >= 1,
    ensures
        frame_budget(fps) * fps <= SECOND_NS,
        SECOND_NS < (frame_budget(fps) + 1) * fps,
{
    let (n, d) = (SECOND_NS as int, fps as int);
    let q = n / d;
    vstd::arithmetic::div_mod::lemma_fundamental_div_mod(n, d);
    vstd::arithmetic::div_mod::lemma_mod_bound(n, d);
    assert(frame_budget(fps) == q);
    assert(q * d <= n < (q + 1) * d) by (nonlinear_arith)
        requires
            n == d * q + n % d,
            0 <= n % d < d,
    ;
}

/// Frames that come in time are one frame's time apart; a frame that comes late moves
/// the next one to its own time.
pub proof fn frames_in_time_are_evenly_spaced(deadline: int, budget: int, now: int)
    ensures
        now < deadline + budget ==> deadline_after(deadline, budget, now) - deadline == budget,
        now >= deadline + budget ==> deadline_after(deadline, budget, now) == now,
{
}

/// The format that is said is that of the buffer in hand, at the loop's rate; it is said
/// of the first buffer, and a buffer of another layout is never handed on.
pub proof fn the_format_said_is_the_buffers(l: StreamLoop, f: BufferFormat)
    ensures
        l.step(f) matches StreamStep::Announce(d) ==> {
            &&& d.width == f.width
            &&& d.height == f.height
            &&& d.fourcc == f.fourcc
            &&& d.modifier == f.modifier
            &&& d.fps == l.fps
        },
        l.expected is None && !l.announced ==> l.step(f) is Announce,
        l.expected matches Some(e) ==> (l.step(f) == StreamStep::Drifted <==> e.fourcc != f.fourcc
            || e.modifier != f.modifier),
        l.expected is None ==> l.step(f) != StreamStep::Drifted,
        l.announced ==> !(l.step(f) is Announce),
{
}

} // verus!
