//! The region selection: its rectangle, what a press grabs, and how a drag
//! moves the edges.
use vstd::prelude::*;

verus! {

/// An integer rectangle, either output-relative or in the compositor's global
/// logical coordinates.
#[derive(Copy, Clone, Debug, PartialEq, Eq, Structural)]
pub struct Rect {
    pub left: i32,
    pub top: i32,
    pub right: i32,
    pub bottom: i32,
}

/// The distance of two coordinates.
pub open spec fn distance(a: int, b: int) -> int {
    if a <= b {
        b - a
    } else {
        a - b
    }
}

pub open spec fn smaller(a: int, b: int) -> int {
    if a <= b {
        a
    } else {
        b
    }
}

pub open spec fn larger(a: int, b: int) -> int {
    if a <= b {
        b
    } else {
        a
    }
}

impl Default for Rect {
    fn default() -> (r: Rect)
        ensures
            r == (Rect { left: 0, top: 0, right: 0, bottom: 0 }),
    {
        Rect { left: 0, top: 0, right: 0, bottom: 0 }
    }
}

impl Rect {
    /// Both extents are 32 bit lengths.
    pub open spec fn measurable(self) -> bool {
        distance(self.left as int, self.right as int) <= i32::MAX && distance(
            self.top as int,
            self.bottom as int,
        ) <= i32::MAX
    }

    /// The edges in order.
    pub open spec fn normalized(self) -> Rect {
        Rect {
            left: smaller(self.left as int, self.right as int) as i32,
            top: smaller(self.top as int, self.bottom as int) as i32,
            right: larger(self.left as int, self.right as int) as i32,
            bottom: larger(self.top as int, self.bottom as int) as i32,
        }
    }

    pub fn width(&self) -> (w: i32)
        requires
            distance(self.left as int, self.right as int) <= i32::MAX,
        ensures
            w == distance(self.left as int, self.right as int),
    {
        if self.left <= self.right {
            self.right - self.left
        } else {
            self.left - self.right
        }
    }

    pub fn height(&self) -> (h: i32)
        requires
            distance(self.top as int, self.bottom as int) <= i32::MAX,
        ensures
            h == distance(self.top as int, self.bottom as int),
    {
        if self.top <= self.bottom {
            self.bottom - self.top
        } else {
            self.top - self.bottom
        }
    }

    pub fn normalize(&self) -> (r: Rect)
        ensures
            r == self.normalized(),
            r.left <= r.right,
            r.top <= r.bottom,
    {
        Rect {
            left: if self.left <= self.right { self.left } else { self.right },
            top: if self.top <= self.bottom { self.top } else { self.bottom },
            right: if self.left <= self.right { self.right } else { self.left },
            bottom: if self.top <= self.bottom { self.bottom } else { self.top },
        }
    }
}

/// Ordering the edges twice is ordering them once, and keeps both extents.
pub proof fn normalize_is_idempotent(r: Rect)
    ensures
        r.normalized().normalized() == r.normalized(),
        distance(r.normalized().left as int, r.normalized().right as int) == distance(
            r.left as int,
            r.right as int,
        ),
        distance(r.normalized().top as int, r.normalized().bottom as int) == distance(
            r.top as int,
            r.bottom as int,
        ),
{
}

/// Which edge or corner is being dragged. `New` is the first drag of a fresh
/// selection: it moves the same corner as `SE`.
#[derive(Debug, Clone, Copy, PartialEq, Eq, Structural)]
pub enum DragKind {
    Nothing,
    New,
    NW,
    N,
    NE,
    E,
    SE,
    S,
    SW,
    W,
    Move,
}

impl Default for DragKind {
    fn default() -> (k: DragKind)
        ensures
            k == DragKind::Nothing,
    {
        DragKind::Nothing
    }
}

/// Selecting shows a border with handles, recording a thin border alone.
#[derive(Copy, Clone, Debug, PartialEq, Eq, Structural)]
pub enum Mode {
    Selecting,
    Recording,
}

impl Default for Mode {
    fn default() -> (m: Mode)
        ensures
            m == Mode::Selecting,
    {
        Mode::Selecting
    }
}

/// Half the side of a corner handle.
pub const HANDLE_RADIUS: i64 = 8;

/// Half the width of the strip along an edge that grabs it.
pub const EDGE_REACH: i64 = 4;

/// The border's width.
pub const BORDER_W: i64 = 3;

/// The kind of data that a selection drag carries between the surfaces.
pub const DND_MIME: &'static str = "X-COSMIC-CAPTURE-SelectionDrag";

/// Where a drag began: what it grabbed, the selection then, and the pointer in
/// global coordinates.
#[derive(Copy, Clone, Debug)]
pub struct DragSession {
    pub kind: DragKind,
    pub start_rect: Rect,
    pub anchor: (i32, i32),
}

/// What the selection tells the panel.
#[derive(Clone, Copy, Debug)]
pub enum WidgetEvent {
    DragStart { session: DragSession, initial_rect: Rect },
    DragMove(Rect),
    DragEnd,
}

/// What happens to the selection on one surface, in that surface's coordinates.
#[derive(Clone, Copy, Debug)]
pub enum SelectionInput {
    /// The pointer entered the surface during a drag, or moved there.
    Motion { x: i32, y: i32 },
    /// The drag was dropped on this surface.
    Drop,
    /// The drag's source finished, was cancelled or dropped.
    SourceEnded,
    /// The left button went down over the surface.
    Press { x: i32, y: i32 },
}

/// What comes of an input: an event for the panel, whether a drag between
/// surfaces has to be started, and whether the input is used up.
#[derive(Clone, Copy, Debug)]
pub struct SelectionReply {
    pub event: Option<WidgetEvent>,
    pub start_dnd: bool,
    pub captured: bool,
}

/// The pointer's shape.
#[derive(Clone, Copy, Debug, PartialEq, Eq, Structural)]
pub enum Interaction {
    Default,
    Grabbing,
    Grab,
    Crosshair,
    ResizingDiagonallyDown,
    ResizingDiagonallyUp,
    ResizingVertically,
    ResizingHorizontally,
}

/// A rectangle by its corner and its size.
#[derive(Clone, Copy, Debug, PartialEq, Eq, Structural)]
pub struct Area {
    pub x: i64,
    pub y: i64,
    pub width: i64,
    pub height: i64,
}

impl Area {
    /// Whether a point lies in it, its right and bottom edges left out.
    pub open spec fn has(self, x: int, y: int) -> bool {
        self.x <= x < self.x + self.width && self.y <= y < self.y + self.height
    }

    /// The numbers that surfaces have.
    pub open spec fn small(self) -> bool {
        &&& -0x10_0000_0000 <= self.x <= 0x10_0000_0000
        &&& -0x10_0000_0000 <= self.y <= 0x10_0000_0000
        &&& -0x10_0000_0000 <= self.width <= 0x10_0000_0000
        &&& -0x10_0000_0000 <= self.height <= 0x10_0000_0000
    }

    fn contains(&self, x: i64, y: i64) -> (b: bool)
        requires
            self.small(),
        ensures
            b == self.has(x as int, y as int),
    {
        self.x <= x && x < self.x + self.width && self.y <= y && y < self.y + self.height
    }

    /// The common part of two areas, where it has an inside.
    pub open spec fn common(self, other: Area) -> Option<Area> {
        let x = larger(self.x as int, other.x as int);
        let y = larger(self.y as int, other.y as int);
        let r = smaller(self.x + self.width, other.x + other.width);
        let b = smaller(self.y + self.height, other.y + other.height);
        if r - x > 0 && b - y > 0 {
            Some(Area { x: x as i64, y: y as i64, width: (r - x) as i64, height: (b - y) as i64 })
        } else {
            None
        }
    }

    fn intersection(&self, other: &Area) -> (r: Option<Area>)
        requires
            self.small(),
            other.small(),
        ensures
            r == self.common(*other),
    {
        let x: i64 = if self.x <= other.x { other.x } else { self.x };
        let y: i64 = if self.y <= other.y { other.y } else { self.y };
        let (r1, r2) = (self.x + self.width, other.x + other.width);
        let (b1, b2) = (self.y + self.height, other.y + other.height);
        let r: i64 = if r1 <= r2 { r1 } else { r2 };
        let b: i64 = if b1 <= b2 { b1 } else { b2 };
        if r - x > 0 && b - y > 0 {
            Some(Area { x, y, width: r - x, height: b - y })
        } else {
            None
        }
    }
}

/// The selection as one output's surface sees it.
#[derive(Clone, Copy, Debug)]
pub struct RectangleSelection {
    /// The output in global coordinates.
    pub output_rect: Rect,
    /// The selection in global coordinates.
    pub selection: Rect,
    pub mode: Mode,
    /// The drag under way, on whichever surface it began.
    pub drag: Option<DragSession>,
}

/// What a point grabs of a selection at `a`: a corner within a handle, then an
/// edge within its strip, then the inside. An empty selection is begun anew.
pub open spec fn grabbed(a: Area, x: int, y: int) -> DragKind {
    let (l, t, r, b) = (a.x as int, a.y as int, a.x + a.width, a.y + a.height);
    if a.width <= 0 || a.height <= 0 {
        DragKind::New
    } else if -8 <= x - l < 8 && -8 <= y - t < 8 {
        DragKind::NW
    } else if -8 <= x - r < 8 && -8 <= y - t < 8 {
        DragKind::NE
    } else if -8 <= x - l < 8 && -8 <= y - b < 8 {
        DragKind::SW
    } else if -8 <= x - r < 8 && -8 <= y - b < 8 {
        DragKind::SE
    } else if l <= x < r && -4 <= y - t < 4 {
        DragKind::N
    } else if l <= x < r && -4 <= y - b < 4 {
        DragKind::S
    } else if -4 <= x - l < 4 && t <= y < b {
        DragKind::W
    } else if -4 <= x - r < 4 && t <= y < b {
        DragKind::E
    } else if l <= x < r && t <= y < b {
        DragKind::Move
    } else {
        DragKind::Nothing
    }
}

/// The selection that a drag gives with the pointer at `(gx, gy)`.
pub open spec fn dragged(session: DragSession, gx: int, gy: int) -> Rect {
    let s = session.start_rect.normalized();
    let (dx, dy) = (gx - session.anchor.0, gy - session.anchor.1);
    let k = session.kind;
    if k == DragKind::Move {
        Rect {
            left: (s.left + dx) as i32,
            top: (s.top + dy) as i32,
            right: (s.right + dx) as i32,
            bottom: (s.bottom + dy) as i32,
        }
    } else {
        Rect {
            left: if k == DragKind::NW || k == DragKind::W || k == DragKind::SW {
                gx as i32
            } else {
                s.left
            },
            top: if k == DragKind::NW || k == DragKind::N || k == DragKind::NE {
                gy as i32
            } else {
                s.top
            },
            right: if k == DragKind::NE || k == DragKind::E || k == DragKind::SE || k
                == DragKind::New {
                gx as i32
            } else {
                s.right
            },
            bottom: if k == DragKind::SW || k == DragKind::S || k == DragKind::SE || k
                == DragKind::New {
                gy as i32
            } else {
                s.bottom
            },
        }
    }
}

/// The pointer's way and, for a moved selection, the edges it leads to are 32
/// bit values.
pub open spec fn drag_fits(session: DragSession, gx: int, gy: int) -> bool {
    let s = session.start_rect.normalized();
    let (dx, dy) = (gx - session.anchor.0, gy - session.anchor.1);
    &&& i32::MIN <= dx <= i32::MAX
    &&& i32::MIN <= dy <= i32::MAX
    &&& session.kind == DragKind::Move ==> {
        &&& i32::MIN <= s.left + dx && s.right + dx <= i32::MAX
        &&& i32::MIN <= s.top + dy && s.bottom + dy <= i32::MAX
    }
}

/// The pointer's shape over what it would grab.
pub open spec fn shape_over(k: DragKind) -> Interaction {
    if k == DragKind::Nothing || k == DragKind::New {
        Interaction::Crosshair
    } else if k == DragKind::NW || k == DragKind::SE {
        Interaction::ResizingDiagonallyDown
    } else if k == DragKind::NE || k == DragKind::SW {
        Interaction::ResizingDiagonallyUp
    } else if k == DragKind::N || k == DragKind::S {
        Interaction::ResizingVertically
    } else if k == DragKind::E || k == DragKind::W {
        Interaction::ResizingHorizontally
    } else {
        Interaction::Grab
    }
}

impl RectangleSelection {
    /// The selection in the surface's own coordinates.
    pub open spec fn local(self) -> Area {
        let s = self.selection.normalized();
        Area {
            x: (s.left - self.output_rect.left) as i64,
            y: (s.top - self.output_rect.top) as i64,
            width: (s.right - s.left) as i64,
            height: (s.bottom - s.top) as i64,
        }
    }

    /// The surface's own extent.
    pub open spec fn surface(self) -> Area {
        Area {
            x: 0,
            y: 0,
            width: distance(self.output_rect.left as int, self.output_rect.right as int) as i64,
            height: distance(self.output_rect.top as int, self.output_rect.bottom as int) as i64,
        }
    }

    pub fn new(
        output_rect: Rect,
        selection: Rect,
        mode: Mode,
        drag: Option<DragSession>,
    ) -> (r: RectangleSelection)
        ensures
            r == (RectangleSelection { output_rect, selection, mode, drag }),
    {
        RectangleSelection { output_rect, selection, mode, drag }
    }

    /// The selection in the surface's own coordinates.
    pub fn local_selection(&self) -> (a: Area)
        ensures
            a == self.local(),
            a.small(),
            -0x1_0000_0000 <= a.x <= 0x1_0000_0000,
            -0x1_0000_0000 <= a.y <= 0x1_0000_0000,
            0 <= a.width <= 0x1_0000_0000,
            0 <= a.height <= 0x1_0000_0000,
    {
        let s = self.selection.normalize();
        Area {
            x: s.left as i64 - self.output_rect.left as i64,
            y: s.top as i64 - self.output_rect.top as i64,
            width: s.right as i64 - s.left as i64,
            height: s.bottom as i64 - s.top as i64,
        }
    }

    /// What the pointer would grab; nothing of a selection that has an inside
    /// where there is no pointer.
    pub fn hit_test(&self, cursor: Option<(i32, i32)>) -> (k: DragKind)
        ensures
            k == (match cursor {
                Some((x, y)) => grabbed(self.local(), x as int, y as int),
                None => if self.local().width <= 0 || self.local().height <= 0 {
                    DragKind::New
                } else {
                    DragKind::Nothing
                },
            }),
    {
        let a = self.local_selection();
        if a.width <= 0 || a.height <= 0 {
            return DragKind::New;
        }
        let (x, y) = match cursor {
            Some((x, y)) => (x as i64, y as i64),
            None => {
                return DragKind::Nothing;
            },
        };
        let (l, t, r, b) = (a.x, a.y, a.x + a.width, a.y + a.height);
        let d: i64 = HANDLE_RADIUS;
        if (Area { x: l - d, y: t - d, width: 2 * d, height: 2 * d }).contains(x, y) {
            return DragKind::NW;
        }
        if (Area { x: r - d, y: t - d, width: 2 * d, height: 2 * d }).contains(x, y) {
            return DragKind::NE;
        }
        if (Area { x: l - d, y: b - d, width: 2 * d, height: 2 * d }).contains(x, y) {
            return DragKind::SW;
        }
        if (Area { x: r - d, y: b - d, width: 2 * d, height: 2 * d }).contains(x, y) {
            return DragKind::SE;
        }
        let e: i64 = EDGE_REACH;
        if (Area { x: l, y: t - e, width: a.width, height: 2 * e }).contains(x, y) {
            return DragKind::N;
        }
        if (Area { x: l, y: b - e, width: a.width, height: 2 * e }).contains(x, y) {
            return DragKind::S;
        }
        if (Area { x: l - e, y: t, width: 2 * e, height: a.height }).contains(x, y) {
            return DragKind::W;
        }
        if (Area { x: r - e, y: t, width: 2 * e, height: a.height }).contains(x, y) {
            return DragKind::E;
        }
        if a.contains(x, y) {
            return DragKind::Move;
        }
        DragKind::Nothing
    }

    /// The selection with the pointer at `(gx, gy)`: what the drag makes of it,
    /// or as it is where there is no drag.
    pub fn drag_to(&self, gx: i32, gy: i32) -> (r: Rect)
        requires
            self.drag is Some ==> drag_fits(self.drag->0, gx as int, gy as int),
        ensures
            r == (match self.drag {
                Some(session) => dragged(session, gx as int, gy as int),
                None => self.selection,
            }),
    {
        let session = match self.drag {
            Some(s) => s,
            None => {
                return self.selection;
            },
        };
        let s = session.start_rect.normalize();
        let dx: i32 = gx - session.anchor.0;
        let dy: i32 = gy - session.anchor.1;
        match session.kind {
            DragKind::Move => Rect {
                left: s.left + dx,
                top: s.top + dy,
                right: s.right + dx,
                bottom: s.bottom + dy,
            },
            DragKind::NW => Rect { left: gx, top: gy, right: s.right, bottom: s.bottom },
            DragKind::N => Rect { left: s.left, top: gy, right: s.right, bottom: s.bottom },
            DragKind::NE => Rect { left: s.left, top: gy, right: gx, bottom: s.bottom },
            DragKind::E => Rect { left: s.left, top: s.top, right: gx, bottom: s.bottom },
            DragKind::SE | DragKind::New => Rect {
                left: s.left,
                top: s.top,
                right: gx,
                bottom: gy,
            },
            DragKind::S => Rect { left: s.left, top: s.top, right: s.right, bottom: gy },
            DragKind::SW => Rect { left: gx, top: s.top, right: s.right, bottom: gy },
            DragKind::W => Rect { left: gx, top: s.top, right: s.right, bottom: s.bottom },
            DragKind::Nothing => s,
        }
    }

    /// The pointer's shape over the surface.
    pub fn mouse_interaction(&self, cursor: Option<(i32, i32)>) -> (i: Interaction)
        ensures
            i == (if self.mode == Mode::Recording {
                Interaction::Default
            } else if self.drag is Some {
                Interaction::Grabbing
            } else {
                shape_over(
                    match cursor {
                        Some((x, y)) => grabbed(self.local(), x as int, y as int),
                        None => if self.local().width <= 0 || self.local().height <= 0 {
                            DragKind::New
                        } else {
                            DragKind::Nothing
                        },
                    },
                )
            }),
    {
        if let Mode::Recording = self.mode {
            return Interaction::Default;
        }
        if self.drag.is_some() {
            return Interaction::Grabbing;
        }
        match self.hit_test(cursor) {
            DragKind::Nothing | DragKind::New => Interaction::Crosshair,
            DragKind::NW | DragKind::SE => Interaction::ResizingDiagonallyDown,
            DragKind::NE | DragKind::SW => Interaction::ResizingDiagonallyUp,
            DragKind::N | DragKind::S => Interaction::ResizingVertically,
            DragKind::E | DragKind::W => Interaction::ResizingHorizontally,
            DragKind::Move => Interaction::Grab,
        }
    }

    /// The global coordinates that an input speaks of fit in 32 bits.
    pub open spec fn input_fits(self, input: SelectionInput) -> bool {
        match input {
            SelectionInput::Motion { x, y } => self.drag is Some && self.mode == Mode::Selecting
                ==> {
                &&& i32::MIN <= x + self.output_rect.left <= i32::MAX
                &&& i32::MIN <= y + self.output_rect.top <= i32::MAX
                &&& drag_fits(self.drag->0, x + self.output_rect.left, y + self.output_rect.top)
            },
            SelectionInput::Press { x, y } => self.drag is None && self.mode == Mode::Selecting
                ==> {
                &&& i32::MIN <= x + self.output_rect.left <= i32::MAX
                &&& i32::MIN <= y + self.output_rect.top <= i32::MAX
            },
            _ => true,
        }
    }

    /// What a press at `(x, y)` begins: what it grabs, from the selection as it
    /// is, or a fresh selection at that point.
    pub open spec fn pressed(self, x: int, y: int) -> WidgetEvent {
        let (gx, gy) = (
            (x + self.output_rect.left) as i32,
            (y + self.output_rect.top) as i32,
        );
        let hit = grabbed(self.local(), x, y);
        let fresh = hit == DragKind::Nothing || hit == DragKind::New;
        let rect = if fresh {
            Rect { left: gx, top: gy, right: gx, bottom: gy }
        } else {
            self.selection
        };
        WidgetEvent::DragStart {
            session: DragSession {
                kind: if fresh {
                    DragKind::New
                } else {
                    hit
                },
                start_rect: rect,
                anchor: (gx, gy),
            },
            initial_rect: rect,
        }
    }

    /// What comes of an input.
    pub open spec fn reply(self, input: SelectionInput) -> SelectionReply {
        let nothing = SelectionReply { event: None, start_dnd: false, captured: false };
        if self.mode == Mode::Recording {
            nothing
        } else {
            match input {
                SelectionInput::Motion { x, y } => if self.drag is None {
                    nothing
                } else {
                    SelectionReply {
                        event: Some(
                            WidgetEvent::DragMove(
                                dragged(
                                    self.drag->0,
                                    x + self.output_rect.left,
                                    y + self.output_rect.top,
                                ),
                            ),
                        ),
                        start_dnd: false,
                        captured: true,
                    }
                },
                SelectionInput::Drop => if self.drag is None {
                    nothing
                } else {
                    SelectionReply {
                        event: Some(WidgetEvent::DragEnd),
                        start_dnd: false,
                        captured: true,
                    }
                },
                SelectionInput::SourceEnded => if self.drag is None {
                    nothing
                } else {
                    SelectionReply {
                        event: Some(WidgetEvent::DragEnd),
                        start_dnd: false,
                        captured: false,
                    }
                },
                SelectionInput::Press { x, y } => if self.drag is Some {
                    nothing
                } else {
                    SelectionReply {
                        event: Some(self.pressed(x as int, y as int)),
                        start_dnd: true,
                        captured: true,
                    }
                },
            }
        }
    }

    /// Takes an input and says what comes of it.
    pub fn update(&self, input: SelectionInput) -> (r: SelectionReply)
        requires
            self.input_fits(input),
        ensures
            r == self.reply(input),
    {
        let nothing = SelectionReply { event: None, start_dnd: false, captured: false };
        if let Mode::Recording = self.mode {
            return nothing;
        }
        match input {
            SelectionInput::Motion { x, y } => {
                if self.drag.is_none() {
                    return nothing;
                }
                let gx: i32 = x + self.output_rect.left;
                let gy: i32 = y + self.output_rect.top;
                SelectionReply {
                    event: Some(WidgetEvent::DragMove(self.drag_to(gx, gy))),
                    start_dnd: false,
                    captured: true,
                }
            },
            SelectionInput::Drop => {
                if self.drag.is_none() {
                    return nothing;
                }
                SelectionReply {
                    event: Some(WidgetEvent::DragEnd),
                    start_dnd: false,
                    captured: true,
                }
            },
            SelectionInput::SourceEnded => {
                if self.drag.is_none() {
                    return nothing;
                }
                SelectionReply {
                    event: Some(WidgetEvent::DragEnd),
                    start_dnd: false,
                    captured: false,
                }
            },
            SelectionInput::Press { x, y } => {
                if self.drag.is_some() {
                    return nothing;
                }
                let gx: i32 = x + self.output_rect.left;
                let gy: i32 = y + self.output_rect.top;
                let hit = self.hit_test(Some((x, y)));
                let fresh: bool = match hit {
                    DragKind::Nothing | DragKind::New => true,
                    _ => false,
                };
                let rect = if fresh {
                    Rect { left: gx, top: gy, right: gx, bottom: gy }
                } else {
                    self.selection
                };
                let kind = if fresh { DragKind::New } else { hit };
                SelectionReply {
                    event: Some(
                        WidgetEvent::DragStart {
                            session: DragSession { kind, start_rect: rect, anchor: (gx, gy) },
                            initial_rect: rect,
                        },
                    ),
                    start_dnd: true,
                    captured: true,
                }
            },
        }
    }

    /// The area whose inner edge carries the border: the selection, grown by the
    /// border's width while recording so that the border stays outside, and cut
    /// to the surface where they meet. None for an empty selection.
    pub open spec fn border(self) -> Option<Area> {
        let a = self.local();
        if a.width <= 0 || a.height <= 0 {
            None
        } else {
            let bounds = if self.mode == Mode::Recording {
                Area {
                    x: (a.x - 3) as i64,
                    y: (a.y - 3) as i64,
                    width: (a.width + 6) as i64,
                    height: (a.height + 6) as i64,
                }
            } else {
                a
            };
            match bounds.common(self.surface()) {
                Some(c) => Some(c),
                None => Some(bounds),
            }
        }
    }

    /// Where the border is drawn.
    pub fn border_area(&self) -> (r: Option<Area>)
        requires
            self.output_rect.measurable(),
        ensures
            r == self.border(),
    {
        let a = self.local_selection();
        if a.width <= 0 || a.height <= 0 {
            return None;
        }
        let bounds = match self.mode {
            Mode::Selecting => a,
            Mode::Recording => Area {
                x: a.x - BORDER_W,
                y: a.y - BORDER_W,
                width: a.width + BORDER_W * 2,
                height: a.height + BORDER_W * 2,
            },
        };
        let surface = Area {
            x: 0,
            y: 0,
            width: self.output_rect.width() as i64,
            height: self.output_rect.height() as i64,
        };
        match bounds.intersection(&surface) {
            Some(c) => Some(c),
            None => Some(bounds),
        }
    }

    /// Whether the selection shows handles.
    pub open spec fn shows_handles(self) -> bool {
        self.mode == Mode::Selecting && self.local().width > 0 && self.local().height > 0
    }

    /// The selection's corners, top ones first, left ones first.
    pub open spec fn corners(self) -> Seq<(i64, i64)> {
        let a = self.local();
        let (r, b) = ((a.x + a.width) as i64, (a.y + a.height) as i64);
        seq![(a.x, a.y), (r, a.y), (a.x, b), (r, b)]
    }

    /// The centres of the handles that lie on this surface.
    pub fn handles(&self) -> (v: Vec<(i64, i64)>)
        requires
            self.output_rect.measurable(),
        ensures
            v@ == (if self.shows_handles() {
                self.corners().filter(
                    |c: (i64, i64)| self.surface().has(c.0 as int, c.1 as int),
                )
            } else {
                Seq::empty()
            }),
    {
        let mut v: Vec<(i64, i64)> = Vec::new();
        let a = self.local_selection();
        if a.width <= 0 || a.height <= 0 {
            return v;
        }
        if let Mode::Recording = self.mode {
            return v;
        }
        let surface = Area {
            x: 0,
            y: 0,
            width: self.output_rect.width() as i64,
            height: self.output_rect.height() as i64,
        };
        let corners: [(i64, i64); 4] = [
            (a.x, a.y),
            (a.x + a.width, a.y),
            (a.x, a.y + a.height),
            (a.x + a.width, a.y + a.height),
        ];
        let ghost all = self.corners();
        let ghost on = |c: (i64, i64)| self.surface().has(c.0 as int, c.1 as int);
        assert(corners@ =~= all);
        proof {
            assert(all.take(0) =~= Seq::<(i64, i64)>::empty());
            reveal(Seq::filter);
            assert(all.take(0).filter(on) =~= Seq::empty());
        }
        let mut i: usize = 0;
        while i < 4
            invariant
                i <= 4,
                corners@ == all,
                all.len() == 4,
                surface == self.surface(),
                surface.small(),
                on == (|c: (i64, i64)| self.surface().has(c.0 as int, c.1 as int)),
                v@ == all.take(i as int).filter(on),
            decreases 4 - i,
        {
            let (x, y) = corners[i];
            proof {
                reveal(Seq::filter);
                assert(all.take(i + 1).drop_last() =~= all.take(i as int));
                assert(all.take(i + 1).last() == (x, y));
            }
            if surface.contains(x, y) {
                v.push((x, y));
            }
            i = i + 1;
        }
        assert(all.take(4) =~= all);
        v
    }
}

/// Moving a selection keeps its extents.
pub proof fn moving_keeps_the_extents(session: DragSession, gx: int, gy: int)
    requires
        session.kind == DragKind::Move,
        drag_fits(session, gx, gy),
    ensures
        ({
            let (s, r) = (session.start_rect, dragged(session, gx, gy));
            &&& distance(r.left as int, r.right as int) == distance(s.left as int, s.right as int)
            &&& distance(r.top as int, r.bottom as int) == distance(s.top as int, s.bottom as int)
        }),
{
}

/// A drag that comes back to where it began with a selection moved gives the
/// selection that it began with.
pub proof fn moving_back_restores(session: DragSession)
    requires
        session.kind == DragKind::Move,
    ensures
        dragged(session, session.anchor.0 as int, session.anchor.1 as int)
            == session.start_rect.normalized(),
{
}

/// A fresh selection spans the point of the press and the pointer.
pub proof fn fresh_selection_spans_press_and_pointer(
    w: RectangleSelection,
    x: int,
    y: int,
    gx: int,
    gy: int,
)
    requires
        w.mode == Mode::Selecting,
        w.drag is None,
        i32::MIN <= x + w.output_rect.left <= i32::MAX,
        i32::MIN <= y + w.output_rect.top <= i32::MAX,
        i32::MIN <= gx <= i32::MAX,
        i32::MIN <= gy <= i32::MAX,
        grabbed(w.local(), x, y) == DragKind::Nothing || grabbed(w.local(), x, y) == DragKind::New,
    ensures
        dragged(w.pressed(x, y)->session, gx, gy) == (Rect {
            left: (x + w.output_rect.left) as i32,
            top: (y + w.output_rect.top) as i32,
            right: gx as i32,
            bottom: gy as i32,
        }),
{
}

/// While one edge or corner is dragged, the opposite one stays.
pub proof fn opposite_edges_stay(session: DragSession, gx: int, gy: int)
    ensures
        ({
            let (s, r, k) = (
                session.start_rect.normalized(),
                dragged(session, gx, gy),
                session.kind,
            );
            &&& k == DragKind::NW || k == DragKind::W || k == DragKind::SW ==> r.right == s.right
            &&& k == DragKind::NE || k == DragKind::E || k == DragKind::SE || k == DragKind::New
                ==> r.left == s.left
            &&& k == DragKind::NW || k == DragKind::N || k == DragKind::NE ==> r.bottom
                == s.bottom
            &&& k == DragKind::SW || k == DragKind::S || k == DragKind::SE || k == DragKind::New
                ==> r.top == s.top
            &&& k == DragKind::N || k == DragKind::S ==> r.left == s.left && r.right == s.right
            &&& k == DragKind::E || k == DragKind::W ==> r.top == s.top && r.bottom == s.bottom
            &&& k == DragKind::Nothing ==> r == s
        }),
{
}

/// While recording, a border that the surface does not cut lies outside the
/// recorded rectangle: what its width leaves inside is the rectangle itself.
pub proof fn recording_border_stays_outside(w: RectangleSelection)
    requires
        w.mode == Mode::Recording,
        w.local().width > 0,
        w.local().height > 0,
        3 <= w.local().x,
        3 <= w.local().y,
        w.local().x + w.local().width + 3 <= w.surface().width,
        w.local().y + w.local().height + 3 <= w.surface().height,
    ensures
        w.border() is Some,
        w.border()->0.x + BORDER_W == w.local().x,
        w.border()->0.y + BORDER_W == w.local().y,
        w.border()->0.width - 2 * BORDER_W == w.local().width,
        w.border()->0.height - 2 * BORDER_W == w.local().height,
{
}

/// While recording, the selection takes no input and shows no handles.
pub proof fn recording_is_inert(w: RectangleSelection, input: SelectionInput)
    requires
        w.mode == Mode::Recording,
    ensures
        w.reply(input).event is None,
        !w.reply(input).start_dnd,
        !w.reply(input).captured,
        !w.shows_handles(),
{
}

/// Ordering the edges keeps both of them on each axis, the lesser first.
pub proof fn ordered_edges_are_the_same(r: Rect)
    ensures
        ({
            let s = r.normalized();
            &&& s.left <= s.right
            &&& s.top <= s.bottom
            &&& (s.left == r.left && s.right == r.right) || (s.left == r.right && s.right == r.left)
            &&& (s.top == r.top && s.bottom == r.bottom) || (s.top == r.bottom && s.bottom == r.top)
        }),
{
}

/// The edge or the corner that is dragged lies where the pointer is; a selection that is
/// moved goes as far as the pointer does.
pub proof fn what_is_dragged_follows_the_pointer(session: DragSession, gx: int, gy: int)
    requires
        drag_fits(session, gx, gy),
        i32::MIN <= gx <= i32::MAX,
        i32::MIN <= gy <= i32::MAX,
    ensures
        ({
            let (s, r, k) = (
                session.start_rect.normalized(),
                dragged(session, gx, gy),
                session.kind,
            );
            &&& k == DragKind::NW || k == DragKind::W || k == DragKind::SW ==> r.left == gx
            &&& k == DragKind::NE || k == DragKind::E || k == DragKind::SE || k == DragKind::New
                ==> r.right == gx
            &&& k == DragKind::NW || k == DragKind::N || k == DragKind::NE ==> r.top == gy
            &&& k == DragKind::SW || k == DragKind::S || k == DragKind::SE || k == DragKind::New
                ==> r.bottom == gy
            &&& k == DragKind::Move ==> {
                &&& r.left - s.left == gx - session.anchor.0
                &&& r.right - s.right == gx - session.anchor.0
                &&& r.top - s.top == gy - session.anchor.1
                &&& r.bottom - s.bottom == gy - session.anchor.1
            }
        }),
{
}

/// A point is within reach of a corner's handle, along one axis.
pub open spec fn by_a_corner(v: int, edge: int) -> bool {
    -HANDLE_RADIUS <= v - edge < HANDLE_RADIUS
}

/// A point is within reach of an edge, across it.
pub open spec fn by_an_edge(v: int, edge: int) -> bool {
    -EDGE_REACH <= v - edge < EDGE_REACH
}

/// What is grabbed is what lies under the pointer, in global coordinates: a corner by
/// its handle, an edge between the corners, the inside within the edges, and nothing
/// beside the selection. A selection without an inside is begun anew.
pub proof fn what_is_under_the_pointer_is_grabbed(w: RectangleSelection, x: i32, y: i32)
    ensures
        ({
            let (gx, gy) = (x + w.output_rect.left, y + w.output_rect.top);
            let s = w.selection.normalized();
            let k = grabbed(w.local(), x as int, y as int);
            let inside = s.left <= gx < s.right && s.top <= gy < s.bottom;
            let on_x = by_a_corner(gx, s.left as int) || by_a_corner(gx, s.right as int);
            let on_y = by_a_corner(gy, s.top as int) || by_a_corner(gy, s.bottom as int);
            if s.left == s.right || s.top == s.bottom {
                k == DragKind::New
            } else {
                &&& k != DragKind::New
                &&& k == DragKind::NW <==> by_a_corner(gx, s.left as int) && by_a_corner(
                    gy,
                    s.top as int,
                )
                &&& k == DragKind::NE ==> by_a_corner(gx, s.right as int) && by_a_corner(
                    gy,
                    s.top as int,
                )
                &&& k == DragKind::SW ==> by_a_corner(gx, s.left as int) && by_a_corner(
                    gy,
                    s.bottom as int,
                )
                &&& k == DragKind::SE ==> by_a_corner(gx, s.right as int) && by_a_corner(
                    gy,
                    s.bottom as int,
                )
                &&& on_x && on_y <==> k == DragKind::NW || k == DragKind::NE || k == DragKind::SW
                    || k == DragKind::SE
                &&& k == DragKind::N ==> by_an_edge(gy, s.top as int) && s.left <= gx < s.right
                &&& k == DragKind::S ==> by_an_edge(gy, s.bottom as int) && s.left <= gx < s.right
                &&& k == DragKind::W ==> by_an_edge(gx, s.left as int) && s.top <= gy < s.bottom
                &&& k == DragKind::E ==> by_an_edge(gx, s.right as int) && s.top <= gy < s.bottom
                &&& k == DragKind::Move ==> inside && !by_an_edge(gx, s.left as int) && !by_an_edge(
                    gx,
                    s.right as int,
                ) && !by_an_edge(gy, s.top as int) && !by_an_edge(gy, s.bottom as int)
                &&& inside ==> k != DragKind::Nothing
                &&& k == DragKind::Nothing ==> !inside && !(on_x && on_y)
                &&& s.left <= gx < s.right && by_an_edge(gy, s.top as int) && !on_x ==> k
                    == DragKind::N
                &&& s.left <= gx < s.right && by_an_edge(gy, s.bottom as int) && !on_x && !by_an_edge(
                    gy,
                    s.top as int,
                ) ==> k == DragKind::S
                &&& s.top <= gy < s.bottom && by_an_edge(gx, s.left as int) && !on_y ==> k
                    == DragKind::W
                &&& s.top <= gy < s.bottom && by_an_edge(gx, s.right as int) && !on_y && !by_an_edge(
                    gx,
                    s.left as int,
                ) ==> k == DragKind::E
            }
        }),
{
}

/// One point of the desktop gives the same selection whichever surface it is seen
/// on.
pub proof fn surfaces_agree_on_a_point(
    w: RectangleSelection,
    v: RectangleSelection,
    x: i32,
    y: i32,
    a: i32,
    b: i32,
)
    requires
        v.selection == w.selection,
        v.drag == w.drag,
        v.mode == w.mode,
        x + w.output_rect.left == a + v.output_rect.left,
        y + w.output_rect.top == b + v.output_rect.top,
    ensures
        grabbed(w.local(), x as int, y as int) == grabbed(v.local(), a as int, b as int),
        w.reply(SelectionInput::Motion { x, y }) == v.reply(SelectionInput::Motion { x: a, y: b }),
        w.reply(SelectionInput::Press { x, y }) == v.reply(SelectionInput::Press { x: a, y: b }),
{
}

/// A press on something of the selection leaves the selection as it is, until the
/// pointer moves; it takes hold of what lies there, at that point of the desktop.
pub proof fn a_press_takes_hold(w: RectangleSelection, x: i32, y: i32)
    requires
        w.mode == Mode::Selecting,
        w.drag is None,
        w.input_fits(SelectionInput::Press { x, y }),
    ensures
        ({
            let k = grabbed(w.local(), x as int, y as int);
            let r = w.reply(SelectionInput::Press { x, y });
            &&& r.captured && r.start_dnd
            &&& r.event matches Some(WidgetEvent::DragStart { session, initial_rect }) && {
                &&& session.start_rect == initial_rect
                &&& session.anchor.0 == x + w.output_rect.left
                &&& session.anchor.1 == y + w.output_rect.top
                &&& if k == DragKind::Nothing || k == DragKind::New {
                    &&& session.kind == DragKind::New
                    &&& initial_rect.left == initial_rect.right == session.anchor.0
                    &&& initial_rect.top == initial_rect.bottom == session.anchor.1
                } else {
                    session.kind == k && initial_rect == w.selection
                }
            }
        }),
{
}

/// A drag ends when it is dropped, or when its source has ended; without one, neither
/// says anything. While one runs, a press begins no other.
pub proof fn a_drag_ends_once(w: RectangleSelection, x: i32, y: i32)
    requires
        w.mode == Mode::Selecting,
    ensures
        w.drag is Some ==> w.reply(SelectionInput::Drop).event == Some(WidgetEvent::DragEnd),
        w.drag is Some ==> w.reply(SelectionInput::Drop).captured,
        w.drag is Some ==> w.reply(SelectionInput::SourceEnded).event == Some(WidgetEvent::DragEnd),
        w.drag is None ==> w.reply(SelectionInput::Drop).event is None,
        w.drag is None ==> w.reply(SelectionInput::SourceEnded).event is None,
        w.drag is None ==> w.reply(SelectionInput::Motion { x, y }).event is None,
        w.drag is Some ==> w.reply(SelectionInput::Press { x, y }).event is None,
        !w.reply(SelectionInput::Drop).start_dnd,
        !w.reply(SelectionInput::SourceEnded).start_dnd,
        !w.reply(SelectionInput::Motion { x, y }).start_dnd,
{
}

/// The pointer's shape says which way a drag would go: one that resizes up and down
/// leaves the sides where they are, one that resizes to the sides leaves the top and
/// the bottom, and only the inside can be taken hold of whole.
pub proof fn the_pointer_shows_where_a_drag_goes(session: DragSession, gx: int, gy: int)
    ensures
        ({
            let (s, r) = (session.start_rect.normalized(), dragged(session, gx, gy));
            let i = shape_over(session.kind);
            &&& i == Interaction::ResizingVertically ==> r.left == s.left && r.right == s.right && (
            r.top == s.top || r.bottom == s.bottom)
            &&& i == Interaction::ResizingHorizontally ==> r.top == s.top && r.bottom == s.bottom
                && (r.left == s.left || r.right == s.right)
            &&& i == Interaction::ResizingDiagonallyDown ==> (r.left == s.left && r.top == s.top)
                || (r.right == s.right && r.bottom == s.bottom)
            &&& i == Interaction::ResizingDiagonallyUp ==> (r.left == s.left && r.bottom == s.bottom)
                || (r.right == s.right && r.top == s.top)
            &&& i == Interaction::Grab <==> session.kind == DragKind::Move
            &&& i == Interaction::Crosshair <==> session.kind == DragKind::Nothing || session.kind
                == DragKind::New
            &&& i != Interaction::Default && i != Interaction::Grabbing
        }),
{
}

/// While a selection is made, the border runs round the points that the selection and
/// the surface share, where they share any.
pub proof fn the_border_runs_round_what_is_shown(w: RectangleSelection, x: int, y: int)
    requires
        w.mode == Mode::Selecting,
        w.local().has(x, y),
        w.surface().has(x, y),
        w.output_rect.measurable(),
    ensures
        w.border() matches Some(a) && {
            &&& a.has(x, y)
            &&& forall|u: int, v: int|
                #[trigger] a.has(u, v) <==> w.local().has(u, v) && w.surface().has(u, v)
        },
{
}

/// The handles are at the corners of the selection, in global coordinates.
pub proof fn handles_are_at_the_corners(w: RectangleSelection)
    ensures
        ({
            let (c, s, o) = (w.corners(), w.selection.normalized(), w.output_rect);
            &&& c.len() == 4
            &&& c[0].0 + o.left == s.left && c[0].1 + o.top == s.top
            &&& c[1].0 + o.left == s.right && c[1].1 + o.top == s.top
            &&& c[2].0 + o.left == s.left && c[2].1 + o.top == s.bottom
            &&& c[3].0 + o.left == s.right && c[3].1 + o.top == s.bottom
            &&& w.shows_handles() <==> w.mode == Mode::Selecting && s.left < s.right && s.top
                < s.bottom
        }),
{
}

} // verus!
