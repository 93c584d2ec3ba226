//! The selector: one surface for each output, a drag on one of them, and what
//! becomes of it.
use crate::gui::outputs;
use crate::gui::outputs::OutputDescription;
use crate::selector::render;
use crate::selector::selection;
use crate::selector::selection::Selection;
use vstd::prelude::*;

verus! {

/// Pointer positions count in parts of a logical unit, this many to one.
pub const FIXED_ONE: i32 = 256;

/// The smallest extent of a selection; a smaller one is no selection.
pub const MIN_EXTENT: u32 = 8;

/// A surface over an output.
pub struct SelectorSurface {
    /// The surface's number.
    pub surface: u32,
    /// The output's number.
    pub output: u32,
    pub output_name: String,
    pub logical_pos: (i32, i32),
    pub logical_size: (u32, u32),
    pub physical_size: (u32, u32),
    pub scale: i32,
    pub buffer_size: (u32, u32),
    /// What it shows has changed.
    pub dirty: bool,
    /// A frame was handed over and is not shown yet.
    pub frame_pending: bool,
    pub configured: bool,
}

/// The current mode as a size.
pub open spec fn mode_size(d: OutputDescription) -> Option<(u32, u32)> {
    match outputs::current_mode(d.modes@) {
        Some((w, h)) => Some((w as u32, h as u32)),
        None => None,
    }
}

/// The logical size of an output; that of its mode where the compositor gives
/// none.
pub open spec fn logical_size_of(d: OutputDescription) -> (u32, u32) {
    match d.logical_size {
        Some((w, h)) => (w as u32, h as u32),
        None => match mode_size(d) {
            Some(m) => m,
            None => (0u32, 0u32),
        },
    }
}

/// At least one.
pub open spec fn at_least_one(n: u32) -> int {
    if n < 1 {
        1
    } else {
        n as int
    }
}

impl SelectorSurface {
    /// A fresh surface over an output: nothing is shown on it yet.
    pub fn over(surface: u32, output: u32, d: &OutputDescription) -> (s: SelectorSurface)
        ensures
            s.surface == surface,
            s.output == output,
            s.output_name@ == match d.name {
                Some(n) => n@,
                None => outputs::default_name(output),
            },
            s.logical_pos == match d.logical_position {
                Some(p) => p,
                None => (0i32, 0i32),
            },
            s.logical_size == logical_size_of(*d),
            s.physical_size == match mode_size(*d) {
                Some(m) => m,
                None => logical_size_of(*d),
            },
            s.scale == d.scale_factor,
            s.buffer_size == (0u32, 0u32),
            s.dirty,
            !s.frame_pending,
            !s.configured,
    {
        let mode: Option<(u32, u32)> = match outputs::find_current(&d.modes) {
            Some((w, h)) => Some((w as u32, h as u32)),
            None => None,
        };
        let logical_size = match d.logical_size {
            Some((w, h)) => (w as u32, h as u32),
            None => match mode {
                Some(m) => m,
                None => (0, 0),
            },
        };
        let output_name = match &d.name {
            Some(n) => n.clone(),
            None => outputs::numbered(output),
        };
        SelectorSurface {
            surface,
            output,
            output_name,
            logical_pos: match d.logical_position {
                Some(p) => p,
                None => (0, 0),
            },
            logical_size,
            physical_size: match mode {
                Some(m) => m,
                None => logical_size,
            },
            scale: d.scale_factor,
            buffer_size: (0, 0),
            dirty: true,
            frame_pending: false,
            configured: false,
        }
    }

    /// The bytes of a pool for two frames, and never fewer than a page.
    pub fn pool_bytes(&self) -> (n: u64)
        requires
            at_least_one(self.physical_size.0) * at_least_one(self.physical_size.1) <= u32::MAX,
        ensures
            n == (if at_least_one(self.physical_size.0) * at_least_one(self.physical_size.1) * 8
                < 4096 {
                4096
            } else {
                at_least_one(self.physical_size.0) * at_least_one(self.physical_size.1) * 8
            }),
    {
        let w: u64 = if self.physical_size.0 < 1 {
            1
        } else {
            self.physical_size.0 as u64
        };
        let h: u64 = if self.physical_size.1 < 1 {
            1
        } else {
            self.physical_size.1 as u64
        };
        proof {
            assert(0 <= w * h) by (nonlinear_arith)
                requires
                    0 <= w,
                    0 <= h,
            ;
        }
        let n: u64 = w * h * 8;
        if n < 4096 {
            4096
        } else {
            n
        }
    }
}

/// A drag on one surface.
#[derive(Clone, Copy, Debug)]
pub struct Drag {
    pub surface: u32,
    pub start: (i32, i32),
    pub current: (i32, i32),
    pub active: bool,
}

/// How the selection stands.
#[derive(Clone, Copy, Debug, PartialEq, Eq, Structural)]
pub enum Outcome {
    Pending,
    Cancelled,
    /// A region was chosen and handed over.
    Confirmed,
}

/// What the surfaces are for.
#[derive(Clone, Copy, Debug)]
pub enum Mode {
    /// A region is being chosen.
    Selecting,
    /// One surface shows the border of the region that is recorded.
    Recording { surface: u32, rect: (i32, i32, u32, u32) },
}

/// What the pointer did.
#[derive(Clone, Copy, Debug, PartialEq, Eq, Structural)]
pub enum PointerKind {
    LeftPress,
    RightPress,
    Motion,
    LeftRelease,
    Other,
}

/// What the pointer did, on which surface and where.
#[derive(Clone, Copy, Debug)]
pub struct PointerEvent {
    pub surface: u32,
    pub kind: PointerKind,
    pub position: (i32, i32),
}

/// The selector.
pub struct Selector {
    pub surfaces: Vec<SelectorSurface>,
    pub drag: Option<Drag>,
    pub outcome: Outcome,
    pub mode: Mode,
    /// The border's colour while a region is chosen.
    pub accent: u32,
    /// The border's colour while it is recorded.
    pub recording_blue: u32,
    /// Whether a selection can still be handed over.
    pub open: bool,
}

/// The place of a surface.
pub open spec fn place(surfaces: Seq<SelectorSurface>, id: u32) -> Option<int>
    decreases surfaces.len(),
{
    if surfaces.len() == 0 {
        None
    } else {
        match place(surfaces.drop_last(), id) {
            Some(i) => Some(i),
            None => if surfaces.last().surface == id {
                Some(surfaces.len() - 1)
            } else {
                None
            },
        }
    }
}

proof fn lemma_place_prefix(surfaces: Seq<SelectorSurface>, id: u32, n: int)
    requires
        0 <= n <= surfaces.len(),
        place(surfaces.take(n), id) is Some,
    ensures
        place(surfaces, id) == place(surfaces.take(n), id),
    decreases surfaces.len(),
{
    if n < surfaces.len() {
        assert(surfaces.drop_last().take(n) =~= surfaces.take(n));
        lemma_place_prefix(surfaces.drop_last(), id, n);
    } else {
        assert(surfaces.take(n) =~= surfaces);
    }
}

/// The surfaces, one of them marked as changed.
pub open spec fn touched(surfaces: Seq<SelectorSurface>, id: u32) -> Seq<SelectorSurface> {
    match place(surfaces, id) {
        Some(i) => surfaces.update(i, SelectorSurface { dirty: true, ..surfaces[i] }),
        None => surfaces,
    }
}

/// A scale that surfaces can have.
pub open spec fn real_scale(scale: i32) -> i32 {
    if scale < 1 {
        1
    } else {
        scale
    }
}

/// The whole logical units of a position, none below zero.
pub open spec fn whole_units(v: int) -> int {
    if v < 0 {
        0
    } else {
        v / 256
    }
}

pub open spec fn lesser(a: i32, b: i32) -> i32 {
    if a <= b {
        a
    } else {
        b
    }
}

pub open spec fn greater(a: i32, b: i32) -> i32 {
    if a <= b {
        b
    } else {
        a
    }
}

/// The region that a drag spans, in whole logical units; its extents are at
/// least one.
pub open spec fn dragged_region(d: Drag) -> (i32, i32, u32, u32) {
    let x0 = whole_units(lesser(d.start.0, d.current.0) as int);
    let y0 = whole_units(lesser(d.start.1, d.current.1) as int);
    let x1 = whole_units(greater(d.start.0, d.current.0) as int);
    let y1 = whole_units(greater(d.start.1, d.current.1) as int);
    (
        x0 as i32,
        y0 as i32,
        if x1 - x0 < 1 {
            1
        } else {
            (x1 - x0) as u32
        },
        if y1 - y0 < 1 {
            1
        } else {
            (y1 - y0) as u32
        },
    )
}

/// Whether a region is large enough to be one.
pub open spec fn large_enough(region: (i32, i32, u32, u32)) -> bool {
    region.2 >= MIN_EXTENT && region.3 >= MIN_EXTENT
}

fn units(v: i32) -> (r: i32)
    ensures
        r == whole_units(v as int),
        0 <= r <= 0x7f_ffff,
{
    if v < 0 {
        0
    } else {
        v / FIXED_ONE
    }
}

fn min_of(a: i32, b: i32) -> (r: i32)
    ensures
        r == lesser(a, b),
{
    if a <= b {
        a
    } else {
        b
    }
}

fn max_of(a: i32, b: i32) -> (r: i32)
    ensures
        r == greater(a, b),
{
    if a <= b {
        b
    } else {
        a
    }
}

fn region_of(d: &Drag) -> (r: (i32, i32, u32, u32))
    ensures
        r == dragged_region(*d),
{
    let x0: i32 = units(min_of(d.start.0, d.current.0));
    let y0: i32 = units(min_of(d.start.1, d.current.1));
    let x1: i32 = units(max_of(d.start.0, d.current.0));
    let y1: i32 = units(max_of(d.start.1, d.current.1));
    let w: i32 = x1 - x0;
    let h: i32 = y1 - y0;
    (x0, y0, if w < 1 { 1 } else { w as u32 }, if h < 1 { 1 } else { h as u32 })
}

/// The nearest whole number to `n` parts of a unit times the scale, half away
/// from zero.
pub open spec fn nearest(n: int, scale: int) -> int {
    if n * scale < 0 {
        -((2 * -(n * scale) + 256) / 512)
    } else {
        (2 * (n * scale) + 256) / 512
    }
}

fn nearest_pixel(n: i64, scale: i32) -> (r: i128)
    requires
        -0x1_0000_0000 <= n <= 0x1_0000_0000,
    ensures
        r == nearest(n as int, scale as int),
{
    proof {
        assert(-0x8000_0000_0000_0000 <= n * scale <= 0x8000_0000_0000_0000) by (nonlinear_arith)
            requires
                -0x1_0000_0000 <= n <= 0x1_0000_0000,
                -0x8000_0000 <= scale <= 0x7fff_ffff,
        ;
    }
    let p: i128 = n as i128 * scale as i128;
    if p < 0 {
        -((2 * -p + 256) / 512)
    } else {
        (2 * p + 256) / 512
    }
}

/// The hole that a drag shows, in pixels: its corner and its extents each to the
/// nearest pixel.
pub open spec fn drag_cutout(d: Drag, scale: i32) -> (i32, i32, u32, u32) {
    let s = real_scale(scale) as int;
    let (x0, x1) = (lesser(d.start.0, d.current.0) as int, greater(d.start.0, d.current.0) as int);
    let (y0, y1) = (lesser(d.start.1, d.current.1) as int, greater(d.start.1, d.current.1) as int);
    (
        selection::to_i32(nearest(x0, s)),
        selection::to_i32(nearest(y0, s)),
        selection::to_u32(nearest(x1 - x0, s)),
        selection::to_u32(nearest(y1 - y0, s)),
    )
}

/// What to paint on a surface.
#[derive(Clone, Copy, Debug)]
pub struct PaintJob {
    pub cutout: Option<(i32, i32, u32, u32)>,
    pub border: u32,
    pub background: u32,
    pub size: (u32, u32),
    pub scale: i32,
}

/// A drag ended in a region: hand it over.
pub enum PointerReply {
    Nothing,
    Deliver(Selection),
}

/// The region of a drag is on a surface that was there.
pub open spec fn selects(
    surfaces: Seq<SelectorSurface>,
    d: Drag,
    s: Selection,
) -> bool {
    let i = place(surfaces, d.surface)->0;
    &&& s.output_name == surfaces[i].output_name
    &&& s.output_logical_pos == surfaces[i].logical_pos
    &&& s.output_logical_size == surfaces[i].logical_size
    &&& s.region_logical == dragged_region(d)
    &&& s.scale == real_scale(surfaces[i].scale)
}

impl Selector {
    /// A selector without surfaces.
    pub fn new(accent: u32, recording_blue: u32) -> (s: Selector)
        ensures
            s.surfaces@.len() == 0,
            s.drag is None,
            s.outcome == Outcome::Pending,
            s.mode == Mode::Selecting,
            s.accent == accent,
            s.recording_blue == recording_blue,
            s.open,
    {
        Selector {
            surfaces: Vec::new(),
            drag: None,
            outcome: Outcome::Pending,
            mode: Mode::Selecting,
            accent,
            recording_blue,
            open: true,
        }
    }

    /// All but the surfaces are as they were.
    pub open spec fn same_but_surfaces(self, before: Selector) -> bool {
        &&& self.drag == before.drag
        &&& self.outcome == before.outcome
        &&& self.mode == before.mode
        &&& self.accent == before.accent
        &&& self.recording_blue == before.recording_blue
        &&& self.open == before.open
    }

    fn find(&self, id: u32) -> (r: Option<usize>)
        ensures
            match r {
                Some(i) => i < self.surfaces@.len() && place(self.surfaces@, id) == Some(i as int),
                None => place(self.surfaces@, id) is None,
            },
    {
        let mut i: usize = 0;
        while i < self.surfaces.len()
            invariant
                i <= self.surfaces@.len(),
                place(self.surfaces@.take(i as int), id) is None,
            decreases self.surfaces@.len() - i,
        {
            assert(self.surfaces@.take(i + 1).drop_last() =~= self.surfaces@.take(i as int));
            if self.surfaces[i].surface == id {
                proof {
                    lemma_place_prefix(self.surfaces@, id, i + 1);
                }
                return Some(i);
            }
            i = i + 1;
        }
        assert(self.surfaces@.take(i as int) =~= self.surfaces@);
        None
    }

    /// Whether an output has a surface.
    pub fn covers(&self, output: u32) -> (b: bool)
        ensures
            b == exists|i: int|
                0 <= i < self.surfaces@.len() && (#[trigger] self.surfaces@[i]).output == output,
    {
        let mut i: usize = 0;
        while i < self.surfaces.len()
            invariant
                i <= self.surfaces@.len(),
                forall|j: int| 0 <= j < i ==> (#[trigger] self.surfaces@[j]).output != output,
            decreases self.surfaces@.len() - i,
        {
            if self.surfaces[i].output == output {
                return true;
            }
            i = i + 1;
        }
        false
    }

    /// Adds a surface.
    pub fn add_surface(&mut self, s: SelectorSurface)
        ensures
            final(self).surfaces@ == old(self).surfaces@.push(s),
            final(self).same_but_surfaces(*old(self)),
    {
        self.surfaces.push(s);
    }

    /// A surface has another scale.
    pub fn on_scale_changed(&mut self, id: u32, factor: i32)
        ensures
            final(self).surfaces@ == (match place(old(self).surfaces@, id) {
                Some(i) => old(self).surfaces@.update(
                    i,
                    SelectorSurface { scale: factor, dirty: true, ..old(self).surfaces@[i] },
                ),
                None => old(self).surfaces@,
            }),
            final(self).same_but_surfaces(*old(self)),
    {
        if let Some(i) = self.find(id) {
            let s = &mut self.surfaces[i];
            s.scale = factor;
            s.dirty = true;
        }
    }

    /// A surface's frame is shown.
    pub fn on_frame(&mut self, id: u32)
        ensures
            final(self).surfaces@ == (match place(old(self).surfaces@, id) {
                Some(i) => old(self).surfaces@.update(
                    i,
                    SelectorSurface { frame_pending: false, ..old(self).surfaces@[i] },
                ),
                None => old(self).surfaces@,
            }),
            final(self).same_but_surfaces(*old(self)),
    {
        if let Some(i) = self.find(id) {
            let s = &mut self.surfaces[i];
            s.frame_pending = false;
        }
    }

    /// A surface was closed. While a region is chosen, that cancels it.
    pub fn on_closed(&mut self, id: u32)
        ensures
            final(self).surfaces@ == (match place(old(self).surfaces@, id) {
                Some(i) => old(self).surfaces@.remove(i),
                None => old(self).surfaces@,
            }),
            final(self).outcome == (if old(self).mode is Selecting {
                Outcome::Cancelled
            } else {
                old(self).outcome
            }),
            final(self).drag == old(self).drag,
            final(self).mode == old(self).mode,
            final(self).accent == old(self).accent,
            final(self).recording_blue == old(self).recording_blue,
            final(self).open == old(self).open,
    {
        if let Some(i) = self.find(id) {
            self.surfaces.remove(i);
        }
        if let Mode::Selecting = self.mode {
            self.outcome = Outcome::Cancelled;
        }
    }

    /// An output is gone, and its surfaces with it.
    pub fn on_output_destroyed(&mut self, output: u32)
        ensures
            final(self).surfaces@ == old(self).surfaces@.filter(
                |s: SelectorSurface| s.output != output,
            ),
            final(self).same_but_surfaces(*old(self)),
    {
        let ghost all = self.surfaces@;
        let ghost stays = |s: SelectorSurface| s.output != output;
        let mut i: usize = 0;
        let ghost mut seen: int = 0;
        proof {
            reveal(Seq::filter);
            assert(all.take(0).filter(stays) =~= Seq::empty());
            assert(all.skip(0) =~= all);
            assert(self.surfaces@ =~= all.take(0).filter(stays) + all.skip(0));
        }
        while i < self.surfaces.len()
            invariant
                0 <= seen <= all.len(),
                i <= self.surfaces@.len(),
                i == all.take(seen).filter(stays).len(),
                self.surfaces@ == all.take(seen).filter(stays) + all.skip(seen),
                stays == (|s: SelectorSurface| s.output != output),
                self.same_but_surfaces(*old(self)),
            decreases self.surfaces@.len() - i,
        {
            proof {
                reveal(Seq::filter);
                assert(self.surfaces@[i as int] == all.skip(seen)[0]);
                assert(all.take(seen + 1).drop_last() =~= all.take(seen));
                assert(all.take(seen + 1).last() == all[seen]);
            }
            if self.surfaces[i].output != output {
                proof {
                    assert(all.take(seen + 1).filter(stays) + all.skip(seen + 1)
                        =~= self.surfaces@);
                }
                i = i + 1;
            } else {
                self.surfaces.remove(i);
                proof {
                    assert(all.take(seen + 1).filter(stays) + all.skip(seen + 1)
                        =~= self.surfaces@);
                }
            }
            proof {
                seen = seen + 1;
            }
        }
        proof {
            assert(all.skip(seen).len() == 0);
            assert(all.take(seen) =~= all);
            assert(self.surfaces@ =~= all.filter(stays));
        }
    }

    /// The buffer that a surface of a logical size gets: the output's pixels
    /// along an axis whose size is left open.
    pub open spec fn buffer_for(s: SelectorSurface, w: u32, h: u32) -> (int, int) {
        (
            if w == 0 {
                s.physical_size.0 as int
            } else {
                w * real_scale(s.scale)
            },
            if h == 0 {
                s.physical_size.1 as int
            } else {
                h * real_scale(s.scale)
            },
        )
    }

    /// A surface got its size. One without pixels is left alone.
    pub fn on_configure(&mut self, id: u32, w: u32, h: u32)
        requires
            match place(old(self).surfaces@, id) {
                Some(i) => Selector::buffer_for(old(self).surfaces@[i], w, h).0 <= u32::MAX
                    && Selector::buffer_for(old(self).surfaces@[i], w, h).1 <= u32::MAX,
                None => true,
            },
        ensures
            final(self).surfaces@ == (match place(old(self).surfaces@, id) {
                Some(i) => {
                    let s = old(self).surfaces@[i];
                    let b = Selector::buffer_for(s, w, h);
                    if b.0 == 0 || b.1 == 0 {
                        old(self).surfaces@
                    } else {
                        old(self).surfaces@.update(
                            i,
                            SelectorSurface {
                                buffer_size: (b.0 as u32, b.1 as u32),
                                configured: true,
                                dirty: true,
                                ..s
                            },
                        )
                    }
                },
                None => old(self).surfaces@,
            }),
            final(self).same_but_surfaces(*old(self)),
    {
        if let Some(i) = self.find(id) {
            let s = &mut self.surfaces[i];
            let scale: u32 = if s.scale < 1 { 1 } else { s.scale as u32 };
            let bw: u32 = if w == 0 { s.physical_size.0 } else { w * scale };
            let bh: u32 = if h == 0 { s.physical_size.1 } else { h * scale };
            if bw == 0 || bh == 0 {
                return ;
            }
            s.buffer_size = (bw, bh);
            s.configured = true;
            s.dirty = true;
        }
    }

    fn touch(&mut self, id: u32)
        ensures
            final(self).surfaces@ == touched(old(self).surfaces@, id),
            final(self).same_but_surfaces(*old(self)),
    {
        if let Some(i) = self.find(id) {
            let s = &mut self.surfaces[i];
            s.dirty = true;
        }
    }

    /// What the pointer's doing comes to. Nothing while a region is recorded, and
    /// nothing away from the surfaces. A left press begins a drag, a motion on its
    /// surface moves it, a release there ends it: in a region where it is large
    /// enough, else in nothing, as a right press does.
    pub fn on_pointer(&mut self, ev: PointerEvent) -> (r: PointerReply)
        ensures
            final(self).mode == old(self).mode,
            final(self).accent == old(self).accent,
            final(self).recording_blue == old(self).recording_blue,
            final(self).open == old(self).open,
            ({
                let known = old(self).mode is Selecting && place(
                    old(self).surfaces@,
                    ev.surface,
                ) is Some;
                let on_drag = old(self).drag is Some && old(self).drag->0.surface == ev.surface;
                let moved = Drag { current: ev.position, ..old(self).drag->0 };
                if known && ev.kind == PointerKind::LeftPress {
                    &&& r is Nothing
                    &&& final(self).outcome == old(self).outcome
                    &&& final(self).drag == Some(
                        Drag {
                            surface: ev.surface,
                            start: ev.position,
                            current: ev.position,
                            active: true,
                        },
                    )
                    &&& final(self).surfaces@ == touched(old(self).surfaces@, ev.surface)
                } else if known && ev.kind == PointerKind::Motion && on_drag && old(
                    self,
                ).drag->0.active {
                    &&& r is Nothing
                    &&& final(self).outcome == old(self).outcome
                    &&& final(self).drag == Some(moved)
                    &&& final(self).surfaces@ == touched(old(self).surfaces@, ev.surface)
                } else if known && ev.kind == PointerKind::LeftRelease && on_drag {
                    let region = dragged_region(moved);
                    &&& final(self).drag is None
                    &&& final(self).surfaces@ == old(self).surfaces@
                    &&& if large_enough(region) && old(self).open {
                        &&& final(self).outcome == old(self).outcome
                        &&& r is Deliver
                        &&& selects(old(self).surfaces@, moved, r->Deliver_0)
                    } else {
                        &&& final(self).outcome == Outcome::Cancelled
                        &&& r is Nothing
                    }
                } else {
                    &&& r is Nothing
                    &&& final(self).drag == old(self).drag
                    &&& final(self).surfaces@ == old(self).surfaces@
                    &&& final(self).outcome == (if known && ev.kind == PointerKind::RightPress {
                        Outcome::Cancelled
                    } else {
                        old(self).outcome
                    })
                }
            }),
    {
        match self.mode {
            Mode::Selecting => {},
            _ => {
                return PointerReply::Nothing;
            },
        }
        let i: usize = match self.find(ev.surface) {
            Some(i) => i,
            None => {
                return PointerReply::Nothing;
            },
        };
        match ev.kind {
            PointerKind::LeftPress => {
                self.drag = Some(
                    Drag {
                        surface: ev.surface,
                        start: ev.position,
                        current: ev.position,
                        active: true,
                    },
                );
                self.touch(ev.surface);
            },
            PointerKind::Motion => {
                if let Some(d) = self.drag {
                    if d.active && d.surface == ev.surface {
                        self.drag = Some(
                            Drag {
                                surface: d.surface,
                                start: d.start,
                                current: ev.position,
                                active: d.active,
                            },
                        );
                        self.touch(ev.surface);
                    }
                }
            },
            PointerKind::LeftRelease => {
                if let Some(d) = self.drag {
                    if d.surface == ev.surface {
                        let ended = Drag {
                            surface: d.surface,
                            start: d.start,
                            current: ev.position,
                            active: d.active,
                        };
                        self.drag = None;
                        let region = region_of(&ended);
                        if region.2 < MIN_EXTENT || region.3 < MIN_EXTENT || !self.open {
                            self.outcome = Outcome::Cancelled;
                            return PointerReply::Nothing;
                        }
                        let s = &self.surfaces[i];
                        let scale: i32 = if s.scale < 1 { 1 } else { s.scale };
                        return PointerReply::Deliver(
                            Selection {
                                output_name: s.output_name.clone(),
                                output_logical_pos: s.logical_pos,
                                output_logical_size: s.logical_size,
                                region_logical: region,
                                scale,
                            },
                        );
                    }
                }
            },
            PointerKind::RightPress => {
                self.outcome = Outcome::Cancelled;
            },
            PointerKind::Other => {},
        }
        PointerReply::Nothing
    }

    /// The escape key cancels while a region is chosen.
    pub fn on_escape(&mut self)
        ensures
            final(self).outcome == (if old(self).mode is Selecting {
                Outcome::Cancelled
            } else {
                old(self).outcome
            }),
            final(self).surfaces@ == old(self).surfaces@,
            final(self).drag == old(self).drag,
            final(self).mode == old(self).mode,
            final(self).accent == old(self).accent,
            final(self).recording_blue == old(self).recording_blue,
            final(self).open == old(self).open,
    {
        if let Mode::Selecting = self.mode {
            self.outcome = Outcome::Cancelled;
        }
    }

    /// A selection was handed over, or nobody took it. A region that was taken is
    /// confirmed: the old surfaces go, and its border is shown on `overlay`, a
    /// fresh surface of its output, or nowhere where the output is gone.
    pub fn on_delivered(&mut self, taken: bool, s: &Selection, overlay: Option<SelectorSurface>)
        ensures
            !final(self).open,
            final(self).drag == old(self).drag,
            final(self).accent == old(self).accent,
            final(self).recording_blue == old(self).recording_blue,
            if taken {
                &&& final(self).outcome == Outcome::Confirmed
                &&& final(self).mode == (Mode::Recording {
                    surface: match overlay {
                        Some(o) => o.surface,
                        None => 0,
                    },
                    rect: selection::physical(s.region_logical, s.scale),
                })
                &&& final(self).surfaces@ == (match overlay {
                    Some(o) => seq![o],
                    None => Seq::empty(),
                })
            } else {
                &&& final(self).outcome == Outcome::Cancelled
                &&& final(self).mode == old(self).mode
                &&& final(self).surfaces@ == old(self).surfaces@
            },
    {
        self.open = false;
        if !taken {
            self.outcome = Outcome::Cancelled;
            return ;
        }
        self.outcome = Outcome::Confirmed;
        let rect = s.region_physical();
        self.surfaces = Vec::new();
        let mut surface: u32 = 0;
        if let Some(o) = overlay {
            surface = o.surface;
            self.surfaces.push(o);
        }
        self.mode = Mode::Recording { surface, rect };
        proof {
            if overlay is Some {
                assert(self.surfaces@ =~= seq![overlay->0]);
            }
        }
    }

    /// What the `i`-th surface has to show, where it has to be painted: it has its
    /// size, it has changed, no frame of it is under way, and while a region is
    /// recorded it is the one with the border.
    pub open spec fn job(self, i: int) -> Option<PaintJob> {
        let s = self.surfaces@[i];
        if !s.configured || !s.dirty || s.frame_pending {
            None
        } else {
            match self.mode {
                Mode::Selecting => Some(
                    PaintJob {
                        cutout: if self.drag is Some && self.drag->0.surface == s.surface {
                            Some(drag_cutout(self.drag->0, s.scale))
                        } else {
                            None
                        },
                        border: self.accent,
                        background: render::DIM_BACKGROUND,
                        size: s.buffer_size,
                        scale: real_scale(s.scale),
                    },
                ),
                Mode::Recording { surface, rect } => if surface == s.surface {
                    Some(
                        PaintJob {
                            cutout: Some(rect),
                            border: self.recording_blue,
                            background: render::TRANSPARENT_BACKGROUND,
                            size: s.buffer_size,
                            scale: real_scale(s.scale),
                        },
                    )
                } else {
                    None
                },
            }
        }
    }

    /// What the `i`-th surface has to show.
    pub fn paint_job(&self, i: usize) -> (r: Option<PaintJob>)
        requires
            i < self.surfaces@.len(),
        ensures
            r == self.job(i as int),
    {
        let s = &self.surfaces[i];
        if !s.configured || !s.dirty || s.frame_pending {
            return None;
        }
        let scale: i32 = if s.scale < 1 { 1 } else { s.scale };
        match self.mode {
            Mode::Selecting => {
                let cutout = match self.drag {
                    Some(d) => if d.surface == s.surface {
                        let x0: i64 = min_of(d.start.0, d.current.0) as i64;
                        let y0: i64 = min_of(d.start.1, d.current.1) as i64;
                        let x1: i64 = max_of(d.start.0, d.current.0) as i64;
                        let y1: i64 = max_of(d.start.1, d.current.1) as i64;
                        Some(
                            (
                                selection::clamp_i32(nearest_pixel(x0, scale)),
                                selection::clamp_i32(nearest_pixel(y0, scale)),
                                selection::clamp_u32(nearest_pixel(x1 - x0, scale)),
                                selection::clamp_u32(nearest_pixel(y1 - y0, scale)),
                            ),
                        )
                    } else {
                        None
                    },
                    None => None,
                };
                Some(
                    PaintJob {
                        cutout,
                        border: self.accent,
                        background: render::DIM_BACKGROUND,
                        size: s.buffer_size,
                        scale,
                    },
                )
            },
            Mode::Recording { surface, rect } => if surface == s.surface {
                Some(
                    PaintJob {
                        cutout: Some(rect),
                        border: self.recording_blue,
                        background: render::TRANSPARENT_BACKGROUND,
                        size: s.buffer_size,
                        scale,
                    },
                )
            } else {
                None
            },
        }
    }

    /// The `i`-th surface was painted and its frame handed over.
    pub fn on_painted(&mut self, i: usize)
        requires
            i < old(self).surfaces@.len(),
        ensures
            final(self).surfaces@ == old(self).surfaces@.update(
                i as int,
                SelectorSurface {
                    dirty: false,
                    frame_pending: true,
                    ..old(self).surfaces@[i as int]
                },
            ),
            final(self).same_but_surfaces(*old(self)),
    {
        let s = &mut self.surfaces[i];
        s.dirty = false;
        s.frame_pending = true;
    }
}

/// A selection is never smaller than the least extent, and never begins left of
/// or above its output.
pub proof fn selections_are_usable(d: Drag)
    requires
        large_enough(dragged_region(d)),
    ensures
        dragged_region(d).0 >= 0,
        dragged_region(d).1 >= 0,
        dragged_region(d).2 >= 8,
        dragged_region(d).3 >= 8,
{
}

/// It does not matter from which corner a region is dragged.
pub proof fn drags_are_symmetric(d: Drag)
    ensures
        dragged_region(Drag { start: d.current, current: d.start, ..d }) == dragged_region(d),
{
}

/// A surface whose frame is under way is not painted again before it is shown.
pub proof fn no_frame_is_overtaken(s: Selector, i: int)
    requires
        0 <= i < s.surfaces@.len(),
        s.surfaces@[i].frame_pending,
    ensures
        s.job(i) is None,
{
}

/// A drag selects what it spans: the region starts in the unit that holds the drag's
/// lesser position on each axis and ends where the unit begins that holds the greater
/// one.
pub proof fn a_drag_selects_what_it_spans(d: Drag)
    requires
        d.start.0 >= 0 && d.start.1 >= 0,
        d.current.0 >= 0 && d.current.1 >= 0,
    ensures
        ({
            let (x, y, w, h) = dragged_region(d);
            let one = 256int;
            &&& x * one <= d.start.0 && x * one <= d.current.0
            &&& y * one <= d.start.1 && y * one <= d.current.1
            &&& d.start.0 < (x + 1) * one || d.current.0 < (x + 1) * one
            &&& d.start.1 < (y + 1) * one || d.current.1 < (y + 1) * one
            &&& d.start.0 < (x + w + 1) * one && d.current.0 < (x + w + 1) * one
            &&& d.start.1 < (y + h + 1) * one && d.current.1 < (y + h + 1) * one
            &&& w == 1 || (x + w) * one <= d.start.0 || (x + w) * one <= d.current.0
            &&& h == 1 || (y + h) * one <= d.start.1 || (y + h) * one <= d.current.1
        }),
{
}

/// A selection names the output that the drag was on: the first surface with the drag's
/// number.
pub proof fn a_selection_is_on_the_drags_output(
    surfaces: Seq<SelectorSurface>,
    d: Drag,
    s: Selection,
    i: int,
)
    requires
        0 <= i < surfaces.len(),
        surfaces[i].surface == d.surface,
        forall|j: int| 0 <= j < i ==> (#[trigger] surfaces[j]).surface != d.surface,
        selects(surfaces, d, s),
    ensures
        s.output_name == surfaces[i].output_name,
        s.output_logical_pos == surfaces[i].logical_pos,
        s.output_logical_size == surfaces[i].logical_size,
        s.region_logical == dragged_region(d),
        surfaces[i].scale >= 1 ==> s.scale == surfaces[i].scale,
{
    lemma_place(surfaces, d.surface, i);
}

proof fn lemma_place(surfaces: Seq<SelectorSurface>, id: u32, i: int)
    requires
        0 <= i < surfaces.len(),
        surfaces[i].surface == id,
        forall|j: int| 0 <= j < i ==> (#[trigger] surfaces[j]).surface != id,
    ensures
        place(surfaces, id) == Some(i),
    decreases surfaces.len(),
{
    let init = surfaces.drop_last();
    if i < init.len() {
        assert forall|j: int| 0 <= j < i implies (#[trigger] init[j]).surface != id by {
            assert(surfaces[j].surface != id);
        }
        lemma_place(init, id, i);
    } else {
        lemma_no_place(surfaces, id, i);
        assert(surfaces.take(i) =~= init);
    }
}

proof fn lemma_no_place(surfaces: Seq<SelectorSurface>, id: u32, n: int)
    requires
        0 <= n <= surfaces.len(),
        forall|j: int| 0 <= j < n ==> (#[trigger] surfaces[j]).surface != id,
    ensures
        place(surfaces.take(n), id) is None,
    decreases n,
{
    if n > 0 {
        lemma_no_place(surfaces, id, n - 1);
        assert(surfaces.take(n).drop_last() =~= surfaces.take(n - 1));
        assert(surfaces[n - 1].surface != id);
    }
}

/// The hole follows the drag: its corner and its extents are the drag's in pixels, to
/// the nearest one.
pub proof fn the_hole_follows_the_drag(d: Drag, scale: i32)
    requires
        1 <= scale <= 0x1_0000,
        0 <= d.start.0 < 0x1_0000 && 0 <= d.start.1 < 0x1_0000,
        0 <= d.current.0 < 0x1_0000 && 0 <= d.current.1 < 0x1_0000,
    ensures
        ({
            let (x, y, w, h) = drag_cutout(d, scale);
            let (left, right) = if d.start.0 <= d.current.0 {
                (d.start.0, d.current.0)
            } else {
                (d.current.0, d.start.0)
            };
            let (top, bottom) = if d.start.1 <= d.current.1 {
                (d.start.1, d.current.1)
            } else {
                (d.current.1, d.start.1)
            };
            &&& -256 <= 512 * x - 2 * (left * scale) <= 256
            &&& -256 <= 512 * y - 2 * (top * scale) <= 256
            &&& -256 <= 512 * w - 2 * ((right - left) * scale) <= 256
            &&& -256 <= 512 * h - 2 * ((bottom - top) * scale) <= 256
        }),
{
    let (x0, x1) = (lesser(d.start.0, d.current.0) as int, greater(d.start.0, d.current.0) as int);
    let (y0, y1) = (lesser(d.start.1, d.current.1) as int, greater(d.start.1, d.current.1) as int);
    lemma_nearest(x0, scale as int);
    lemma_nearest(y0, scale as int);
    lemma_nearest(x1 - x0, scale as int);
    lemma_nearest(y1 - y0, scale as int);
}

proof fn lemma_nearest(n: int, scale: int)
    requires
        0 <= n < 0x1_0000,
        1 <= scale <= 0x1_0000,
    ensures
        -256 <= 512 * nearest(n, scale) - 2 * (n * scale) <= 256,
        0 <= nearest(n, scale) <= 0x100_0000,
{
    assert(0 <= n * scale <= 0x1_0000 * 0x1_0000) by (nonlinear_arith)
        requires
            0 <= n <= 0x1_0000,
            1 <= scale <= 0x1_0000,
    ;
}

/// While a region is chosen the screen is dimmed, with a hole only where it is dragged;
/// while it is recorded only its border shows, where it is recorded.
pub proof fn surfaces_show_their_phase(s: Selector, i: int)
    requires
        0 <= i < s.surfaces@.len(),
        s.job(i) is Some,
    ensures
        ({
            let job = s.job(i)->0;
            let surface = s.surfaces@[i];
            &&& job.size == surface.buffer_size
            &&& s.mode is Selecting ==> job.border == s.accent && job.background == 0x9900_0000 && (
            job.cutout is Some <==> s.drag is Some && s.drag->0.surface == surface.surface)
            &&& s.mode matches Mode::Recording { surface: id, rect } ==> id == surface.surface
                && job.border == s.recording_blue && job.background == 0 && job.cutout == Some(rect)
        }),
{
}

/// A surface that has changed and can be painted is painted.
pub proof fn changed_surfaces_are_painted(s: Selector, i: int)
    requires
        0 <= i < s.surfaces@.len(),
        s.surfaces@[i].configured,
        s.surfaces@[i].dirty,
        !s.surfaces@[i].frame_pending,
        s.mode matches Mode::Recording { surface, rect } ==> surface == s.surfaces@[i].surface,
    ensures
        s.job(i) is Some,
{
}

/// A surface's buffer has the surface's scale in pixels for each of its logical units; along
/// an axis whose size is left open it has the output's pixels.
pub proof fn buffers_are_as_dense_as_their_surface(s: SelectorSurface, w: u32, h: u32)
    ensures
        ({
            let (bw, bh) = Selector::buffer_for(s, w, h);
            &&& w > 0 && s.scale >= 1 ==> bw == w * s.scale
            &&& h > 0 && s.scale >= 1 ==> bh == h * s.scale
            &&& w > 0 && s.scale < 1 ==> bw == w
            &&& h > 0 && s.scale < 1 ==> bh == h
            &&& w == 0 ==> bw == s.physical_size.0
            &&& h == 0 ==> bh == s.physical_size.1
        }),
{
    assert(w * 1 == w && h * 1 == h);
}

/// A surface is found at the first place that has its number.
pub proof fn a_surface_is_found_by_its_number(surfaces: Seq<SelectorSurface>, id: u32)
    ensures
        match place(surfaces, id) {
            Some(i) => 0 <= i < surfaces.len() && surfaces[i].surface == id && forall|j: int|
                0 <= j < i ==> (#[trigger] surfaces[j]).surface != id,
            None => forall|j: int|
                0 <= j < surfaces.len() ==> (#[trigger] surfaces[j]).surface != id,
        },
    decreases surfaces.len(),
{
    if surfaces.len() > 0 {
        let init = surfaces.drop_last();
        a_surface_is_found_by_its_number(init, id);
        assert forall|j: int| 0 <= j < init.len() implies #[trigger] surfaces[j] == init[j] by {}
    }
}

/// A surface that was touched is to be painted anew, and it alone.
pub proof fn only_the_touched_surface_is_painted(surfaces: Seq<SelectorSurface>, id: u32, i: int)
    requires
        0 <= i < surfaces.len(),
    ensures
        ({
            let t = touched(surfaces, id);
            &&& t.len() == surfaces.len()
            &&& t[i] == (SelectorSurface { dirty: t[i].dirty, ..surfaces[i] })
            &&& surfaces[i].surface != id ==> t[i] == surfaces[i]
            &&& surfaces[i].surface == id && (forall|j: int|
                0 <= j < i ==> (#[trigger] surfaces[j]).surface != id) ==> t[i].dirty
        }),
{
    a_surface_is_found_by_its_number(surfaces, id);
    let f = place(surfaces, id);
    if surfaces[i].surface == id && (forall|j: int|
        0 <= j < i ==> (#[trigger] surfaces[j]).surface != id) {
        assert(f is Some);
        if f->0 < i {
            assert(surfaces[f->0].surface != id);
        }
    }
}

/// An output is as large as the compositor says, or as its mode where it says nothing.
pub proof fn outputs_are_as_large_as_is_said(d: OutputDescription)
    ensures
        d.logical_size matches Some((w, h)) ==> (w >= 0 && h >= 0 ==> logical_size_of(d).0 == w
            && logical_size_of(d).1 == h),
        d.logical_size is None ==> (mode_size(d) matches Some(m) ==> logical_size_of(d) == m),
        d.logical_size is None && mode_size(d) is None ==> logical_size_of(d) == (0u32, 0u32),
        outputs::current_mode(d.modes@) matches Some((w, h)) ==> (w >= 0 && h >= 0 ==> (mode_size(
            d,
        ) matches Some(m) && m.0 == w && m.1 == h)),
        outputs::current_mode(d.modes@) is None ==> mode_size(d) is None,
{
}

} // verus!
