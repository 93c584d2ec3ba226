//! Thumbnails that follow their windows: slots that frames are published into,
//! and the textures that they are uploaded to.
use vstd::prelude::*;

verus! {

/// A frame as the compositor gives it. `stride` may exceed `width * 4` where the
/// rows are padded.
pub struct RawFrame {
    pub pixels: Vec<u8>,
    pub width: u32,
    pub height: u32,
    pub stride: u32,
}

/// A slot for the frames of one tile. Whoever makes frames overwrites the latest
/// one; whoever draws takes it where the version has moved on.
pub struct SharedFrame {
    pub id: u64,
    pub version: u64,
    pub latest: Option<RawFrame>,
}

/// The version after `v`.
pub open spec fn next_version(v: u64) -> u64 {
    if v == u64::MAX {
        0
    } else {
        (v + 1) as u64
    }
}

impl SharedFrame {
    /// An empty slot.
    pub fn new(id: u64) -> (s: SharedFrame)
        ensures
            s == (SharedFrame { id, version: 0, latest: None }),
    {
        SharedFrame { id, version: 0, latest: None }
    }

    /// The slot's number, the same for as long as it is there.
    pub fn id(&self) -> (n: u64)
        ensures
            n == self.id,
    {
        self.id
    }

    /// The slot with a frame put into it.
    pub open spec fn published(self, frame: RawFrame) -> SharedFrame {
        SharedFrame { id: self.id, version: next_version(self.version), latest: Some(frame) }
    }

    /// What the latest frame is to whoever has seen a version, with that frame's
    /// version.
    pub open spec fn newer(self, last_seen: u64) -> Option<(RawFrame, u64)> {
        match self.latest {
            Some(f) => if self.version == last_seen {
                None
            } else {
                Some((f, self.version))
            },
            None => None,
        }
    }

    /// The slot once whoever has seen a version has taken what is newer.
    pub open spec fn emptied(self, last_seen: u64) -> SharedFrame {
        if self.version == last_seen {
            self
        } else {
            SharedFrame { latest: None, ..self }
        }
    }

    /// Puts a frame into the slot and moves the version on.
    pub fn publish(&mut self, frame: RawFrame)
        ensures
            *final(self) == old(self).published(frame),
    {
        self.latest = Some(frame);
        self.version = if self.version == u64::MAX {
            0
        } else {
            self.version + 1
        };
    }

    /// How often a frame has been published.
    pub fn version(&self) -> (v: u64)
        ensures
            v == self.version,
    {
        self.version
    }

    /// Takes the latest frame, where there is one that was not seen.
    pub fn take_if_newer(&mut self, last_seen: u64) -> (r: Option<(RawFrame, u64)>)
        ensures
            r == old(self).newer(last_seen),
            *final(self) == old(self).emptied(last_seen),
    {
        if self.version == last_seen {
            return None;
        }
        let version: u64 = self.version;
        match self.latest.take() {
            Some(f) => Some((f, version)),
            None => None,
        }
    }
}

/// A published frame is taken, whatever was in the slot before, and then not again.
pub proof fn a_frame_is_taken_once(s: SharedFrame, f: RawFrame, seen: u64, again: u64)
    requires
        seen != next_version(s.version),
    ensures
        s.published(f).newer(seen) == Some((f, next_version(s.version))),
        s.published(f).emptied(seen).newer(again) is None,
{
}

/// A slot keeps its number, whatever is put into it and taken out of it.
pub proof fn a_slot_keeps_its_number(s: SharedFrame, f: RawFrame, seen: u64)
    ensures
        s.published(f).id == s.id,
        s.emptied(seen).id == s.id,
{
}

/// A fresh slot gives nothing, however often it is asked, until a frame is put
/// into it.
pub proof fn a_fresh_slot_gives_nothing(id: u64, seen: u64)
    ensures
        ({
            let s = SharedFrame { id, version: 0, latest: None };
            s.newer(seen) is None && s.emptied(seen) == s
        }),
{
}

/// A tile that is drawn from a slot.
#[derive(Clone, Copy, Debug, PartialEq, Eq, Structural)]
pub struct StreamingThumb {
    pub slot: u64,
}

impl StreamingThumb {
    /// A tile that is drawn from a slot.
    pub fn new(shared: &SharedFrame) -> (t: StreamingThumb)
        ensures
            t == (StreamingThumb { slot: shared.id }),
    {
        StreamingThumb { slot: shared.id }
    }

    /// What is drawn.
    pub fn draw(&self) -> (p: ThumbPrimitive)
        ensures
            p == (ThumbPrimitive { slot: self.slot }),
    {
        ThumbPrimitive { slot: self.slot }
    }
}

/// A tile on its way to the screen.
#[derive(Clone, Copy, Debug, PartialEq, Eq, Structural)]
pub struct ThumbPrimitive {
    pub slot: u64,
}

/// A tile's texture.
#[derive(Clone, Copy, Debug, PartialEq, Eq, Structural)]
pub struct TextureEntry {
    pub slot: u64,
    pub width: u32,
    pub height: u32,
    pub last_version: u64,
}

/// What goes to a texture.
pub struct Upload {
    pub frame: RawFrame,
    /// Whether the texture has to be made anew first.
    pub fresh: bool,
    pub bytes_per_row: u32,
}

/// The textures of the tiles.
pub struct ThumbPipeline {
    pub textures: Vec<TextureEntry>,
}

/// The place of a slot's first texture.
pub open spec fn find_texture(textures: Seq<TextureEntry>, slot: u64) -> Option<int>
    decreases textures.len(),
{
    if textures.len() == 0 {
        None
    } else {
        match find_texture(textures.drop_last(), slot) {
            Some(i) => Some(i),
            None => if textures.last().slot == slot {
                Some(textures.len() - 1)
            } else {
                None
            },
        }
    }
}

/// The version that a slot's texture shows.
pub open spec fn shown_version(textures: Seq<TextureEntry>, slot: u64) -> u64 {
    match find_texture(textures, slot) {
        Some(i) => textures[i].last_version,
        None => 0,
    }
}

/// The textures with one of a slot's.
pub open spec fn with_texture(textures: Seq<TextureEntry>, e: TextureEntry) -> Seq<TextureEntry> {
    match find_texture(textures, e.slot) {
        Some(i) => textures.update(i, e),
        None => textures.push(e),
    }
}

/// A slot's texture has to be made anew for a frame of this size.
pub open spec fn needs_texture(textures: Seq<TextureEntry>, slot: u64, width: u32, height: u32) -> bool {
    match find_texture(textures, slot) {
        Some(i) => textures[i].width != width || textures[i].height != height,
        None => true,
    }
}

/// A row's bytes in a frame.
pub open spec fn row_bytes(f: RawFrame) -> int {
    if f.stride >= f.width * 4 {
        f.stride as int
    } else {
        f.width * 4
    }
}

proof fn lemma_texture_prefix(textures: Seq<TextureEntry>, slot: u64, n: int)
    requires
        0 <= n <= textures.len(),
        find_texture(textures.take(n), slot) is Some,
    ensures
        find_texture(textures, slot) == find_texture(textures.take(n), slot),
    decreases textures.len(),
{
    if n < textures.len() {
        assert(textures.drop_last().take(n) =~= textures.take(n));
        lemma_texture_prefix(textures.drop_last(), slot, n);
    } else {
        assert(textures.take(n) =~= textures);
    }
}

impl ThumbPipeline {
    /// No textures yet.
    pub fn new() -> (p: ThumbPipeline)
        ensures
            p.textures@ == Seq::<TextureEntry>::empty(),
    {
        ThumbPipeline { textures: Vec::new() }
    }

    fn position(&self, slot: u64) -> (r: Option<usize>)
        ensures
            match r {
                Some(i) => i < self.textures@.len() && find_texture(self.textures@, slot) == Some(
                    i as int,
                ),
                None => find_texture(self.textures@, slot) is None,
            },
    {
        let mut i: usize = 0;
        while i < self.textures.len()
            invariant
                i <= self.textures@.len(),
                find_texture(self.textures@.take(i as int), slot) is None,
            decreases self.textures@.len() - i,
        {
            assert(self.textures@.take(i + 1).drop_last() =~= self.textures@.take(i as int));
            if self.textures[i].slot == slot {
                proof {
                    lemma_texture_prefix(self.textures@, slot, i + 1);
                }
                return Some(i);
            }
            i = i + 1;
        }
        assert(self.textures@.take(i as int) =~= self.textures@);
        None
    }

    /// Whether a slot has a texture to draw.
    pub fn has_texture(&self, slot: u64) -> (b: bool)
        ensures
            b == (find_texture(self.textures@, slot) is Some),
    {
        self.position(slot).is_some()
    }

    /// Takes the slot's frame for its texture, where the texture does not show it
    /// yet. The texture is made anew where there is none or its size has changed. A
    /// row of the frame has to be a 32 bit length.
    pub fn prepare_tile(&mut self, shared: &mut SharedFrame) -> (r: Option<Upload>)
        requires
            old(shared).newer(shown_version(old(self).textures@, old(shared).id)) matches Some(p)
                ==> p.0.width * 4 <= u32::MAX,
        ensures
            ({
                let t = old(self).textures@;
                let s = *old(shared);
                let seen = shown_version(t, s.id);
                &&& *final(shared) == s.emptied(seen)
                &&& match s.newer(seen) {
                    None => r is None && final(self).textures@ == t,
                    Some((f, version)) => {
                        &&& r is Some
                        &&& r->0.frame == f
                        &&& r->0.fresh == needs_texture(t, s.id, f.width, f.height)
                        &&& r->0.bytes_per_row == row_bytes(f)
                        &&& final(self).textures@ == with_texture(
                            t,
                            TextureEntry {
                                slot: s.id,
                                width: f.width,
                                height: f.height,
                                last_version: version,
                            },
                        )
                    },
                }
            }),
    {
        let slot: u64 = shared.id();
        let at = self.position(slot);
        let seen: u64 = match at {
            Some(i) => self.textures[i].last_version,
            None => 0,
        };
        let (frame, version) = match shared.take_if_newer(seen) {
            Some(f) => f,
            None => {
                return None;
            },
        };
        let fresh = match at {
            Some(i) => self.textures[i].width != frame.width || self.textures[i].height
                != frame.height,
            None => true,
        };
        let entry = TextureEntry {
            slot,
            width: frame.width,
            height: frame.height,
            last_version: version,
        };
        match at {
            Some(i) => {
                self.textures.set(i, entry);
            },
            None => {
                self.textures.push(entry);
            },
        }
        let packed: u32 = frame.width * 4;
        let bytes_per_row: u32 = if frame.stride >= packed {
            frame.stride
        } else {
            packed
        };
        Some(Upload { frame, fresh, bytes_per_row })
    }

    /// Gives up the textures of slots that are gone.
    pub fn trim(&mut self, alive: &Vec<u64>)
        ensures
            final(self).textures@ == old(self).textures@.filter(
                |e: TextureEntry| alive@.contains(e.slot),
            ),
    {
        let ghost before = self.textures@;
        let ghost keep = |e: TextureEntry| alive@.contains(e.slot);
        let mut left: Vec<TextureEntry> = Vec::new();
        let mut i: usize = 0;
        reveal(Seq::filter);
        while i < self.textures.len()
            invariant
                i <= self.textures@.len(),
                before == self.textures@,
                keep == (|e: TextureEntry| alive@.contains(e.slot)),
                left@ == before.take(i as int).filter(keep),
            decreases self.textures@.len() - i,
        {
            reveal(Seq::filter);
            assert(before.take(i + 1).drop_last() =~= before.take(i as int));
            let e = self.textures[i];
            if is_among(alive, e.slot) {
                left.push(e);
            }
            i = i + 1;
        }
        assert(before.take(i as int) =~= before);
        self.textures = left;
    }
}

fn is_among(v: &Vec<u64>, n: u64) -> (b: bool)
    ensures
        b == v@.contains(n),
{
    let mut i: usize = 0;
    while i < v.len()
        invariant
            i <= v@.len(),
            forall|j: int| 0 <= j < i ==> v@[j] != n,
        decreases v@.len() - i,
    {
        if v[i] == n {
            assert(v@[i as int] == n);
            return true;
        }
        i = i + 1;
    }
    false
}

/// Once a texture shows a frame, a frame of that size needs no other one, and one
/// of another size does.
pub proof fn equal_sizes_share_a_texture(t: Seq<TextureEntry>, e: TextureEntry, width: u32, height: u32)
    ensures
        needs_texture(with_texture(t, e), e.slot, width, height) == (width != e.width || height
            != e.height),
        shown_version(with_texture(t, e), e.slot) == e.last_version,
{
    lemma_found(t, e.slot);
    let u = with_texture(t, e);
    match find_texture(t, e.slot) {
        Some(i) => {
            lemma_first(t, e.slot);
            lemma_is_first(u, e.slot, i);
        },
        None => {
            assert(u.drop_last() =~= t);
        },
    }
}

proof fn lemma_first(t: Seq<TextureEntry>, slot: u64)
    ensures
        find_texture(t, slot) matches Some(i) ==> forall|j: int|
            0 <= j < i ==> (#[trigger] t[j]).slot != slot,
    decreases t.len(),
{
    if t.len() > 0 {
        lemma_first(t.drop_last(), slot);
        lemma_found(t.drop_last(), slot);
        assert forall|j: int| 0 <= j < t.len() - 1 implies #[trigger] t[j] == t.drop_last()[j] by {}
    }
}

proof fn lemma_is_first(t: Seq<TextureEntry>, slot: u64, i: int)
    requires
        0 <= i < t.len(),
        t[i].slot == slot,
        forall|j: int| 0 <= j < i ==> (#[trigger] t[j]).slot != slot,
    ensures
        find_texture(t, slot) == Some(i),
{
    lemma_found(t, slot);
    lemma_first(t, slot);
}

proof fn lemma_found(t: Seq<TextureEntry>, slot: u64)
    ensures
        match find_texture(t, slot) {
            Some(i) => 0 <= i < t.len() && t[i].slot == slot,
            None => forall|j: int| 0 <= j < t.len() ==> (#[trigger] t[j]).slot != slot,
        },
    decreases t.len(),
{
    if t.len() > 0 {
        lemma_found(t.drop_last(), slot);
        assert forall|j: int| 0 <= j < t.len() - 1 implies #[trigger] t[j] == t.drop_last()[j] by {}
    }
}

/// Asks for redraws: whoever publishes a frame nudges it, and one listener takes
/// the nudges.
#[derive(Clone, Copy, Debug, PartialEq, Eq, Structural)]
pub struct RedrawBus {
    /// Nudges that the listener has not taken.
    pub pending: u64,
    /// Whether there is a listener.
    pub taken: bool,
}

impl RedrawBus {
    /// No nudge, and no listener yet.
    pub fn new() -> (b: RedrawBus)
        ensures
            b == (RedrawBus { pending: 0, taken: false }),
    {
        RedrawBus { pending: 0, taken: false }
    }
}

/// Asks for a redraw.
pub fn nudge_redraw(bus: &mut RedrawBus)
    ensures
        *final(bus) == (RedrawBus {
            pending: if old(bus).pending == u64::MAX {
                u64::MAX
            } else {
                (old(bus).pending + 1) as u64
            },
            ..*old(bus)
        }),
{
    if bus.pending < u64::MAX {
        bus.pending = bus.pending + 1;
    }
}

/// Becomes the listener. Whoever comes first does, and nobody after.
pub fn take_redraw_receiver(bus: &mut RedrawBus) -> (b: bool)
    ensures
        b == !old(bus).taken,
        *final(bus) == (RedrawBus { taken: true, ..*old(bus) }),
{
    let first = !bus.taken;
    bus.taken = true;
    first
}

/// A texture that is made or filled is its own slot's; what the other slots show stays as
/// it was.
pub proof fn other_slots_keep_their_textures(t: Seq<TextureEntry>, e: TextureEntry, slot: u64)
    requires
        slot != e.slot,
    ensures
        shown_version(with_texture(t, e), slot) == shown_version(t, slot),
        forall|w: u32, h: u32| #[trigger]
            needs_texture(with_texture(t, e), slot, w, h) == needs_texture(t, slot, w, h),
{
    let u = with_texture(t, e);
    lemma_found(t, slot);
    lemma_first(t, slot);
    lemma_found(t, e.slot);
    lemma_found(u, slot);
    match find_texture(t, slot) {
        Some(j) => {
            assert(u[j] == t[j]);
            assert forall|k: int| 0 <= k < j implies (#[trigger] u[k]).slot != slot by {
                assert(t[k].slot != slot);
            }
            lemma_is_first(u, slot, j);
        },
        None => {
            assert forall|k: int| 0 <= k < u.len() implies (#[trigger] u[k]).slot != slot by {
                if k < t.len() {
                    assert(t[k].slot != slot);
                }
            }
        },
    }
}

/// Each frame that is published counts, and the next version is never the last one.
pub proof fn each_frame_counts(s: SharedFrame, f: RawFrame)
    ensures
        s.published(f).version != s.version,
        s.version < u64::MAX ==> s.published(f).version == s.version + 1,
        s.published(f).latest == Some(f),
        s.emptied(s.version) == s,
        s.newer(s.version) is None,
{
}

/// A row of a frame is as long as the frame says, and holds all its pixels.
pub proof fn rows_hold_their_pixels(f: RawFrame)
    ensures
        row_bytes(f) >= f.width * 4,
        row_bytes(f) >= f.stride,
        row_bytes(f) == f.stride || row_bytes(f) == f.width * 4,
{
}

} // verus!
