//! Buffers on the graphics card: their format, their device and their planes.
use crate::text;
use vstd::prelude::*;

verus! {

/// The pixel formats that are captured into.
#[derive(Clone, Copy, Debug, PartialEq, Eq, Structural)]
pub enum Fourcc {
    Argb8888,
    Xrgb8888,
}

/// A format's code.
pub open spec fn fourcc_code(f: Fourcc) -> u32 {
    match f {
        Fourcc::Argb8888 => 0x3432_5241,
        Fourcc::Xrgb8888 => 0x3432_5258,
    }
}

/// Trusted: `drm_fourcc::DrmFourcc`, cast to `u32`, is the four characters of the
/// format's name, the first one lowest: `AR24` and `XR24`.
#[verifier::external_body]
fn drm_code(f: Fourcc) -> (c: u32)
    ensures
        c == fourcc_code(f),
{
    match f {
        Fourcc::Argb8888 => drm_fourcc::DrmFourcc::Argb8888 as u32,
        Fourcc::Xrgb8888 => drm_fourcc::DrmFourcc::Xrgb8888 as u32,
    }
}

impl Fourcc {
    /// The format's code.
    pub fn code(self) -> (c: u32)
        ensures
            c == fourcc_code(self),
    {
        drm_code(self)
    }
}

/// A format and the memory layouts that go with it.
pub struct FormatModifiers {
    pub fourcc: u32,
    pub modifiers: Vec<u64>,
}

/// The layouts of the first entry for a format.
pub open spec fn layouts_of(formats: Seq<FormatModifiers>, code: u32) -> Option<Seq<u64>>
    decreases formats.len(),
{
    if formats.len() == 0 {
        None
    } else if formats[0].fourcc == code {
        Some(formats[0].modifiers@)
    } else {
        layouts_of(formats.drop_first(), code)
    }
}

/// The layouts that both sides can do with a format; those of the compositor
/// where nobody else is asked.
pub open spec fn common_layouts(
    advertised: Seq<FormatModifiers>,
    consumer: Option<Seq<FormatModifiers>>,
    f: Fourcc,
) -> Seq<u64> {
    match layouts_of(advertised, fourcc_code(f)) {
        Some(ours) => match consumer {
            Some(c) => match layouts_of(c, fourcc_code(f)) {
                Some(theirs) => ours.filter(|m: u64| theirs.contains(m)),
                None => Seq::empty(),
            },
            None => ours,
        },
        None => Seq::empty(),
    }
}

/// The format with an alpha channel where any layout is common, else the one
/// without.
pub open spec fn picked(
    advertised: Seq<FormatModifiers>,
    consumer: Option<Seq<FormatModifiers>>,
) -> Option<(Fourcc, Seq<u64>)> {
    let a = common_layouts(advertised, consumer, Fourcc::Argb8888);
    let x = common_layouts(advertised, consumer, Fourcc::Xrgb8888);
    if a.len() > 0 {
        Some((Fourcc::Argb8888, a))
    } else if x.len() > 0 {
        Some((Fourcc::Xrgb8888, x))
    } else {
        None
    }
}

/// Nothing that both sides can do: the formats of either.
pub struct NoFormat {
    pub compositor: Vec<u32>,
    pub consumer: Option<Vec<u32>>,
}

/// The formats' codes.
pub open spec fn codes(formats: Seq<FormatModifiers>) -> Seq<u32> {
    Seq::new(formats.len(), |i: int| formats[i].fourcc)
}

/// Numbers in square brackets, commas between.
pub open spec fn list_text(v: Seq<u32>) -> Seq<char> {
    "["@ + list_items(v) + "]"@
}

/// Numbers with commas between.
pub open spec fn list_items(v: Seq<u32>) -> Seq<char>
    decreases v.len(),
{
    if v.len() == 0 {
        Seq::empty()
    } else if v.len() == 1 {
        text::decimal(v[0] as nat)
    } else {
        list_items(v.drop_last()) + ", "@ + text::decimal(v.last() as nat)
    }
}

fn push_list(s: &mut String, v: &Vec<u32>)
    ensures
        final(s)@ == old(s)@ + list_text(v@),
{
    let ghost was = s@;
    s.append("[");
    let mut i: usize = 0;
    assert(s@ =~= was + "["@ + list_items(v@.take(0)));
    while i < v.len()
        invariant
            i <= v@.len(),
            s@ == was + "["@ + list_items(v@.take(i as int)),
        decreases v@.len() - i,
    {
        assert(v@.take(i + 1).drop_last() =~= v@.take(i as int));
        if i > 0 {
            s.append(", ");
        }
        text::push_decimal(s, v[i] as u64);
        assert(s@ =~= was + "["@ + list_items(v@.take(i + 1)));
        i = i + 1;
    }
    assert(v@.take(i as int) =~= v@);
    s.append("]");
    assert(s@ =~= was + list_text(v@));
}

impl NoFormat {
    /// What the message says.
    pub open spec fn text(self) -> Seq<char> {
        "no usable dmabuf format in intersection: compositor="@ + list_text(self.compositor@)
            + ", consumer="@ + match self.consumer {
            Some(c) => "Some("@ + list_text(c@) + ")"@,
            None => "None"@,
        }
    }

    /// The message for the user.
    pub fn message(&self) -> (s: String)
        ensures
            s@ == self.text(),
    {
        let mut s = text::owned("no usable dmabuf format in intersection: compositor=");
        push_list(&mut s, &self.compositor);
        s.append(", consumer=");
        let ghost was = s@;
        match &self.consumer {
            Some(c) => {
                s.append("Some(");
                push_list(&mut s, c);
                s.append(")");
                assert(s@ =~= was + ("Some("@ + list_text(c@) + ")"@));
            },
            None => {
                s.append("None");
            },
        }
        s
    }
}

fn position_of(formats: &Vec<FormatModifiers>, code: u32) -> (r: Option<usize>)
    ensures
        match r {
            Some(i) => i < formats@.len() && formats@[i as int].fourcc == code && layouts_of(
                formats@,
                code,
            ) == Some(formats@[i as int].modifiers@) && forall|j: int|
                0 <= j < i ==> (#[trigger] formats@[j]).fourcc != code,
            None => layouts_of(formats@, code) is None && forall|j: int|
                0 <= j < formats@.len() ==> (#[trigger] formats@[j]).fourcc != code,
        },
{
    let mut i: usize = 0;
    assert(formats@.skip(0) =~= formats@);
    while i < formats.len()
        invariant
            i <= formats@.len(),
            forall|j: int| 0 <= j < i ==> (#[trigger] formats@[j]).fourcc != code,
            layouts_of(formats@, code) == layouts_of(formats@.skip(i as int), code),
        decreases formats@.len() - i,
    {
        if formats[i].fourcc == code {
            return Some(i);
        }
        assert(formats@.skip(i as int).drop_first() =~= formats@.skip(i + 1));
        i = i + 1;
    }
    None
}

fn holds(v: &Vec<u64>, m: u64) -> (b: bool)
    ensures
        b == v@.contains(m),
{
    let mut i: usize = 0;
    while i < v.len()
        invariant
            i <= v@.len(),
            forall|j: int| 0 <= j < i ==> v@[j] != m,
        decreases v@.len() - i,
    {
        if v[i] == m {
            assert(v@[i as int] == m);
            return true;
        }
        i = i + 1;
    }
    false
}

fn in_common(ours: &Vec<u64>, theirs: Option<&Vec<u64>>) -> (r: Vec<u64>)
    ensures
        r@ == (match theirs {
            Some(t) => ours@.filter(|m: u64| t@.contains(m)),
            None => ours@,
        }),
{
    let mut r: Vec<u64> = Vec::new();
    let mut i: usize = 0;
    let ghost keep = match theirs {
        Some(t) => |m: u64| t@.contains(m),
        None => |m: u64| true,
    };
    proof {
        reveal(Seq::filter);
        assert(ours@.take(0).filter(keep) =~= Seq::empty());
    }
    while i < ours.len()
        invariant
            i <= ours@.len(),
            match theirs {
                Some(t) => keep == (|m: u64| t@.contains(m)) && r@ == ours@.take(i as int).filter(
                    keep,
                ),
                None => r@ == ours@.take(i as int),
            },
        decreases ours@.len() - i,
    {
        proof {
            reveal(Seq::filter);
            assert(ours@.take(i + 1).drop_last() =~= ours@.take(i as int));
            assert(ours@.take(i + 1) =~= ours@.take(i as int).push(ours@[i as int]));
        }
        let m: u64 = ours[i];
        let kept: bool = match theirs {
            Some(t) => holds(t, m),
            None => true,
        };
        if kept {
            r.push(m);
        }
        i = i + 1;
    }
    assert(ours@.take(i as int) =~= ours@);
    r
}

fn layouts_in_common(
    advertised: &Vec<FormatModifiers>,
    consumer: Option<&Vec<FormatModifiers>>,
    f: Fourcc,
) -> (r: Vec<u64>)
    ensures
        r@ == common_layouts(
            advertised@,
            match consumer {
                Some(c) => Some(c@),
                None => None,
            },
            f,
        ),
{
    let code: u32 = f.code();
    match position_of(advertised, code) {
        Some(i) => match consumer {
            Some(c) => match position_of(c, code) {
                Some(j) => in_common(&advertised[i].modifiers, Some(&c[j].modifiers)),
                None => Vec::new(),
            },
            None => in_common(&advertised[i].modifiers, None),
        },
        None => Vec::new(),
    }
}

fn codes_of(formats: &Vec<FormatModifiers>) -> (v: Vec<u32>)
    ensures
        v@ == codes(formats@),
{
    let mut v: Vec<u32> = Vec::new();
    let mut i: usize = 0;
    while i < formats.len()
        invariant
            i <= formats@.len(),
            v@ == codes(formats@).take(i as int),
        decreases formats@.len() - i,
    {
        v.push(formats[i].fourcc);
        assert(codes(formats@).take(i + 1) =~= codes(formats@).take(i as int).push(
            codes(formats@)[i as int],
        ));
        i = i + 1;
    }
    assert(codes(formats@).take(i as int) =~= codes(formats@));
    v
}

/// Picks the format to capture into and the layouts to choose from, out of what
/// the compositor writes and, where it is known, what the encoder reads.
pub fn pick_format(
    advertised: &Vec<FormatModifiers>,
    consumer: Option<&Vec<FormatModifiers>>,
) -> (r: Result<(Fourcc, Vec<u64>), NoFormat>)
    ensures
        ({
            let c = match consumer {
                Some(c) => Some(c@),
                None => None,
            };
            match r {
                Ok((f, m)) => picked(advertised@, c) == Some((f, m@)),
                Err(e) => picked(advertised@, c) is None && e.compositor@ == codes(advertised@)
                    && (match consumer {
                    Some(c) => e.consumer is Some && e.consumer->0@ == codes(c@),
                    None => e.consumer is None,
                }),
            }
        }),
{
    let argb = layouts_in_common(advertised, consumer, Fourcc::Argb8888);
    if argb.len() > 0 {
        return Ok((Fourcc::Argb8888, argb));
    }
    let xrgb = layouts_in_common(advertised, consumer, Fourcc::Xrgb8888);
    if xrgb.len() > 0 {
        return Ok((Fourcc::Xrgb8888, xrgb));
    }
    Err(
        NoFormat {
            compositor: codes_of(advertised),
            consumer: match consumer {
                Some(c) => Some(codes_of(c)),
                None => None,
            },
        },
    )
}

/// Every layout that is picked is one that the compositor writes and, where the
/// encoder is asked, one that it reads.
pub proof fn picked_layouts_suit_both(
    advertised: Seq<FormatModifiers>,
    consumer: Option<Seq<FormatModifiers>>,
    m: u64,
)
    requires
        picked(advertised, consumer) is Some,
        (picked(advertised, consumer)->0).1.contains(m),
    ensures
        ({
            let code = fourcc_code((picked(advertised, consumer)->0).0);
            &&& layouts_of(advertised, code) is Some && layouts_of(advertised, code)->0.contains(m)
            &&& consumer is Some ==> layouts_of(consumer->0, code) is Some && layouts_of(
                consumer->0,
                code,
            )->0.contains(m)
        }),
{
    let code = fourcc_code((picked(advertised, consumer)->0).0);
    let ours = layouts_of(advertised, code)->0;
    if consumer is Some {
        let theirs = layouts_of(consumer->0, code)->0;
        let keep = |x: u64| theirs.contains(x);
        broadcast use vstd::seq_lib::group_filter_ensures;
        assert(ours.filter(keep).contains(m));
        let i = choose|i: int| 0 <= i < ours.filter(keep).len() && ours.filter(keep)[i] == m;
        assert(keep(ours.filter(keep)[i]));
        ours.lemma_filter_contains_rev(keep, m);
    }
}

/// A format with one of its layouts.
#[derive(Clone, Copy, Debug, PartialEq, Eq, Structural)]
pub struct DrmFormat {
    pub fourcc: u32,
    pub modifier: u64,
}

/// The layouts listed for a format, in the list's order.
pub open spec fn listed(entries: Seq<DrmFormat>, code: u32) -> Seq<u64>
    decreases entries.len(),
{
    if entries.len() == 0 {
        Seq::empty()
    } else {
        let before = listed(entries.drop_last(), code);
        if entries.last().fourcc == code {
            before.push(entries.last().modifier)
        } else {
            before
        }
    }
}

/// A table of formats has one row for each format, with the layouts that a list
/// has.
pub open spec fn tabulates(formats: Seq<FormatModifiers>, entries: Seq<DrmFormat>) -> bool {
    &&& forall|i: int, j: int|
        0 <= i < j < formats.len() ==> (#[trigger] formats[i]).fourcc != (
        #[trigger] formats[j]).fourcc
    &&& forall|code: u32|
        (match #[trigger] layouts_of(formats, code) {
            Some(l) => l == listed(entries, code) && l.len() > 0,
            None => listed(entries, code).len() == 0,
        })
}

proof fn lemma_layouts_push(formats: Seq<FormatModifiers>, f: FormatModifiers, code: u32)
    ensures
        layouts_of(formats.push(f), code) == (if layouts_of(formats, code) is Some {
            layouts_of(formats, code)
        } else if f.fourcc == code {
            Some(f.modifiers@)
        } else {
            None
        }),
    decreases formats.len(),
{
    if formats.len() == 0 {
        assert(formats.push(f).drop_first() =~= formats);
    } else {
        assert(formats.push(f).drop_first() =~= formats.drop_first().push(f));
        lemma_layouts_push(formats.drop_first(), f, code);
    }
}

proof fn lemma_layouts_update(
    formats: Seq<FormatModifiers>,
    i: int,
    f: FormatModifiers,
    code: u32,
)
    requires
        0 <= i < formats.len(),
        formats[i].fourcc == f.fourcc,
        forall|j: int| 0 <= j < i ==> (#[trigger] formats[j]).fourcc != f.fourcc,
    ensures
        layouts_of(formats.update(i, f), code) == (if f.fourcc == code {
            Some(f.modifiers@)
        } else {
            layouts_of(formats, code)
        }),
    decreases formats.len(),
{
    let u = formats.update(i, f);
    if i == 0 {
        assert(u.drop_first() =~= formats.drop_first());
    } else {
        assert(u.drop_first() =~= formats.drop_first().update(i - 1, f));
        assert forall|j: int| 0 <= j < i - 1 implies (#[trigger] formats.drop_first()[j]).fourcc
            != f.fourcc by {
            assert(formats[j + 1].fourcc != f.fourcc);
        }
        assert(formats[0].fourcc != f.fourcc);
        lemma_layouts_update(formats.drop_first(), i - 1, f, code);
    }
}

/// Puts a list of formats, each with one layout, into a table with all layouts
/// of each format.
pub fn group_formats(entries: &Vec<DrmFormat>) -> (formats: Vec<FormatModifiers>)
    ensures
        tabulates(formats@, entries@),
{
    let mut formats: Vec<FormatModifiers> = Vec::new();
    let mut i: usize = 0;
    while i < entries.len()
        invariant
            i <= entries@.len(),
            tabulates(formats@, entries@.take(i as int)),
        decreases entries@.len() - i,
    {
        let e = entries[i];
        let ghost was = formats@;
        assert(entries@.take(i + 1).drop_last() =~= entries@.take(i as int));
        match position_of(&formats, e.fourcc) {
            Some(at) => {
                let mut modifiers: Vec<u64> = Vec::new();
                let mut k: usize = 0;
                while k < formats[at].modifiers.len()
                    invariant
                        at < formats@.len(),
                        formats@ == was,
                        k <= formats@[at as int].modifiers@.len(),
                        modifiers@ == formats@[at as int].modifiers@.take(k as int),
                    decreases formats@[at as int].modifiers@.len() - k,
                {
                    modifiers.push(formats[at].modifiers[k]);
                    k = k + 1;
                    assert(modifiers@ =~= formats@[at as int].modifiers@.take(k as int));
                }
                assert(modifiers@ =~= was[at as int].modifiers@);
                modifiers.push(e.modifier);
                let f = FormatModifiers { fourcc: e.fourcc, modifiers };
                proof {
                    assert forall|code: u32|
                        (match #[trigger] layouts_of(was.update(at as int, f), code) {
                            Some(l) => l == listed(entries@.take(i + 1), code) && l.len() > 0,
                            None => listed(entries@.take(i + 1), code).len() == 0,
                        }) by {
                        lemma_layouts_update(was, at as int, f, code);
                        let before = layouts_of(was, code);
                    }
                }
                formats.set(at, f);
            },
            None => {
                let mut modifiers: Vec<u64> = Vec::new();
                modifiers.push(e.modifier);
                let f = FormatModifiers { fourcc: e.fourcc, modifiers };
                proof {
                    assert forall|code: u32|
                        (match #[trigger] layouts_of(was.push(f), code) {
                            Some(l) => l == listed(entries@.take(i + 1), code) && l.len() > 0,
                            None => listed(entries@.take(i + 1), code).len() == 0,
                        }) by {
                        lemma_layouts_push(was, f, code);
                        let before = layouts_of(was, code);
                        if code == e.fourcc {
                            assert(listed(entries@.take(i as int), code) =~= Seq::empty());
                        }
                    }
                }
                formats.push(f);
            },
        }
        i = i + 1;
    }
    assert(entries@.take(i as int) =~= entries@);
    formats
}

/// The two halves of a layout's number, the higher first.
pub fn split_modifier(m: u64) -> (r: (u32, u32))
    ensures
        r.0 == m / 0x1_0000_0000,
        r.1 == m % 0x1_0000_0000,
{
    ((m / 0x1_0000_0000) as u32, (m % 0x1_0000_0000) as u32)
}

/// What a plane's file is: its number and its device.
#[derive(Clone, Copy, Debug, PartialEq, Eq, Structural)]
pub struct PlaneFile {
    pub inode: u64,
    pub device: u64,
}

/// Whether all planes lie in one file.
pub open spec fn one_file(planes: Seq<PlaneFile>) -> bool {
    forall|i: int| 0 <= i < planes.len() ==> #[trigger] planes[i] == planes[0]
}

/// How many of the planes' files have to be handed on: the first alone where
/// all are the same file.
pub fn files_to_map(planes: &Vec<PlaneFile>) -> (n: usize)
    requires
        planes@.len() > 0,
    ensures
        n == (if one_file(planes@) {
            1
        } else {
            planes@.len()
        }),
{
    let mut i: usize = 0;
    while i < planes.len()
        invariant
            planes@.len() > 0,
            i <= planes@.len(),
            forall|j: int| 0 <= j < i ==> #[trigger] planes@[j] == planes@[0],
        decreases planes@.len() - i,
    {
        if planes[i].inode != planes[0].inode || planes[i].device != planes[0].device {
            assert(planes@[i as int] != planes@[0]);
            return planes.len();
        }
        i = i + 1;
    }
    1
}

/// A graphics device node.
pub struct DriNode {
    pub path: String,
    pub rdev: u64,
}

/// The first node with a device's number.
pub open spec fn node_for(nodes: Seq<DriNode>, dev: u64) -> Option<int>
    decreases nodes.len(),
{
    if nodes.len() == 0 {
        None
    } else {
        match node_for(nodes.drop_last(), dev) {
            Some(i) => Some(i),
            None => if nodes.last().rdev == dev {
                Some(nodes.len() - 1)
            } else {
                None
            },
        }
    }
}

proof fn lemma_node_prefix(nodes: Seq<DriNode>, dev: u64, n: int)
    requires
        0 <= n <= nodes.len(),
        node_for(nodes.take(n), dev) is Some,
    ensures
        node_for(nodes, dev) == node_for(nodes.take(n), dev),
    decreases nodes.len(),
{
    if n < nodes.len() {
        assert(nodes.drop_last().take(n) =~= nodes.take(n));
        lemma_node_prefix(nodes.drop_last(), dev, n);
    } else {
        assert(nodes.take(n) =~= nodes);
    }
}

/// What is said where no node has a device's number.
pub open spec fn no_node_text(dev: u64) -> Seq<char> {
    "no /dev/dri/* node matches rdev "@ + text::prefixed_hex(dev as nat)
}

/// The first node with a device's number.
pub fn find_node(nodes: &Vec<DriNode>, dev: u64) -> (r: Result<usize, String>)
    ensures
        match r {
            Ok(i) => i < nodes@.len() && node_for(nodes@, dev) == Some(i as int),
            Err(e) => node_for(nodes@, dev) is None && e@ == no_node_text(dev),
        },
{
    let mut i: usize = 0;
    while i < nodes.len()
        invariant
            i <= nodes@.len(),
            node_for(nodes@.take(i as int), dev) is None,
        decreases nodes@.len() - i,
    {
        assert(nodes@.take(i + 1).drop_last() =~= nodes@.take(i as int));
        if nodes[i].rdev == dev {
            proof {
                lemma_node_prefix(nodes@, dev, i + 1);
            }
            return Ok(i);
        }
        i = i + 1;
    }
    assert(nodes@.take(i as int) =~= nodes@);
    let mut s = text::owned("no /dev/dri/* node matches rdev ");
    text::push_hex(&mut s, dev);
    Err(s)
}

/// The devices that were opened, each once, in the order of their opening.
pub struct GbmRegistry {
    pub opened: Vec<u64>,
}

impl GbmRegistry {
    /// No device is in it twice.
    pub open spec fn wf(self) -> bool {
        forall|i: int, j: int|
            0 <= i < j < self.opened@.len() ==> self.opened@[i] != self.opened@[j]
    }

    pub fn new() -> (r: GbmRegistry)
        ensures
            r.wf(),
            r.opened@.len() == 0,
    {
        GbmRegistry { opened: Vec::new() }
    }

    /// The place of a device that is open.
    pub fn find(&self, dev: u64) -> (r: Option<usize>)
        ensures
            match r {
                Some(i) => i < self.opened@.len() && self.opened@[i as int] == dev,
                None => !self.opened@.contains(dev),
            },
    {
        let mut i: usize = 0;
        while i < self.opened.len()
            invariant
                i <= self.opened@.len(),
                forall|j: int| 0 <= j < i ==> self.opened@[j] != dev,
            decreases self.opened@.len() - i,
        {
            if self.opened[i] == dev {
                return Some(i);
            }
            i = i + 1;
        }
        None
    }

    /// Notes that a device was opened, unless it is known, and gives its place.
    pub fn note_opened(&mut self, dev: u64) -> (i: usize)
        requires
            old(self).wf(),
        ensures
            final(self).wf(),
            i < final(self).opened@.len(),
            final(self).opened@[i as int] == dev,
            final(self).opened@ == (if old(self).opened@.contains(dev) {
                old(self).opened@
            } else {
                old(self).opened@.push(dev)
            }),
    {
        match self.find(dev) {
            Some(i) => {
                assert(self.opened@[i as int] == dev);
                i
            },
            None => {
                let i: usize = self.opened.len();
                self.opened.push(dev);
                i
            },
        }
    }
}

/// The layouts of a format are those listed for it first.
pub proof fn layouts_are_those_of_their_format(formats: Seq<FormatModifiers>, code: u32, i: int)
    requires
        0 <= i <= formats.len(),
        forall|j: int| 0 <= j < i ==> !((#[trigger] formats[j]).fourcc == code),
        i < formats.len() ==> formats[i].fourcc == code,
    ensures
        i < formats.len() ==> layouts_of(formats, code) == Some(formats[i].modifiers@),
        i == formats.len() ==> layouts_of(formats, code) is None,
    decreases formats.len(),
{
    if i > 0 {
        assert(!(formats[0].fourcc == code));
        let rest = formats.drop_first();
        assert forall|j: int| 0 <= j < i - 1 implies !((#[trigger] rest[j]).fourcc == code) by {
            assert(!(formats[j + 1].fourcc == code));
        }
        layouts_are_those_of_their_format(rest, code, i - 1);
    }
}

/// A buffer has a format whenever both sides can do one in a common layout, with an alpha
/// channel whenever they can do that, and all the common layouts are handed on.
pub proof fn a_common_format_is_found(
    advertised: Seq<FormatModifiers>,
    consumer: Option<Seq<FormatModifiers>>,
    f: Fourcc,
    m: u64,
)
    requires
        layouts_of(advertised, fourcc_code(f)) matches Some(ours) && ours.contains(m),
        consumer matches Some(c) ==> (layouts_of(c, fourcc_code(f)) matches Some(theirs)
            && theirs.contains(m)),
    ensures
        picked(advertised, consumer) is Some,
        f == Fourcc::Argb8888 ==> (picked(advertised, consumer)->0).0 == Fourcc::Argb8888,
        (picked(advertised, consumer)->0).0 == f ==> (picked(advertised, consumer)->0).1.contains(m),
{
    let ours = layouts_of(advertised, fourcc_code(f))->0;
    if let Some(c) = consumer {
        let theirs = layouts_of(c, fourcc_code(f))->0;
        let keep = |x: u64| theirs.contains(x);
        let i = choose|i: int| 0 <= i < ours.len() && ours[i] == m;
        ours.lemma_filter_contains(keep, i);
        assert(common_layouts(advertised, consumer, f).contains(m));
    } else {
        assert(common_layouts(advertised, consumer, f).contains(m));
    }
    assert(common_layouts(advertised, consumer, f).len() > 0);
}

/// The device that is found has the number asked for, and is the first that has it.
pub proof fn the_device_found_is_the_one_asked_for(nodes: Seq<DriNode>, dev: u64)
    ensures
        match node_for(nodes, dev) {
            Some(i) => 0 <= i < nodes.len() && nodes[i].rdev == dev && forall|j: int|
                0 <= j < i ==> (#[trigger] nodes[j]).rdev != dev,
            None => forall|j: int| 0 <= j < nodes.len() ==> (#[trigger] nodes[j]).rdev != dev,
        },
    decreases nodes.len(),
{
    if nodes.len() > 0 {
        let init = nodes.drop_last();
        the_device_found_is_the_one_asked_for(init, dev);
        assert forall|j: int| 0 <= j < init.len() implies #[trigger] nodes[j] == init[j] by {}
    }
}

} // verus!
