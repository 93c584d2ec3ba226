//! The wallpapers behind the window picker: which files to decode for which
//! outputs, and how large.
use crate::gui::outputs::{BgSource, OutputInfo};
use crate::scale::Ratio;
use crate::text;
use vstd::prelude::*;

verus! {

/// One image file to decode, and the outputs that want it, each with its pixels.
pub struct WallpaperJob {
    pub path: String,
    pub targets: Vec<(u32, (u32, u32))>,
}

/// A job as a mathematical value.
#[verifier::ext_equal]
pub struct JobModel {
    pub path: Seq<char>,
    pub targets: Seq<(u32, (u32, u32))>,
}

impl View for WallpaperJob {
    type V = JobModel;

    open spec fn view(&self) -> JobModel {
        JobModel { path: self.path@, targets: self.targets@ }
    }
}

/// The jobs as mathematical values.
pub open spec fn job_models(jobs: Seq<WallpaperJob>) -> Seq<JobModel> {
    jobs.map_values(|j: WallpaperJob| j@)
}

/// The file that still has to be decoded for an output, if any.
pub open spec fn wanted_path(o: OutputInfo) -> Option<Seq<char>> {
    match o.bg_source {
        Some(BgSource::Path(p)) => if o.wallpaper_ready {
            None
        } else {
            Some(p@)
        },
        _ => None,
    }
}

/// The first job for a file.
pub open spec fn job_for(jobs: Seq<JobModel>, path: Seq<char>) -> Option<int>
    decreases jobs.len(),
{
    if jobs.len() == 0 {
        None
    } else {
        match job_for(jobs.drop_last(), path) {
            Some(i) => Some(i),
            None => if jobs.last().path == path {
                Some(jobs.len() - 1)
            } else {
                None
            },
        }
    }
}

/// The jobs with one more target for a file.
pub open spec fn with_target(
    jobs: Seq<JobModel>,
    path: Seq<char>,
    target: (u32, (u32, u32)),
) -> Seq<JobModel> {
    match job_for(jobs, path) {
        Some(i) => jobs.update(
            i,
            JobModel { path: jobs[i].path, targets: jobs[i].targets.push(target) },
        ),
        None => jobs.push(JobModel { path, targets: seq![target] }),
    }
}

/// What to decode for the outputs: one job for each file, in the order in which
/// the outputs name them.
pub open spec fn jobs_of(outputs: Seq<OutputInfo>) -> Seq<JobModel>
    decreases outputs.len(),
{
    if outputs.len() == 0 {
        Seq::empty()
    } else {
        let before = jobs_of(outputs.drop_last());
        let o = outputs.last();
        match wanted_path(o) {
            Some(p) => with_target(before, p, (o.key, o.physical_size)),
            None => before,
        }
    }
}

proof fn lemma_job_prefix(jobs: Seq<JobModel>, path: Seq<char>, n: int)
    requires
        0 <= n <= jobs.len(),
        job_for(jobs.take(n), path) is Some,
    ensures
        job_for(jobs, path) == job_for(jobs.take(n), path),
    decreases jobs.len(),
{
    if n < jobs.len() {
        assert(jobs.drop_last().take(n) =~= jobs.take(n));
        lemma_job_prefix(jobs.drop_last(), path, n);
    } else {
        assert(jobs.take(n) =~= jobs);
    }
}

proof fn lemma_job_for(jobs: Seq<JobModel>, path: Seq<char>)
    ensures
        match job_for(jobs, path) {
            Some(i) => 0 <= i < jobs.len() && jobs[i].path == path,
            None => forall|j: int| 0 <= j < jobs.len() ==> (#[trigger] jobs[j]).path != path,
        },
    decreases jobs.len(),
{
    if jobs.len() > 0 {
        let init = jobs.drop_last();
        lemma_job_for(init, path);
        assert forall|j: int| 0 <= j < init.len() implies #[trigger] jobs[j] == init[j] by {}
    }
}

fn add_target(jobs: &mut Vec<WallpaperJob>, path: &String, target: (u32, (u32, u32)))
    ensures
        job_models(final(jobs)@) == with_target(job_models(old(jobs)@), path@, target),
{
    let ghost before = job_models(jobs@);
    let mut i: usize = 0;
    while i < jobs.len()
        invariant
            i <= jobs@.len(),
            *jobs == *old(jobs),
            before == job_models(jobs@),
            job_for(before.take(i as int), path@) is None,
        decreases jobs@.len() - i,
    {
        assert(before.take(i + 1).drop_last() =~= before.take(i as int));
        if jobs[i].path == *path {
            proof {
                lemma_job_prefix(before, path@, i + 1);
            }
            jobs[i].targets.push(target);
            assert(job_models(jobs@) =~= with_target(before, path@, target));
            return;
        }
        i = i + 1;
    }
    assert(before.take(i as int) =~= before);
    let mut targets: Vec<(u32, (u32, u32))> = Vec::new();
    targets.push(target);
    assert(targets@ =~= seq![target]);
    jobs.push(WallpaperJob { path: path.clone(), targets });
    assert(job_models(jobs@) =~= with_target(before, path@, target));
}

/// What to decode for the outputs from place `from` up to place `to`.
pub fn wallpaper_jobs(outputs: &Vec<OutputInfo>, from: usize, to: usize) -> (jobs: Vec<
    WallpaperJob,
>)
    requires
        from <= to <= outputs@.len(),
    ensures
        job_models(jobs@) == jobs_of(outputs@.subrange(from as int, to as int)),
{
    let mut jobs: Vec<WallpaperJob> = Vec::new();
    let ghost part = outputs@.subrange(from as int, to as int);
    assert(job_models(jobs@) =~= jobs_of(part.take(0)));
    let mut i: usize = from;
    while i < to
        invariant
            from <= i <= to <= outputs@.len(),
            part == outputs@.subrange(from as int, to as int),
            job_models(jobs@) == jobs_of(part.take(i - from)),
        decreases to - i,
    {
        let o = &outputs[i];
        assert(part.take(i + 1 - from).drop_last() =~= part.take(i - from));
        assert(part.take(i + 1 - from).last() == outputs@[i as int]);
        if !o.wallpaper_ready {
            if let Some(BgSource::Path(path)) = &o.bg_source {
                add_target(&mut jobs, path, (o.key, o.physical_size));
            }
        }
        i = i + 1;
    }
    assert(part.take(i - from) =~= part);
    jobs
}

/// Outputs that show the same file share one decode: no two jobs are for the
/// same file.
pub proof fn no_file_is_decoded_twice(outputs: Seq<OutputInfo>, i: int, j: int)
    requires
        0 <= i < j < jobs_of(outputs).len(),
    ensures
        jobs_of(outputs)[i].path != jobs_of(outputs)[j].path,
    decreases outputs.len(),
{
    let init = outputs.drop_last();
    let before = jobs_of(init);
    if wanted_path(outputs.last()) is Some {
        lemma_job_for(before, wanted_path(outputs.last())->0);
    }
    if j < before.len() {
        no_file_is_decoded_twice(init, i, j);
    }
}

/// Every output that waits for its wallpaper is a target of a job for its file.
pub proof fn every_wanted_file_is_decoded(outputs: Seq<OutputInfo>, i: int)
    requires
        0 <= i < outputs.len(),
        wanted_path(outputs[i]) is Some,
    ensures
        exists|j: int|
            0 <= j < jobs_of(outputs).len() && (#[trigger] jobs_of(outputs)[j]).path == wanted_path(
                outputs[i],
            )->0 && jobs_of(outputs)[j].targets.contains(
                (outputs[i].key, outputs[i].physical_size),
            ),
    decreases outputs.len(),
{
    let init = outputs.drop_last();
    let before = jobs_of(init);
    let after = jobs_of(outputs);
    let o = outputs.last();
    let target = (outputs[i].key, outputs[i].physical_size);
    if wanted_path(o) is Some {
        lemma_job_for(before, wanted_path(o)->0);
    }
    if i == outputs.len() - 1 {
        let at = match job_for(before, wanted_path(o)->0) {
            Some(k) => k,
            None => before.len() as int,
        };
        let n = after[at].targets.len() - 1;
        assert(after[at].targets[n] == target);
        assert(after[at].path == wanted_path(o)->0);
    } else {
        every_wanted_file_is_decoded(init, i);
        let k = choose|j: int|
            0 <= j < before.len() && (#[trigger] before[j]).path == wanted_path(outputs[i])->0
                && before[j].targets.contains(target);
        let t = choose|t: int| 0 <= t < before[k].targets.len() && before[k].targets[t] == target;
        assert(after[k].targets[t] == target);
        assert(after[k].path == wanted_path(outputs[i])->0);
    }
}

/// The file that is shown where the desktop names none for an output.
pub const DEFAULT_WALLPAPER: &'static str =
    "/usr/share/backgrounds/cosmic/orion_nebula_nasa_heic0601a.jpg";

/// A wallpaper of the desktop's list.
pub struct NamedWallpaper {
    pub output: String,
    pub source: BgSource,
}

/// The first entry for an output.
pub open spec fn entry_for(list: Seq<NamedWallpaper>, name: Seq<char>) -> Option<BgSource>
    decreases list.len(),
{
    if list.len() == 0 {
        None
    } else if list[0].output@ == name {
        Some(list[0].source)
    } else {
        entry_for(list.drop_first(), name)
    }
}

fn same_source(s: &BgSource) -> (r: BgSource)
    ensures
        r == *s,
{
    match s {
        BgSource::Path(p) => BgSource::Path(p.clone()),
        BgSource::Color => BgSource::Color,
    }
}

/// The wallpaper of an output: the first that the desktop's list has for it, else
/// the default one. `None` where the desktop keeps no list.
pub fn bg_for_output(list: Option<&Vec<NamedWallpaper>>, name: &str) -> (r: Option<BgSource>)
    ensures
        match list {
            Some(l) => match entry_for(l@, name@) {
                Some(s) => r == Some(s),
                None => r matches Some(BgSource::Path(p)) && p@ == DEFAULT_WALLPAPER@,
            },
            None => r is None,
        },
{
    let entries = match list {
        Some(l) => l,
        None => {
            return None;
        },
    };
    let mut i: usize = 0;
    assert(entries@.skip(0) =~= entries@);
    while i < entries.len()
        invariant
            list == Some(entries),
            i <= entries@.len(),
            entry_for(entries@, name@) == entry_for(entries@.skip(i as int), name@),
        decreases entries@.len() - i,
    {
        if text::same(entries[i].output.as_str(), name) {
            return Some(same_source(&entries[i].source));
        }
        assert(entries@.skip(i as int).drop_first() =~= entries@.skip(i + 1));
        i = i + 1;
    }
    Some(BgSource::Path(text::owned(DEFAULT_WALLPAPER)))
}

/// `v` brought into `[1, 2^32)`.
pub open spec fn pixel_count(v: int) -> u32 {
    if v < 1 {
        1
    } else if v > u32::MAX {
        u32::MAX
    } else {
        v as u32
    }
}

/// The size that an image of `iw` by `ih` pixels is scaled to so that it covers
/// an output, both extents by the larger of the two factors. `None` where it
/// stays as it is: the output has no pixels, or the image is no larger.
pub open spec fn cover(iw: u32, ih: u32, target: (u32, u32)) -> Option<(u32, u32)> {
    let (tw, th) = target;
    if tw > 0 && th > 0 && (iw > tw || ih > th) {
        let s = Ratio::of_quotient(tw as nat, iw as nat).larger(
            Ratio::of_quotient(th as nat, ih as nat),
        );
        Some((pixel_count(s.apply(iw as int)), pixel_count(s.apply(ih as int))))
    } else {
        None
    }
}

fn count_pixels(v: i128) -> (n: u32)
    ensures
        n == pixel_count(v as int),
{
    if v < 1 {
        1
    } else if v > 0xffff_ffff {
        u32::MAX
    } else {
        v as u32
    }
}

/// The size that an image is scaled to so that it covers an output.
pub fn cover_size(iw: u32, ih: u32, target: (u32, u32)) -> (r: Option<(u32, u32)>)
    requires
        iw > 0,
        ih > 0,
    ensures
        r == cover(iw, ih, target),
{
    let (tw, th) = target;
    if tw > 0 && th > 0 && (iw > tw || ih > th) {
        let s = Ratio::new(tw, iw).max(Ratio::new(th, ih));
        Some((count_pixels(s.scale(iw as i64)), count_pixels(s.scale(ih as i64))))
    } else {
        None
    }
}

/// A scaled wallpaper covers its output: neither extent is smaller than the
/// output's.
pub proof fn covers_the_output(iw: u32, ih: u32, target: (u32, u32))
    requires
        iw > 0,
        ih > 0,
        cover(iw, ih, target) is Some,
    ensures
        target.0 <= (cover(iw, ih, target)->0).0,
        target.1 <= (cover(iw, ih, target)->0).1,
{
    let (tw, th) = target;
    let sx = Ratio::of_quotient(tw as nat, iw as nat);
    let sy = Ratio::of_quotient(th as nat, ih as nat);
    crate::scale::lemma_apply_whole(tw as nat, iw as nat);
    crate::scale::lemma_apply_whole(th as nat, ih as nat);
    crate::scale::lemma_le_total(sx, sy);
    crate::scale::lemma_quotient(tw as nat, iw as nat);
    crate::scale::lemma_quotient(th as nat, ih as nat);
    crate::scale::lemma_apply_larger(sx, sx.larger(sy), iw as nat);
    crate::scale::lemma_apply_larger(sy, sx.larger(sy), ih as nat);
}

/// A wallpaper is scaled where it is larger than its output along an axis, and only
/// there. It is as large as its output along one axis, so no larger than it has to be;
/// one that was larger along both keeps its proportions, to the nearest pixel.
pub proof fn a_wallpaper_is_no_larger_than_its_output_asks(iw: u32, ih: u32, target: (u32, u32))
    requires
        iw > 0,
        ih > 0,
    ensures
        cover(iw, ih, target) is Some <==> target.0 > 0 && target.1 > 0 && (iw > target.0 || ih
            > target.1),
        cover(iw, ih, target) matches Some((w, h)) ==> {
            &&& w == target.0 || h == target.1
            &&& target.0 <= iw && target.1 <= ih ==> {
                ||| w == target.0 && 4 * (h * iw - ih * w) <= 3 * iw && 4 * (ih * w - h * iw) <= 3
                    * iw
                ||| h == target.1 && 4 * (w * ih - iw * h) <= 3 * ih && 4 * (iw * h - w * ih) <= 3
                    * ih
            }
        },
{
    let (tw, th) = target;
    if cover(iw, ih, target) is Some {
        covers_the_output(iw, ih, target);
        let sx = Ratio::of_quotient(tw as nat, iw as nat);
        let sy = Ratio::of_quotient(th as nat, ih as nat);
        crate::scale::lemma_apply_whole(tw as nat, iw as nat);
        crate::scale::lemma_apply_whole(th as nat, ih as nat);
        if tw <= iw && th <= ih {
            crate::scale::coordinates_scale_to_the_nearest_pixel(tw as nat, iw as nat, ih as nat);
            crate::scale::coordinates_scale_to_the_nearest_pixel(th as nat, ih as nat, iw as nat);
            let a = sx.apply(ih as int);
            let b = sy.apply(iw as int);
            lemma_no_more(a, tw as int, iw as int, ih as int);
            lemma_no_more(b, th as int, ih as int, iw as int);
            crate::scale::lemma_le_total(sx, sy);
            crate::scale::lemma_quotient(tw as nat, iw as nat);
            crate::scale::lemma_quotient(th as nat, ih as nat);
            let (w, h) = cover(iw, ih, target)->0;
            if sy.le(sx) {
                crate::scale::lemma_apply_larger(sy, sx, ih as nat);
                assert(w == tw && h == a);
            } else {
                crate::scale::lemma_apply_larger(sx, sy, iw as nat);
                assert(h == th && w == b);
            }
        }
    }
}

proof fn lemma_no_more(a: int, p: int, l: int, v: int)
    requires
        4 * (a * l - v * p) <= 3 * l,
        0 < p <= l,
        0 <= v,
    ensures
        a <= v,
{
    if a >= v + 1 {
        assert(false) by (nonlinear_arith)
            requires
                4 * (a * l - v * p) <= 3 * l,
                a >= v + 1,
                0 < p <= l,
                0 <= v,
        ;
    }
}

/// Of the desktop's list, the first entry for an output counts.
pub proof fn the_first_wallpaper_counts(list: Seq<NamedWallpaper>, name: Seq<char>, i: int)
    requires
        0 <= i < list.len(),
        list[i].output@ == name,
        forall|j: int| 0 <= j < i ==> (#[trigger] list[j]).output@ != name,
    ensures
        entry_for(list, name) == Some(list[i].source),
    decreases list.len(),
{
    if i > 0 {
        let rest = list.drop_first();
        assert(list[0].output@ != name);
        assert(rest[i - 1] == list[i]);
        assert forall|j: int| 0 <= j < i - 1 implies (#[trigger] rest[j]).output@ != name by {
            assert(rest[j] == list[j + 1]);
        }
        the_first_wallpaper_counts(rest, name, i - 1);
    }
}

/// An output that the desktop's list does not name has no entry.
pub proof fn an_unnamed_output_has_no_wallpaper(list: Seq<NamedWallpaper>, name: Seq<char>)
    requires
        forall|j: int| 0 <= j < list.len() ==> (#[trigger] list[j]).output@ != name,
    ensures
        entry_for(list, name) is None,
    decreases list.len(),
{
    if list.len() > 0 {
        let rest = list.drop_first();
        assert(list[0].output@ != name);
        assert forall|j: int| 0 <= j < rest.len() implies (#[trigger] rest[j]).output@ != name by {
            assert(rest[j] == list[j + 1]);
        }
        an_unnamed_output_has_no_wallpaper(rest, name);
    }
}

/// A job's targets are outputs that wait for its file, each with its own pixels.
pub proof fn only_wanted_files_are_decoded(outputs: Seq<OutputInfo>, j: int, t: int)
    requires
        0 <= j < jobs_of(outputs).len(),
        0 <= t < jobs_of(outputs)[j].targets.len(),
    ensures
        exists|i: int|
            0 <= i < outputs.len() && wanted_path(#[trigger] outputs[i]) == Some(
                jobs_of(outputs)[j].path,
            ) && jobs_of(outputs)[j].targets[t] == (outputs[i].key, outputs[i].physical_size),
    decreases outputs.len(),
{
    if outputs.len() > 0 {
        let init = outputs.drop_last();
        let before = jobs_of(init);
        let after = jobs_of(outputs);
        let o = outputs.last();
        if wanted_path(o) is Some {
            lemma_job_for(before, wanted_path(o)->0);
        }
        if j < before.len() && t < before[j].targets.len() {
            only_wanted_files_are_decoded(init, j, t);
            let i = choose|i: int|
                0 <= i < init.len() && wanted_path(#[trigger] init[i]) == Some(before[j].path)
                    && before[j].targets[t] == (init[i].key, init[i].physical_size);
            assert(outputs[i] == init[i]);
            assert(after[j].path == before[j].path);
            assert(after[j].targets[t] == before[j].targets[t]);
        } else {
            assert(o == outputs[outputs.len() - 1]);
            assert(after[j].path == wanted_path(o)->0);
            assert(after[j].targets[t] == (o.key, o.physical_size));
        }
    }
}

/// The most pixels of a side that one of `out` output pixels averages: the filter
/// finds its edges in binary32, so a share that is no whole number of pixels is
/// rounded up, past what 24 bits tell apart by more than to the next pixel.
pub open spec fn share(side: u32, out: u32) -> int {
    let whole = side as int / out as int;
    let most = if side < 0x100_0000 && side % out == 0 {
        whole
    } else if side * (out + 4) <= 0x100_0000 {
        whole + 1
    } else if side < 0x100_0000 {
        whole + 2
    } else {
        whole + 4 * (side as int / 0x100_0000 + 1)
    };
    if most < side {
        most
    } else {
        side as int
    }
}

/// The box filter can average every output pixel's share of the image: what it
/// sums of a channel, and half the number of pixels for rounding, are below 32
/// bits, and the scaled image can be held.
pub open spec fn averages(iw: u32, ih: u32, w: u32, h: u32) -> bool {
    let count = share(iw, w) * share(ih, h);
    &&& 0 < iw && 0 < ih && 0 < w && 0 < h
    &&& 255 * count + count / 2 <= u32::MAX
    &&& w * 4 * h <= isize::MAX
}

/// The pixels of an image scaled down by a box filter.
pub uninterp spec fn thumbnail_of(rgba: Seq<u8>, iw: u32, ih: u32, w: u32, h: u32) -> Seq<u8>;

/// Trusted: `image::imageops::thumbnail` of RGBA pixels gives an image of the
/// wanted size, four bytes for each pixel, that depends on the pixels and the
/// sizes alone. An output pixel averages the pixels between two edges, each rounded
/// up: `k * ratio` and, one `ratio` on, the next, in binary32, where a result is off
/// by at most its 2^24th part. A ratio that is a whole number is exact as long as
/// the side is below 2^24. Else the edges are one share apart and at most one pixel
/// more, or two where the sides are long enough for the rounding to reach the next
/// pixel; on a side past 2^24 its length and the ratio are rounded too. Shares whose
/// channels might sum to more than 32 bits would overflow and are left out.
#[verifier::external_body]
fn thumbnail(rgba: &[u8], iw: u32, ih: u32, w: u32, h: u32) -> (r: Vec<u8>)
    requires
        averages(iw, ih, w, h),
        rgba@.len() == iw * 4 * ih,
    ensures
        r@ == thumbnail_of(rgba@, iw, ih, w, h),
        r@.len() == w * 4 * h,
{
    let image: image::ImageBuffer<image::Rgba<u8>, &[u8]> =
        image::ImageBuffer::from_raw(iw, ih, rgba).unwrap();
    image::imageops::thumbnail(&image, w, h).into_raw()
}

fn most_averaged(side: u32, out: u32) -> (n: u64)
    requires
        out > 0,
    ensures
        n == share(side, out),
        0 <= n <= u32::MAX,
{
    let whole: u64 = (side / out) as u64;
    proof {
        assert(0 <= side * (out + 4) <= 0xffff_ffff * 0x1_0000_0003) by (nonlinear_arith)
            requires
                0 <= side <= 0xffff_ffff,
                0 <= out <= 0xffff_ffff,
        ;
    }
    let most: u64 = if side < 0x100_0000 && side % out == 0 {
        whole
    } else if side as u128 * (out as u128 + 4) <= 0x100_0000 {
        whole + 1
    } else if side < 0x100_0000 {
        whole + 2
    } else {
        whole + 4 * ((side / 0x100_0000) as u64 + 1)
    };
    if most < side as u64 {
        most
    } else {
        side as u64
    }
}

/// An RGBA image without padding.
pub struct Image {
    pub rgba: Vec<u8>,
    pub width: u32,
    pub height: u32,
}

/// An image made to cover an output: scaled where it is larger than the output,
/// else as it is. `None` where it is so large against the output that the filter
/// cannot average it.
pub fn cover_image(image: &Image, target: (u32, u32)) -> (r: Option<Image>)
    requires
        image.width > 0,
        image.height > 0,
        image.rgba@.len() == image.width * 4 * image.height,
    ensures
        match cover(image.width, image.height, target) {
            Some((w, h)) => match r {
                Some(i) => averages(image.width, image.height, w, h) && i.width == w && i.height
                    == h && i.rgba@ == thumbnail_of(
                    image.rgba@,
                    image.width,
                    image.height,
                    w,
                    h,
                ),
                None => !averages(image.width, image.height, w, h),
            },
            None => r matches Some(i) && i.width == image.width && i.height == image.height
                && i.rgba@ == image.rgba@,
        },
        r matches Some(i) ==> i.rgba@.len() == i.width * 4 * i.height,
{
    let (iw, ih) = (image.width, image.height);
    match cover_size(iw, ih, target) {
        Some((w, h)) => {
            let across: u128 = most_averaged(iw, w) as u128;
            let down: u128 = most_averaged(ih, h) as u128;
            proof {
                assert(0 <= across * down <= 0x1_0000_0000 * 0x1_0000_0000) by (nonlinear_arith)
                    requires
                        0 <= across <= 0x1_0000_0000,
                        0 <= down <= 0x1_0000_0000,
                ;
                assert(0 <= w * 4 * h <= 0x4_0000_0000 * 0x1_0000_0000) by (nonlinear_arith)
                    requires
                        0 <= w <= 0x1_0000_0000,
                        0 <= h <= 0x1_0000_0000,
                ;
            }
            let count: u128 = across * down;
            if 255 * count + count / 2 > 0xffff_ffff || w as u128 * 4 * h as u128
                > isize::MAX as u128 {
                return None;
            }
            let rgba: Vec<u8> = thumbnail(image.rgba.as_slice(), iw, ih, w, h);
            Some(Image { rgba, width: w, height: h })
        },
        None => {
            let mut rgba: Vec<u8> = Vec::new();
            rgba.extend_from_slice(image.rgba.as_slice());
            assert(rgba@ =~= image.rgba@);
            Some(Image { rgba, width: iw, height: ih })
        },
    }
}

/// How an image lies in the memory that the compositor reads.
#[derive(Clone, Copy, Debug, PartialEq, Eq, Structural)]
pub struct ShmLayout {
    pub stride: u64,
    pub size: u64,
}

/// The layout of an image of `len` bytes. `None` where it is empty or has fewer
/// bytes than its size says.
pub fn shm_layout(width: u32, height: u32, len: usize) -> (r: Option<ShmLayout>)
    requires
        width * 4 * height <= u64::MAX,
    ensures
        r == (if 0 < width * 4 * height <= len {
            Some(ShmLayout { stride: (width * 4) as u64, size: (width * 4 * height) as u64 })
        } else {
            None
        }),
{
    let stride: u64 = width as u64 * 4;
    proof {
        assert(0 <= width * 4 * height) by (nonlinear_arith)
            requires
                width >= 0,
                height >= 0,
        ;
    }
    let size: u64 = stride * height as u64;
    if (len as u64) < size || size == 0 {
        return None;
    }
    Some(ShmLayout { stride, size })
}

} // verus!
