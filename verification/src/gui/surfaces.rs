//! The numbers of the panel's surfaces are told apart, so that each surface shows
//! what belongs on it.
use crate::capture::screencopy::CapturedFrame;
use crate::encode::video::CropRect;
use crate::gui::config::UserSettings;
use crate::gui::laws;
use crate::gui::outputs::{OutputDescription, OutputInfo};
use crate::gui::steps;
use crate::gui::steps::{ActionModel, Env, Msg, PanelModel};
use crate::gui::stitch;
use crate::gui::view;
use crate::gui::view::{WindowPlace, WindowView};
use crate::pipeline::record::ScreencopyTarget;
use std::sync::Arc;
use vstd::prelude::*;

verus! {

/// What a surface is there for.
pub enum Place {
    Dummy,
    Pill,
    Catcher,
    /// The tool bar of the output at this place.
    Bar(int),
    /// The recording border of the output at this place.
    Border(int),
}

/// The number of a surface, where it is open.
pub open spec fn number_at(p: PanelModel, a: Place) -> Option<u64> {
    match a {
        Place::Dummy => Some(p.dummy_id),
        Place::Pill => p.stop_pill_id,
        Place::Catcher => p.focus_catcher_id,
        Place::Bar(i) => if 0 <= i < p.outputs.len() {
            p.outputs[i].toolbar_id
        } else {
            None
        },
        Place::Border(i) => if 0 <= i < p.outputs.len() {
            p.outputs[i].recording_id
        } else {
            None
        },
    }
}

/// No two open surfaces have the same number, and the next number is unused.
pub open spec fn told_apart(p: PanelModel) -> bool {
    &&& forall|a: Place| (#[trigger] number_at(p, a)) is Some ==> number_at(p, a)->0 < p.next_id
    &&& forall|a: Place, b: Place|
        a != b && number_at(p, a) is Some ==> #[trigger] number_at(p, a) != #[trigger] number_at(
            p,
            b,
        )
}

/// There are numbers left for what one message can open: a tool bar and a border
/// on each output, the pill, and the surface that holds the focus.
pub open spec fn has_numbers(p: PanelModel) -> bool {
    p.next_id + 2 * p.outputs.len() + 2 <= u64::MAX
}

/// From one state to the next no open surface has another number than before.
spec fn fewer(p: PanelModel, q: PanelModel) -> bool {
    &&& q.next_id == p.next_id
    &&& forall|a: Place| (#[trigger] number_at(q, a)) is Some ==> number_at(q, a) == number_at(p, a)
}

proof fn lemma_fewer(p: PanelModel, q: PanelModel)
    requires
        told_apart(p),
        fewer(p, q),
    ensures
        told_apart(q),
{
    assert forall|a: Place| (#[trigger] number_at(q, a)) is Some implies number_at(q, a)->0
        < q.next_id by {
        assert(number_at(q, a) == number_at(p, a));
    }
    assert forall|a: Place, b: Place|
        a != b && number_at(q, a) is Some implies #[trigger] number_at(q, a)
        != #[trigger] number_at(q, b) by {
        assert(number_at(q, a) == number_at(p, a));
        if number_at(q, b) is Some {
            assert(number_at(q, b) == number_at(p, b));
        }
    }
}

/// From one state to the next surfaces keep their numbers, close, or open with
/// numbers that were unused, no two with the same.
spec fn grown(p: PanelModel, q: PanelModel) -> bool {
    &&& p.next_id <= q.next_id
    &&& forall|a: Place|
        (#[trigger] number_at(q, a)) is Some ==> number_at(q, a) == number_at(p, a) || p.next_id
            <= number_at(q, a)->0 < q.next_id
    &&& forall|a: Place, b: Place|
        a != b && number_at(q, a) is Some && number_at(q, a)->0 >= p.next_id
            ==> #[trigger] number_at(q, a) != #[trigger] number_at(q, b)
}

proof fn lemma_grown(p: PanelModel, q: PanelModel)
    requires
        told_apart(p),
        grown(p, q),
    ensures
        told_apart(q),
{
    assert forall|a: Place| (#[trigger] number_at(q, a)) is Some implies number_at(q, a)->0
        < q.next_id by {
        let n = number_at(q, a)->0;
        assert(number_at(q, a) == number_at(p, a) || p.next_id <= n < q.next_id);
    }
    assert forall|a: Place, b: Place|
        a != b && number_at(q, a) is Some implies #[trigger] number_at(q, a)
        != #[trigger] number_at(q, b) by {
        let n = number_at(q, a)->0;
        if n < p.next_id {
            assert(number_at(p, a) == Some(n));
            if number_at(q, b) == Some(n) {
                assert(number_at(p, b) == Some(n));
            }
        }
    }
}

/// One surface opens with the next number, and the others stay.
proof fn lemma_one_more(p: PanelModel, q: PanelModel, at: Place)
    requires
        told_apart(p),
        q.next_id == p.next_id + 1,
        number_at(q, at) == Some(p.next_id),
        forall|a: Place| a != at ==> #[trigger] number_at(q, a) == number_at(p, a),
    ensures
        told_apart(q),
{
    assert forall|a: Place, b: Place|
        a != b && number_at(q, a) is Some && number_at(q, a)->0 >= p.next_id implies
        #[trigger] number_at(q, a) != #[trigger] number_at(q, b) by {
        if a != at {
            assert(number_at(q, a) == number_at(p, a));
        }
        if b != at {
            assert(number_at(q, b) == number_at(p, b));
        }
    }
    lemma_grown(p, q);
}

/// The tool bars that open have numbers that were unused, no two the same.
proof fn lemma_bars(infos: Seq<OutputInfo>, recording: bool, next: u64)
    requires
        next + infos.len() <= u64::MAX,
    ensures
        ({
            let o = steps::toolbars_opened(infos, recording, next);
            &&& o.outputs.len() == infos.len()
            &&& next <= o.next <= next + infos.len()
            &&& forall|i: int|
                0 <= i < infos.len() ==> {
                    &&& (#[trigger] o.outputs[i]).recording_id == infos[i].recording_id
                    &&& o.outputs[i].toolbar_id == infos[i].toolbar_id || (
                    o.outputs[i].toolbar_id matches Some(n) && next <= n < o.next)
                }
            &&& forall|i: int, j: int|
                0 <= i < j < infos.len() && o.outputs[i].toolbar_id != infos[i].toolbar_id
                    && o.outputs[j].toolbar_id != infos[j].toolbar_id ==> (
                #[trigger] o.outputs[i]).toolbar_id->0 < (#[trigger] o.outputs[j]).toolbar_id->0
        }),
    decreases infos.len(),
{
    if infos.len() > 0 {
        let init = infos.drop_last();
        lemma_bars(init, recording, next);
        let b = steps::toolbars_opened(init, recording, next);
        let o = steps::toolbars_opened(infos, recording, next);
        assert forall|i: int| 0 <= i < infos.len() - 1 implies o.outputs[i] == #[trigger] b.outputs[i]
            && init[i] == infos[i] by {}
        assert forall|i: int| 0 <= i < infos.len() implies {
            &&& (#[trigger] o.outputs[i]).recording_id == infos[i].recording_id
            &&& o.outputs[i].toolbar_id == infos[i].toolbar_id || (
            o.outputs[i].toolbar_id matches Some(n) && next <= n < o.next)
        } by {
            if i < infos.len() - 1 {
                assert(o.outputs[i] == b.outputs[i]);
            }
        }
        assert forall|i: int, j: int|
            0 <= i < j < infos.len() && o.outputs[i].toolbar_id != infos[i].toolbar_id
                && o.outputs[j].toolbar_id != infos[j].toolbar_id implies (
        #[trigger] o.outputs[i]).toolbar_id->0 < (#[trigger] o.outputs[j]).toolbar_id->0 by {
            assert(o.outputs[i] == b.outputs[i]);
            if j < infos.len() - 1 {
                assert(o.outputs[j] == b.outputs[j]);
            }
        }
    }
}

/// The borders that open have numbers that were unused, no two the same.
proof fn lemma_borders(infos: Seq<OutputInfo>, next: u64)
    requires
        next + infos.len() <= u64::MAX,
    ensures
        ({
            let o = steps::borders_opened(infos, next);
            &&& o.outputs.len() == infos.len()
            &&& o.next == next + infos.len()
            &&& forall|i: int|
                0 <= i < infos.len() ==> {
                    &&& (#[trigger] o.outputs[i]).toolbar_id == infos[i].toolbar_id
                    &&& o.outputs[i].recording_id == Some((next + i) as u64)
                }
        }),
    decreases infos.len(),
{
    if infos.len() > 0 {
        let init = infos.drop_last();
        lemma_borders(init, next);
        let b = steps::borders_opened(init, next);
        let o = steps::borders_opened(infos, next);
        assert forall|i: int| 0 <= i < infos.len() implies {
            &&& (#[trigger] o.outputs[i]).toolbar_id == infos[i].toolbar_id
            &&& o.outputs[i].recording_id == Some((next + i) as u64)
        } by {
            if i < infos.len() - 1 {
                assert(o.outputs[i] == b.outputs[i]);
                assert(init[i] == infos[i]);
            }
        }
    }
}

proof fn lemma_toolbars_closed(p: PanelModel)
    requires
        told_apart(p),
    ensures
        told_apart(steps::toolbars_closed(p).panel),
        steps::toolbars_closed(p).panel.next_id == p.next_id,
        steps::toolbars_closed(p).panel.outputs.len() == p.outputs.len(),
{
    reveal(steps::toolbars_closed);
    lemma_fewer(p, steps::toolbars_closed(p).panel);
}

proof fn lemma_shut(p: PanelModel)
    requires
        told_apart(p),
    ensures
        told_apart(steps::shut(p).panel),
{
    reveal(steps::shut);
    let q = PanelModel { stop_pill_id: None, outputs: steps::without_borders(p.outputs), ..p };
    lemma_fewer(p, q);
    lemma_toolbars_closed(q);
    lemma_fewer(steps::toolbars_closed(q).panel, steps::shut(p).panel);
}

proof fn lemma_catcher(p: PanelModel)
    requires
        told_apart(p),
        p.next_id < u64::MAX,
    ensures
        told_apart(steps::catcher_ensured(p).panel),
{
    reveal(steps::catcher_ensured);
    if steps::catcher_output(p) is Some {
        lemma_one_more(p, steps::catcher_ensured(p).panel, Place::Catcher);
    }
}

/// The panel with the tool bars that are wanted.
spec fn with_bars(p: PanelModel) -> PanelModel {
    let o = steps::toolbars_opened(p.outputs, p.capture is Recording, p.next_id);
    PanelModel { outputs: o.outputs, next_id: o.next, ..p }
}

/// What has another number than before is a tool bar.
proof fn lemma_only_bars(p: PanelModel, a: Place)
    requires
        p.next_id + p.outputs.len() <= u64::MAX,
        number_at(with_bars(p), a) != number_at(p, a),
    ensures
        a matches Place::Bar(i) && 0 <= i < p.outputs.len() && with_bars(p).outputs[i].toolbar_id
            != p.outputs[i].toolbar_id,
{
    lemma_bars(p.outputs, p.capture is Recording, p.next_id);
    match a {
        Place::Border(i) => {
            if 0 <= i < p.outputs.len() {
                assert(with_bars(p).outputs[i].recording_id == p.outputs[i].recording_id);
            }
        },
        _ => {},
    }
}

proof fn lemma_with_bars(p: PanelModel)
    requires
        told_apart(p),
        p.next_id + p.outputs.len() <= u64::MAX,
    ensures
        told_apart(with_bars(p)),
        with_bars(p).next_id <= p.next_id + p.outputs.len(),
{
    let q = with_bars(p);
    lemma_bars(p.outputs, p.capture is Recording, p.next_id);
    assert forall|a: Place| (#[trigger] number_at(q, a)) is Some implies number_at(q, a)
        == number_at(p, a) || p.next_id <= number_at(q, a)->0 < q.next_id by {
        if number_at(q, a) != number_at(p, a) {
            lemma_only_bars(p, a);
            assert(q.outputs[a->Bar_0].toolbar_id is Some);
        }
    }
    assert forall|a: Place, b: Place|
        a != b && number_at(q, a) is Some && number_at(q, a)->0 >= p.next_id implies
        #[trigger] number_at(q, a) != #[trigger] number_at(q, b) by {
        if number_at(q, a) == number_at(q, b) {
            assert(number_at(p, a) is Some ==> number_at(p, a)->0 < p.next_id);
            assert(number_at(p, b) is Some ==> number_at(p, b)->0 < p.next_id);
            lemma_only_bars(p, a);
            lemma_only_bars(p, b);
            let (i, j) = (a->Bar_0, b->Bar_0);
            if i < j {
                assert(q.outputs[i].toolbar_id->0 < q.outputs[j].toolbar_id->0);
            } else {
                assert(q.outputs[j].toolbar_id->0 < q.outputs[i].toolbar_id->0);
            }
        }
    }
    lemma_grown(p, q);
}

proof fn lemma_ready_mapped(p: PanelModel)
    requires
        told_apart(p),
        has_numbers(p),
    ensures
        told_apart(steps::ready_mapped(p).panel),
{
    reveal(steps::ready_mapped);
    lemma_with_bars(p);
    let q = with_bars(p);
    let r = PanelModel { focus_catcher_id: None, ..q };
    lemma_fewer(q, r);
    lemma_catcher(q);
    lemma_catcher(r);
}

/// The pill and the borders open over what is there.
proof fn lemma_opened_over(p: PanelModel)
    requires
        told_apart(p),
        has_numbers(p),
    ensures
        told_apart(steps::overlays_opened(steps::pill_opened(p).panel).panel),
{
    reveal(steps::pill_opened);
    reveal(steps::overlays_opened);
    let q = steps::pill_opened(p).panel;
    if p.stop_pill_id is None {
        lemma_one_more(p, q, Place::Pill);
    }
    let r = steps::overlays_opened(q).panel;
    lemma_borders(q.outputs, q.next_id);
    assert forall|a: Place| (#[trigger] number_at(r, a)) is Some implies number_at(r, a)
        == number_at(q, a) || q.next_id <= number_at(r, a)->0 < r.next_id by {
        match a {
            Place::Bar(i) | Place::Border(i) => {
                if 0 <= i < r.outputs.len() {
                    assert(r.outputs[i].toolbar_id == q.outputs[i].toolbar_id);
                }
            },
            _ => {},
        }
    }
    assert forall|a: Place, b: Place|
        a != b && number_at(r, a) is Some && number_at(r, a)->0 >= q.next_id implies
        #[trigger] number_at(r, a) != #[trigger] number_at(r, b) by {
        let n = number_at(r, a)->0;
        if number_at(r, b) == Some(n) {
            assert(number_at(q, a) is Some ==> number_at(q, a)->0 < q.next_id);
            assert(number_at(q, b) is Some ==> number_at(q, b)->0 < q.next_id);
            match (a, b) {
                (Place::Border(i), Place::Border(j)) => {
                    assert(r.outputs[i].recording_id == Some((q.next_id + i) as u64));
                    assert(r.outputs[j].recording_id == Some((q.next_id + j) as u64));
                },
                (Place::Bar(i), _) => {
                    assert(r.outputs[i].toolbar_id == q.outputs[i].toolbar_id);
                },
                (_, Place::Bar(j)) => {
                    assert(r.outputs[j].toolbar_id == q.outputs[j].toolbar_id);
                },
                _ => {},
            }
        }
    }
    lemma_grown(q, r);
}

proof fn lemma_switched_over(p: PanelModel)
    requires
        told_apart(p),
        has_numbers(p),
    ensures
        told_apart(steps::switched_over(p).panel),
{
    reveal(steps::switched_over);
    lemma_toolbars_closed(p);
    lemma_opened_over(steps::toolbars_closed(p).panel);
}

proof fn lemma_toplevel_captured(p: PanelModel, identifier: String, on: Option<String>, env: Env)
    requires
        told_apart(p),
        has_numbers(p),
    ensures
        told_apart(steps::toplevel_captured(p, identifier, on, env).panel),
{
    reveal(steps::toplevel_captured);
    reveal(steps::picker_left);
    reveal(steps::streams_stopped);
    reveal(steps::window_saved);
    reveal(steps::window_recorded);
    let a = steps::streams_stopped(p).panel;
    lemma_fewer(p, a);
    lemma_toolbars_closed(a);
    let q = steps::toolbars_closed(a).panel;
    let w = PanelModel {
        recording_window_id: Some(identifier),
        recording_target_output: on,
        ..q
    };
    lemma_fewer(q, w);
    lemma_opened_over(w);
    let d = steps::overlays_opened(steps::pill_opened(w).panel).panel;
    let r = steps::toplevel_captured(p, identifier, on, env).panel;
    if p.capture is Idle {
        lemma_fewer(if p.mode is Screenshot { q } else { d }, r);
    }
}

/// A recording of an output begins.
proof fn lemma_recording(p: PanelModel, name: Option<String>, now: u64, a: ActionModel)
    requires
        told_apart(p),
        has_numbers(p),
    ensures
        told_apart(
            steps::recording_begun(
                steps::switched_over(PanelModel { recording_target_output: name, ..p }),
                now,
                a,
            ).panel,
        ),
{
    let q = PanelModel { recording_target_output: name, ..p };
    lemma_fewer(p, q);
    lemma_switched_over(q);
    let s = steps::switched_over(q);
    lemma_fewer(s.panel, steps::recording_begun(s, now, a).panel);
}

proof fn lemma_output_recorded(p: PanelModel, name: String, crop: Option<CropRect>, now: u64)
    requires
        told_apart(p),
        has_numbers(p),
    ensures
        told_apart(steps::output_recorded(p, name, crop, now).panel),
{
    reveal(steps::output_recorded);
    lemma_recording(
        p,
        Some(name),
        now,
        steps::recording_of(p, ScreencopyTarget::Output { output_name: name }, crop),
    );
}

proof fn lemma_recording_started(p: PanelModel, clicked: Option<Seq<char>>, now: u64)
    requires
        told_apart(p),
        has_numbers(p),
    ensures
        told_apart(steps::recording_started(p, clicked, now).panel),
{
    reveal(steps::recording_started);
    reveal(steps::region_recorded);
    reveal(steps::screen_recorded);
    let parts = stitch::parts_of(p.outputs, p.region->0);
    lemma_recording(
        p,
        Some(parts[0].output_name),
        now,
        ActionModel::RecordRegion { parts, args: p.record_args() },
    );
    assert forall|name: String, crop: Option<CropRect>|
        told_apart((#[trigger] steps::output_recorded(p, name, crop, now)).panel) by {
        lemma_output_recorded(p, name, crop, now);
    }
}

proof fn lemma_primary(p: PanelModel, clicked: Option<Seq<char>>, env: Env)
    requires
        told_apart(p),
        has_numbers(p),
    ensures
        told_apart(steps::primary(p, clicked, env).panel),
{
    reveal(steps::primary);
    if p.capture is Idle && p.mode is Record {
        lemma_recording_started(p, clicked, env.now);
    } else {
        reveal(steps::shot_taken);
        reveal(steps::region_shot);
        reveal(steps::output_shot);
        lemma_fewer(p, steps::primary(p, clicked, env).panel);
    }
}

proof fn lemma_wallpapers(infos: Seq<OutputInfo>, results: Seq<(u32, bool)>)
    ensures
        ({
            let o = steps::wallpapers_decoded(infos, results);
            &&& o.len() == infos.len()
            &&& forall|i: int|
                0 <= i < infos.len() ==> (#[trigger] o[i]).toolbar_id == infos[i].toolbar_id
                    && o[i].recording_id == infos[i].recording_id
        }),
    decreases results.len(),
{
    if results.len() > 0 {
        lemma_wallpapers(infos, results.drop_last());
        let before = steps::wallpapers_decoded(infos, results.drop_last());
        laws::lemma_find_key(before, results.last().0);
        let o = steps::wallpapers_decoded(infos, results);
        assert forall|i: int| 0 <= i < infos.len() implies (#[trigger] o[i]).toolbar_id
            == infos[i].toolbar_id && o[i].recording_id == infos[i].recording_id by {
            assert(before[i].toolbar_id == infos[i].toolbar_id);
        }
    }
}

proof fn lemma_removed(p: PanelModel, key: u32)
    requires
        told_apart(p),
    ensures
        told_apart(steps::output_removed(p, key).panel),
{
    reveal(steps::output_removed);
    laws::lemma_find_key(p.outputs, key);
    let q = steps::output_removed(p, key).panel;
    match steps::find_key(p.outputs, key) {
        Some(at) => {
            assert forall|a: Place| number_at(q, a) is Some implies #[trigger] number_at(q, a)
                == number_at(p, past(a, at)) by {}
            assert forall|a: Place| (#[trigger] number_at(q, a)) is Some implies number_at(q, a)->0
                < q.next_id by {
                assert(number_at(q, a) == number_at(p, past(a, at)));
            }
            assert forall|a: Place, b: Place|
                a != b && number_at(q, a) is Some implies #[trigger] number_at(q, a)
                != #[trigger] number_at(q, b) by {
                assert(number_at(q, a) == number_at(p, past(a, at)));
                if number_at(q, b) is Some {
                    assert(number_at(q, b) == number_at(p, past(b, at)));
                    assert(past(a, at) != past(b, at));
                }
            }
        },
        None => {},
    }
}

/// Where a surface was while there was one more output.
spec fn past(a: Place, at: int) -> Place {
    match a {
        Place::Bar(i) => Place::Bar(
            if i < at {
                i
            } else {
                i + 1
            },
        ),
        Place::Border(i) => Place::Border(
            if i < at {
                i
            } else {
                i + 1
            },
        ),
        _ => a,
    }
}

/// At launch the one surface has its number.
pub proof fn the_first_surface_is_told_apart(s: UserSettings, id: u64)
    requires
        id < u64::MAX,
    ensures
        told_apart(steps::launched(s, id)),
{
    let p = steps::launched(s, id);
    assert forall|a: Place| (#[trigger] number_at(p, a)) is Some implies a == Place::Dummy by {}
}

proof fn lemma_created(p: PanelModel, info: OutputInfo)
    requires
        told_apart(p),
        info.toolbar_id is None,
        info.recording_id is None,
    ensures
        told_apart(steps::output_created(p, info).panel),
{
    reveal(steps::output_created);
    laws::lemma_find_key(p.outputs, info.key);
    lemma_fewer(p, steps::output_created(p, info).panel);
}

/// What is known of an output changes, but not the surfaces on it.
proof fn lemma_known(p: PanelModel, i: int, info: OutputInfo)
    requires
        told_apart(p),
        has_numbers(p),
        0 <= i < p.outputs.len(),
        info.toolbar_id == p.outputs[i].toolbar_id,
        info.recording_id == p.outputs[i].recording_id,
    ensures
        told_apart(PanelModel { outputs: p.outputs.update(i, info), ..p }),
        told_apart(
            steps::ready_mapped(PanelModel { outputs: p.outputs.update(i, info), ..p }).panel,
        ),
{
    let q = PanelModel { outputs: p.outputs.update(i, info), ..p };
    lemma_fewer(p, q);
    lemma_ready_mapped(q);
}

proof fn lemma_updated(p: PanelModel, key: u32, d: OutputDescription)
    requires
        told_apart(p),
        has_numbers(p),
    ensures
        told_apart(steps::output_updated(p, key, d).panel),
{
    reveal(steps::output_updated);
    laws::lemma_find_key(p.outputs, key);
    match steps::find_key(p.outputs, key) {
        Some(i) => lemma_known(p, i, steps::updated(p.outputs[i], d)),
        None => {},
    }
}

proof fn lemma_frozen(p: PanelModel, key: u32, frame: Option<Arc<CapturedFrame>>, sub: bool)
    requires
        told_apart(p),
        has_numbers(p),
    ensures
        told_apart(steps::frozen_ready(p, key, frame, sub).panel),
{
    reveal(steps::frozen_ready);
    laws::lemma_find_key(p.outputs, key);
    match steps::find_key(p.outputs, key) {
        Some(i) => {
            let o = p.outputs[i];
            lemma_known(
                p,
                i,
                match frame {
                    None => OutputInfo { freeze_done: true, ..o },
                    Some(f) => if sub {
                        OutputInfo { freeze_done: true, frozen: Some(f), frozen_sub: true, ..o }
                    } else {
                        OutputInfo { freeze_done: true, frozen: Some(f), frozen_texture: true, ..o }
                    },
                },
            );
        },
        None => {},
    }
}

proof fn lemma_pinned(p: PanelModel, key: u32, pinned: bool)
    requires
        told_apart(p),
    ensures
        told_apart(steps::frozen_pinned(p, key, pinned).panel),
{
    reveal(steps::frozen_pinned);
    laws::lemma_find_key(p.outputs, key);
    lemma_fewer(p, steps::frozen_pinned(p, key, pinned).panel);
}

proof fn lemma_escaped(p: PanelModel, now: u64)
    requires
        told_apart(p),
    ensures
        told_apart(steps::escaped(p, now).panel),
        told_apart(steps::ticked(p, now).panel),
{
    reveal(steps::escaped);
    reveal(steps::ticked);
    let q = PanelModel { cancel_pending: true, ..p };
    lemma_fewer(p, q);
    lemma_shut(p);
    lemma_shut(q);
    if p.capture is Recording {
        lemma_fewer(p, steps::escaped(p, now).panel);
    }
}

/// The messages that touch no surface.
spec fn touches_no_surface(msg: Msg) -> bool {
    match msg {
        Msg::PrimaryAction(_)
        | Msg::EscPressed
        | Msg::Tick
        | Msg::RecordingFinished(_)
        | Msg::GifFinished(_)
        | Msg::ScreenshotFinished(_)
        | Msg::Quit
        | Msg::OutputCreated(_)
        | Msg::OutputUpdated(_, _)
        | Msg::OutputRemoved(_)
        | Msg::FrozenFrameReady(_, _, _)
        | Msg::FrozenAllocated(_, _)
        | Msg::WallpaperDecoded(_)
        | Msg::CaptureToplevel(_, _)
        | Msg::FocusOutputKnown(_) => false,
        _ => true,
    }
}

proof fn lemma_untouched(p: PanelModel, msg: Msg, env: Env)
    requires
        told_apart(p),
        touches_no_surface(msg),
    ensures
        told_apart(steps::stepped(p, msg, env).panel),
{
    let r = steps::stepped(p, msg, env).panel;
    reveal(steps::mode_set);
    reveal(steps::source_set);
    reveal(steps::streams_stopped);
    reveal(steps::save_target_set);
    reveal(steps::record_format_set);
    reveal(steps::record_fps_set);
    reveal(steps::selection_changed);
    reveal(steps::pointer_on);
    reveal(steps::windows_ready);
    reveal(steps::thumb_pinned);
    assert(r.outputs == p.outputs);
    lemma_fewer(p, r);
}

/// Whatever the panel is told, no two of its surfaces come to have the same number.
pub proof fn surfaces_stay_told_apart(p: PanelModel, msg: Msg, env: Env)
    requires
        told_apart(p),
        has_numbers(p),
        msg matches Msg::OutputCreated(info) ==> info.toolbar_id is None && info.recording_id
            is None,
    ensures
        told_apart(steps::stepped(p, msg, env).panel),
{
    match msg {
        Msg::PrimaryAction(clicked) => {
            lemma_primary(
                p,
                match clicked {
                    Some(name) => Some(name@),
                    None => None,
                },
                env,
            );
        },
        Msg::EscPressed | Msg::Tick => lemma_escaped(p, env.now),
        Msg::RecordingFinished(_) | Msg::GifFinished(_) | Msg::ScreenshotFinished(_) => {
            reveal(steps::finished);
            lemma_shut(p);
        },
        Msg::Quit => lemma_shut(p),
        Msg::OutputCreated(info) => lemma_created(p, info),
        Msg::OutputUpdated(key, d) => lemma_updated(p, key, d),
        Msg::OutputRemoved(key) => lemma_removed(p, key),
        Msg::FrozenFrameReady(key, frame, sub) => lemma_frozen(p, key, frame, sub),
        Msg::FrozenAllocated(key, pinned) => lemma_pinned(p, key, pinned),
        Msg::WallpaperDecoded(results) => {
            lemma_wallpapers(p.outputs, results@);
            lemma_fewer(p, steps::stepped(p, msg, env).panel);
        },
        Msg::CaptureToplevel(identifier, on) => lemma_toplevel_captured(p, identifier, on, env),
        Msg::FocusOutputKnown(name) => {
            let q = PanelModel { focus_output: Some(name), ..p };
            lemma_fewer(p, q);
            lemma_ready_mapped(q);
        },
        _ => lemma_untouched(p, msg, env),
    }
}

proof fn lemma_found_bar(infos: Seq<OutputInfo>, i: int, id: u64)
    requires
        0 <= i < infos.len(),
        infos[i].toolbar_id == Some(id),
        forall|j: int| 0 <= j < infos.len() && j != i ==> (#[trigger] infos[j]).toolbar_id != Some(id),
    ensures
        steps::find_toolbar(infos, id) == Some(i),
    decreases infos.len(),
{
    let init = infos.drop_last();
    if i < infos.len() - 1 {
        assert(init[i] == infos[i]);
        lemma_found_bar(init, i, id);
    } else {
        assert forall|j: int| 0 <= j < init.len() implies (#[trigger] init[j]).toolbar_id != Some(
            id,
        ) by {
            assert(init[j] == infos[j]);
        }
        lemma_no_bar(init, id);
    }
}

proof fn lemma_no_bar(infos: Seq<OutputInfo>, id: u64)
    requires
        forall|j: int| 0 <= j < infos.len() ==> (#[trigger] infos[j]).toolbar_id != Some(id),
    ensures
        steps::find_toolbar(infos, id) is None,
    decreases infos.len(),
{
    if infos.len() > 0 {
        assert(infos[infos.len() - 1].toolbar_id != Some(id));
        assert forall|j: int| 0 <= j < infos.len() - 1 implies (
        #[trigger] infos.drop_last()[j]).toolbar_id != Some(id) by {
            assert(infos.drop_last()[j] == infos[j]);
        }
        lemma_no_bar(infos.drop_last(), id);
    }
}

proof fn lemma_found_border(infos: Seq<OutputInfo>, i: int, id: u64)
    requires
        0 <= i < infos.len(),
        infos[i].recording_id == Some(id),
        forall|j: int|
            0 <= j < infos.len() && j != i ==> (#[trigger] infos[j]).recording_id != Some(id),
    ensures
        view::find_border(infos, id) == Some(i),
    decreases infos.len(),
{
    let init = infos.drop_last();
    if i < infos.len() - 1 {
        assert(init[i] == infos[i]);
        lemma_found_border(init, i, id);
    } else {
        assert forall|j: int| 0 <= j < init.len() implies (#[trigger] init[j]).recording_id != Some(
            id,
        ) by {
            assert(init[j] == infos[j]);
        }
        lemma_no_border(init, id);
    }
}

proof fn lemma_no_border(infos: Seq<OutputInfo>, id: u64)
    requires
        forall|j: int| 0 <= j < infos.len() ==> (#[trigger] infos[j]).recording_id != Some(id),
    ensures
        view::find_border(infos, id) is None,
    decreases infos.len(),
{
    if infos.len() > 0 {
        assert(infos[infos.len() - 1].recording_id != Some(id));
        assert forall|j: int| 0 <= j < infos.len() - 1 implies (
        #[trigger] infos.drop_last()[j]).recording_id != Some(id) by {
            assert(infos.drop_last()[j] == infos[j]);
        }
        lemma_no_border(infos.drop_last(), id);
    }
}

/// Each surface shows what belongs on it: the pill the pill, a tool bar and a
/// border those of their own output, and the other two nothing.
pub proof fn each_surface_shows_its_own(
    p: PanelModel,
    a: Place,
    id: u64,
    window: Option<WindowPlace>,
)
    requires
        told_apart(p),
        number_at(p, a) == Some(id),
    ensures
        view::window_view(p, id, window) == match a {
            Place::Dummy | Place::Catcher => WindowView::Nothing,
            Place::Pill => WindowView::StopPill,
            Place::Bar(i) => WindowView::Toolbar(i as usize),
            Place::Border(i) => view::border_view(p, p.outputs[i], window),
        },
{
    assert(a != Place::Dummy ==> number_at(p, Place::Dummy) != Some(id));
    assert(a != Place::Catcher ==> number_at(p, Place::Catcher) != Some(id));
    assert(a != Place::Pill ==> number_at(p, Place::Pill) != Some(id));
    assert forall|j: int|
        0 <= j < p.outputs.len() && a != Place::Bar(j) implies (
    #[trigger] p.outputs[j]).toolbar_id != Some(id) by {
        assert(number_at(p, Place::Bar(j)) != number_at(p, a));
    }
    assert forall|j: int|
        0 <= j < p.outputs.len() && a != Place::Border(j) implies (
    #[trigger] p.outputs[j]).recording_id != Some(id) by {
        assert(number_at(p, Place::Border(j)) != number_at(p, a));
    }
    match a {
        Place::Bar(i) => lemma_found_bar(p.outputs, i, id),
        Place::Border(i) => {
            lemma_no_bar(p.outputs, id);
            lemma_found_border(p.outputs, i, id);
        },
        _ => {},
    }
}

} // verus!
