//! What holds of the panel whatever it is told.
use crate::gui::outputs;
use crate::gui::outputs::OutputInfo;
use crate::gui::steps;
use crate::gui::steps::{
    Action, ActionModel, CaptureState, Env, Msg, PanelModel, SurfaceKind,
};
use vstd::prelude::*;

verus! {

/// Two lists of the same outputs at the same places, whose tool bars are those of
/// the first list or fewer, or new ones on frozen outputs.
spec fn keeps(a: Seq<OutputInfo>, b: Seq<OutputInfo>) -> bool {
    &&& a.len() == b.len()
    &&& forall|i: int|
        0 <= i < a.len() ==> {
            &&& (#[trigger] b[i]).key == a[i].key
            &&& b[i].logical_pos == a[i].logical_pos
            &&& b[i].logical_size == a[i].logical_size
            &&& b[i].freeze_done == a[i].freeze_done
            &&& b[i].toolbar_id is Some ==> a[i].toolbar_id is Some || a[i].freeze_done
        }
}

/// As `keeps`, and no tool bar is new.
spec fn keeps_bars(a: Seq<OutputInfo>, b: Seq<OutputInfo>) -> bool {
    &&& keeps(a, b)
    &&& forall|i: int|
        0 <= i < a.len() ==> ((#[trigger] b[i]).toolbar_id is Some ==> a[i].toolbar_id is Some)
}

proof fn lemma_keeps(a: Seq<OutputInfo>, b: Seq<OutputInfo>)
    requires
        keeps(a, b),
    ensures
        steps::distinct_keys(a) ==> steps::distinct_keys(b),
        outputs::all_placed(a) ==> outputs::all_placed(b),
        steps::bars_over_freezes(a) ==> steps::bars_over_freezes(b),
        keeps_bars(a, b) && steps::no_toolbars(a) ==> steps::no_toolbars(b),
{
    if steps::distinct_keys(a) {
        assert forall|i: int, j: int| 0 <= i < j < b.len() implies (#[trigger] b[i]).key != (
        #[trigger] b[j]).key by {
            assert(a[i].key != a[j].key);
        }
    }
    if outputs::all_placed(a) {
        assert forall|i: int| 0 <= i < b.len() implies (#[trigger] b[i]).placed() by {
            assert(a[i].placed());
        }
    }
    if steps::bars_over_freezes(a) {
        assert forall|i: int| 0 <= i < b.len() && (#[trigger] b[i]).toolbar_id is Some implies b[i].freeze_done by {
            assert(a[i].toolbar_id is Some ==> a[i].freeze_done);
        }
    }
    if keeps_bars(a, b) && steps::no_toolbars(a) {
        assert forall|i: int| 0 <= i < b.len() implies (#[trigger] b[i]).toolbar_id is None by {
            assert(a[i].toolbar_id is None);
        }
    }
}

proof fn lemma_toolbars_opened(infos: Seq<OutputInfo>, recording: bool, next: u64)
    ensures
        keeps(infos, steps::toolbars_opened(infos, recording, next).outputs),
        recording ==> steps::toolbars_opened(infos, recording, next).outputs == infos,
        forall|i: int|
            0 <= i < infos.len() ==> ((
            #[trigger] steps::toolbars_opened(infos, recording, next).outputs[i]).toolbar_id is Some
                <==> infos[i].toolbar_id is Some || (steps::wants_toolbar(infos[i])
                && !recording)),
    decreases infos.len(),
{
    if infos.len() > 0 {
        lemma_toolbars_opened(infos.drop_last(), recording, next);
        let before = steps::toolbars_opened(infos.drop_last(), recording, next).outputs;
        let all = steps::toolbars_opened(infos, recording, next).outputs;
        assert(all.len() == infos.len());
        assert forall|i: int| 0 <= i < infos.len() implies {
            &&& (#[trigger] all[i]).key == infos[i].key
            &&& all[i].logical_pos == infos[i].logical_pos
            &&& all[i].logical_size == infos[i].logical_size
            &&& all[i].freeze_done == infos[i].freeze_done
            &&& (all[i].toolbar_id is Some <==> infos[i].toolbar_id is Some || (
            steps::wants_toolbar(infos[i]) && !recording))
        } by {
            if i < infos.len() - 1 {
                assert(all[i] == before[i]);
                assert(infos.drop_last()[i] == infos[i]);
            }
        }
        if recording {
            assert(all =~= infos);
        }
    }
}

proof fn lemma_borders_opened(infos: Seq<OutputInfo>, next: u64)
    ensures
        keeps_bars(infos, steps::borders_opened(infos, next).outputs),
    decreases infos.len(),
{
    if infos.len() > 0 {
        lemma_borders_opened(infos.drop_last(), next);
        let before = steps::borders_opened(infos.drop_last(), next).outputs;
        let all = steps::borders_opened(infos, next).outputs;
        assert forall|i: int| 0 <= i < infos.len() implies {
            &&& (#[trigger] all[i]).key == infos[i].key
            &&& all[i].logical_pos == infos[i].logical_pos
            &&& all[i].logical_size == infos[i].logical_size
            &&& all[i].freeze_done == infos[i].freeze_done
            &&& all[i].toolbar_id is Some ==> infos[i].toolbar_id is Some
        } by {
            if i < infos.len() - 1 {
                assert(all[i] == before[i]);
                assert(infos.drop_last()[i] == infos[i]);
            }
        }
    }
}

proof fn lemma_wallpapers_decoded(infos: Seq<OutputInfo>, results: Seq<(u32, bool)>)
    ensures
        keeps_bars(infos, steps::wallpapers_decoded(infos, results)),
    decreases results.len(),
{
    if results.len() > 0 {
        let before = steps::wallpapers_decoded(infos, results.drop_last());
        lemma_wallpapers_decoded(infos, results.drop_last());
        lemma_find_key(before, results.last().0);
        let all = steps::wallpapers_decoded(infos, results);
        assert forall|i: int| 0 <= i < infos.len() implies {
            &&& (#[trigger] all[i]).key == infos[i].key
            &&& all[i].logical_pos == infos[i].logical_pos
            &&& all[i].logical_size == infos[i].logical_size
            &&& all[i].freeze_done == infos[i].freeze_done
            &&& all[i].toolbar_id is Some ==> infos[i].toolbar_id is Some
        } by {
            assert(before[i].key == infos[i].key);
        }
    }
}

/// The output that a number finds is among the outputs and has that number; where
/// it finds none, no output has it.
pub proof fn lemma_find_key(infos: Seq<OutputInfo>, key: u32)
    ensures
        match steps::find_key(infos, key) {
            Some(i) => 0 <= i < infos.len() && infos[i].key == key,
            None => forall|j: int| 0 <= j < infos.len() ==> (#[trigger] infos[j]).key != key,
        },
    decreases infos.len(),
{
    if infos.len() > 0 {
        let init = infos.drop_last();
        lemma_find_key(init, key);
        assert forall|j: int| 0 <= j < init.len() implies #[trigger] infos[j] == init[j] by {}
    }
}

/// The same outputs, region and capture, with fewer tool bars or none more.
spec fn same_ground(p: PanelModel, q: PanelModel) -> bool {
    &&& keeps_bars(p.outputs, q.outputs)
    &&& q.region == p.region
    &&& q.capture == p.capture
    &&& q.focus_catcher_id is Some ==> p.focus_catcher_id is Some
}

proof fn lemma_same_ground(p: PanelModel, q: PanelModel)
    requires
        p.wf(),
        same_ground(p, q),
    ensures
        q.wf(),
{
    lemma_keeps(p.outputs, q.outputs);
}

proof fn lemma_toolbars_closed(p: PanelModel)
    ensures
        same_ground(p, steps::toolbars_closed(p).panel),
        steps::no_toolbars(steps::toolbars_closed(p).panel.outputs),
        steps::toolbars_closed(p).panel.focus_catcher_id is None,
{
    reveal(steps::toolbars_closed);
}

proof fn lemma_shut(p: PanelModel)
    ensures
        same_ground(p, steps::shut(p).panel),
{
    reveal(steps::shut);
    let q = PanelModel {
        stop_pill_id: None,
        outputs: steps::without_borders(p.outputs),
        ..p
    };
    lemma_toolbars_closed(q);
    let r = steps::toolbars_closed(q).panel;
    assert forall|i: int| 0 <= i < p.outputs.len() implies {
        &&& (#[trigger] r.outputs[i]).key == p.outputs[i].key
        &&& r.outputs[i].logical_pos == p.outputs[i].logical_pos
        &&& r.outputs[i].logical_size == p.outputs[i].logical_size
        &&& r.outputs[i].freeze_done == p.outputs[i].freeze_done
        &&& r.outputs[i].toolbar_id is Some ==> p.outputs[i].toolbar_id is Some
    } by {
        assert(r.outputs[i].key == q.outputs[i].key);
        assert(q.outputs[i] == (OutputInfo { recording_id: None, ..p.outputs[i] }));
    }
}

proof fn lemma_switched_over(p: PanelModel)
    ensures
        same_ground(p, steps::switched_over(p).panel),
        steps::no_toolbars(steps::switched_over(p).panel.outputs),
        steps::switched_over(p).panel.focus_catcher_id is None,
{
    reveal(steps::switched_over);
    let a = steps::toolbars_closed(p).panel;
    lemma_toolbars_closed(p);
    lemma_opened_over(a);
    let c = steps::switched_over(p).panel;
    assert forall|i: int| 0 <= i < p.outputs.len() implies {
        &&& (#[trigger] c.outputs[i]).key == p.outputs[i].key
        &&& c.outputs[i].logical_pos == p.outputs[i].logical_pos
        &&& c.outputs[i].logical_size == p.outputs[i].logical_size
        &&& c.outputs[i].freeze_done == p.outputs[i].freeze_done
        &&& c.outputs[i].toolbar_id is None
    } by {
        assert(a.outputs[i].key == p.outputs[i].key);
        assert(a.outputs[i].toolbar_id is None);
    }
}

/// The pill and the borders leave the tool bars and the focus as they are.
proof fn lemma_opened_over(p: PanelModel)
    ensures
        same_ground(p, steps::overlays_opened(steps::pill_opened(p).panel).panel),
{
    reveal(steps::pill_opened);
    reveal(steps::overlays_opened);
    let b = steps::pill_opened(p).panel;
    lemma_borders_opened(b.outputs, b.next_id);
}

proof fn lemma_ready_mapped(p: PanelModel)
    requires
        p.wf(),
    ensures
        steps::ready_mapped(p).panel.wf(),
{
    reveal(steps::ready_mapped);
    reveal(steps::catcher_ensured);
    let recording = p.capture is Recording;
    let o = steps::toolbars_opened(p.outputs, recording, p.next_id);
    lemma_toolbars_opened(p.outputs, recording, p.next_id);
    lemma_keeps(p.outputs, o.outputs);
    if recording {
        if o.outputs.len() > 0 {
            assert(o.outputs[0].toolbar_id is None);
        }
    }
}

proof fn lemma_updated_output(p: PanelModel, i: int, info: OutputInfo)
    requires
        p.wf(),
        0 <= i < p.outputs.len(),
        info.key == p.outputs[i].key,
        info.placed(),
        info.toolbar_id == p.outputs[i].toolbar_id,
        info.toolbar_id is Some ==> info.freeze_done,
    ensures
        (PanelModel { outputs: p.outputs.update(i, info), ..p }).wf(),
{
    let b = p.outputs.update(i, info);
    assert forall|j: int, k: int| 0 <= j < k < b.len() implies (#[trigger] b[j]).key != (
    #[trigger] b[k]).key by {
        assert(p.outputs[j].key != p.outputs[k].key);
    }
    assert forall|j: int| 0 <= j < b.len() implies (#[trigger] b[j]).placed() by {
        assert(p.outputs[j].placed());
    }
    assert forall|j: int| 0 <= j < b.len() && (#[trigger] b[j]).toolbar_id is Some implies b[j].freeze_done by {
        assert(p.outputs[j].toolbar_id is Some ==> p.outputs[j].freeze_done);
    }
    if p.capture is Recording {
        assert forall|j: int| 0 <= j < b.len() implies (#[trigger] b[j]).toolbar_id is None by {
            assert(p.outputs[j].toolbar_id is None);
        }
    }
}

proof fn lemma_output_created(p: PanelModel, info: OutputInfo)
    requires
        p.wf(),
        info.placed(),
        info.toolbar_id is None,
    ensures
        steps::output_created(p, info).panel.wf(),
{
    reveal(steps::output_created);
    lemma_find_key(p.outputs, info.key);
    let b = steps::output_created(p, info).panel.outputs;
    assert forall|j: int, k: int| 0 <= j < k < b.len() implies (#[trigger] b[j]).key != (
    #[trigger] b[k]).key by {
        assert(j < p.outputs.len());
        if k < p.outputs.len() {
            assert(p.outputs[j].key != p.outputs[k].key);
        }
    }
    assert forall|j: int| 0 <= j < b.len() implies (#[trigger] b[j]).placed() by {
        if j < p.outputs.len() {
            assert(p.outputs[j].placed());
        }
    }
    assert forall|j: int| 0 <= j < b.len() && (#[trigger] b[j]).toolbar_id is Some implies b[j].freeze_done by {
        if j < p.outputs.len() {
            assert(p.outputs[j].toolbar_id is Some ==> p.outputs[j].freeze_done);
        }
    }
    if p.capture is Recording {
        assert forall|j: int| 0 <= j < b.len() implies (#[trigger] b[j]).toolbar_id is None by {
            if j < p.outputs.len() {
                assert(p.outputs[j].toolbar_id is None);
            }
        }
    }
}

proof fn lemma_output_removed(p: PanelModel, key: u32)
    requires
        p.wf(),
    ensures
        steps::output_removed(p, key).panel.wf(),
{
    reveal(steps::output_removed);
    lemma_find_key(p.outputs, key);
    if let Some(i) = steps::find_key(p.outputs, key) {
        let b = p.outputs.remove(i);
        assert forall|j: int| 0 <= j < b.len() implies #[trigger] b[j] == p.outputs[if j < i {
            j
        } else {
            j + 1
        }] by {}
        assert forall|j: int, k: int| 0 <= j < k < b.len() implies (#[trigger] b[j]).key != (
        #[trigger] b[k]).key by {}
        assert forall|j: int| 0 <= j < b.len() implies (#[trigger] b[j]).placed() by {}
    }
}

proof fn lemma_frozen_ready(
    p: PanelModel,
    key: u32,
    frame: Option<std::sync::Arc<crate::capture::screencopy::CapturedFrame>>,
    sub: bool,
)
    requires
        p.wf(),
    ensures
        steps::frozen_ready(p, key, frame, sub).panel.wf(),
{
    reveal(steps::frozen_ready);
    lemma_find_key(p.outputs, key);
    if let Some(i) = steps::find_key(p.outputs, key) {
        let o = p.outputs[i];
        let info = match frame {
            None => OutputInfo { freeze_done: true, ..o },
            Some(f) => if sub {
                OutputInfo { freeze_done: true, frozen: Some(f), frozen_sub: true, ..o }
            } else {
                OutputInfo { freeze_done: true, frozen: Some(f), frozen_texture: true, ..o }
            },
        };
        assert(o.placed());
        lemma_updated_output(p, i, info);
        lemma_ready_mapped(PanelModel { outputs: p.outputs.update(i, info), ..p });
    }
}

proof fn lemma_output_updated(p: PanelModel, key: u32, d: outputs::OutputDescription)
    requires
        p.wf(),
        steps::acceptable(p, Msg::OutputUpdated(key, d)),
    ensures
        steps::output_updated(p, key, d).panel.wf(),
{
    reveal(steps::output_updated);
    lemma_find_key(p.outputs, key);
    if let Some(i) = steps::find_key(p.outputs, key) {
        let info = steps::updated(p.outputs[i], d);
        lemma_updated_output(p, i, info);
        lemma_ready_mapped(PanelModel { outputs: p.outputs.update(i, info), ..p });
    }
}

proof fn lemma_frozen_pinned(p: PanelModel, key: u32, pinned: bool)
    requires
        p.wf(),
    ensures
        steps::frozen_pinned(p, key, pinned).panel.wf(),
{
    reveal(steps::frozen_pinned);
    lemma_find_key(p.outputs, key);
    if let Some(i) = steps::find_key(p.outputs, key) {
        assert(p.outputs[i].placed());
        lemma_updated_output(p, i, OutputInfo { frozen_pinned: pinned, ..p.outputs[i] });
    }
}

proof fn lemma_toplevel_captured(
    p: PanelModel,
    identifier: String,
    on: Option<String>,
    env: Env,
)
    requires
        p.wf(),
    ensures
        steps::toplevel_captured(p, identifier, on, env).panel.wf(),
{
    reveal(steps::toplevel_captured);
    reveal(steps::picker_left);
    reveal(steps::streams_stopped);
    reveal(steps::window_saved);
    reveal(steps::window_recorded);
    let a = steps::streams_stopped(p).panel;
    lemma_toolbars_closed(a);
    let q = steps::toolbars_closed(a).panel;
    lemma_same_ground(a, q);
    let w = PanelModel {
        recording_window_id: Some(identifier),
        recording_target_output: on,
        ..q
    };
    lemma_opened_over(w);
    let d = steps::overlays_opened(steps::pill_opened(w).panel).panel;
    lemma_same_ground(w, d);
    lemma_keeps(w.outputs, d.outputs);
}

proof fn lemma_primary(p: PanelModel, clicked: Option<Seq<char>>, env: Env)
    requires
        p.wf(),
    ensures
        steps::primary(p, clicked, env).panel.wf(),
{
    reveal(steps::primary);
    reveal(steps::shot_taken);
    reveal(steps::region_shot);
    reveal(steps::output_shot);
    reveal(steps::recording_started);
    reveal(steps::region_recorded);
    reveal(steps::screen_recorded);
    reveal(steps::output_recorded);
    assert forall|name: Option<String>|
        {
            let q = #[trigger] steps::switched_over(
                PanelModel { recording_target_output: name, ..p },
            ).panel;
            q.wf() && steps::no_toolbars(q.outputs) && q.focus_catcher_id is None
        } by {
        let r = PanelModel { recording_target_output: name, ..p };
        lemma_switched_over(r);
        lemma_same_ground(r, steps::switched_over(r).panel);
    }
}

/// Every message leaves the panel sound: its outputs keep their own numbers, tool
/// bars stay on frozen outputs, and none is there while something is recorded.
pub proof fn messages_keep_the_panel_sound(p: PanelModel, msg: Msg, env: Env)
    requires
        p.wf(),
        steps::acceptable(p, msg),
    ensures
        steps::stepped(p, msg, env).panel.wf(),
{
    match msg {
        Msg::SetMode(_) => {
            reveal(steps::mode_set);
            reveal(steps::streams_stopped);
        },
        Msg::SetSource(_) => {
            reveal(steps::source_set);
            reveal(steps::streams_stopped);
        },
        Msg::SetSaveTarget(_) => {
            reveal(steps::save_target_set);
        },
        Msg::SetRecordFormat(_) => {
            reveal(steps::record_format_set);
        },
        Msg::SetRecordFps(_) => {
            reveal(steps::record_fps_set);
        },
        Msg::Selection(_) => {
            reveal(steps::selection_changed);
        },
        Msg::EscPressed => {
            reveal(steps::escaped);
            lemma_shut(p);
            let q = PanelModel { cancel_pending: true, ..p };
            lemma_shut(q);
            lemma_same_ground(p, steps::shut(p).panel);
            lemma_same_ground(q, steps::shut(q).panel);
        },
        Msg::Tick => {
            reveal(steps::ticked);
            let q = PanelModel { cancel_pending: true, ..p };
            lemma_shut(q);
            lemma_same_ground(q, steps::shut(q).panel);
        },
        Msg::PrimaryAction(clicked) => {
            lemma_primary(
                p,
                match clicked {
                    Some(name) => Some(name@),
                    None => None,
                },
                env,
            );
        },
        Msg::RecordingFinished(_) | Msg::GifFinished(_) | Msg::ScreenshotFinished(_) => {
            reveal(steps::finished);
            lemma_shut(p);
            lemma_same_ground(p, steps::shut(p).panel);
        },
        Msg::OutputCreated(info) => lemma_output_created(p, info),
        Msg::OutputUpdated(key, d) => lemma_output_updated(p, key, d),
        Msg::OutputRemoved(key) => lemma_output_removed(p, key),
        Msg::PointerOn(_) => {
            reveal(steps::pointer_on);
        },
        Msg::FrozenFrameReady(key, frame, sub) => lemma_frozen_ready(p, key, frame, sub),
        Msg::FrozenAllocated(key, pinned) => lemma_frozen_pinned(p, key, pinned),
        Msg::WindowsForOutputReady(_, _) => {
            reveal(steps::windows_ready);
        },
        Msg::ThumbAllocated(_, _, _) => {
            reveal(steps::thumb_pinned);
        },
        Msg::WallpaperDecoded(results) => {
            lemma_wallpapers_decoded(p.outputs, results@);
            lemma_same_ground(p, steps::stepped(p, msg, env).panel);
        },
        Msg::CaptureToplevel(identifier, on) => lemma_toplevel_captured(p, identifier, on, env),
        Msg::Quit => {
            lemma_shut(p);
            lemma_same_ground(p, steps::shut(p).panel);
        },
        Msg::FocusOutputKnown(name) => lemma_ready_mapped(
            PanelModel { focus_output: Some(name), ..p },
        ),
        _ => {},
    }
}

/// Something that is recorded or saved keeps what was chosen for it.
pub proof fn a_busy_panel_keeps_its_choice(p: PanelModel, msg: Msg, env: Env)
    requires
        p.locked(),
        msg is SetMode || msg is SetSource,
    ensures
        steps::stepped(p, msg, env) == steps::quiet(p),
{
    reveal(steps::mode_set);
    reveal(steps::source_set);
}

/// The surface that holds the focus is destroyed behind all tool bars, so that the
/// focus goes back to the output that it came from.
pub proof fn focus_is_given_back_last(p: PanelModel, id: u64)
    requires
        p.focus_catcher_id == Some(id),
    ensures
        steps::toolbars_closed(p).actions == steps::toolbars_destroyed(p.outputs).push(
            ActionModel::Plain(Action::Destroy { id }),
        ),
{
    reveal(steps::toolbars_closed);
    assert(steps::toolbars_closed(p).actions =~= steps::toolbars_destroyed(p.outputs).push(
        ActionModel::Plain(Action::Destroy { id }),
    ));
}

/// An action that opens a tool bar.
pub open spec fn opens_toolbar(a: ActionModel) -> bool {
    a matches ActionModel::Plain(Action::Open { kind, .. }) && kind == SurfaceKind::Toolbar
}

proof fn lemma_opens_only_when_wanted(infos: Seq<OutputInfo>, recording: bool, next: u64)
    ensures
        steps::toolbars_opened(infos, recording, next).actions.len() > 0
            ==> steps::some_want_toolbars(infos),
    decreases infos.len(),
{
    if infos.len() > 0 {
        let init = infos.drop_last();
        lemma_opens_only_when_wanted(init, recording, next);
        if steps::some_want_toolbars(init) {
            let i = choose|i: int| 0 <= i < init.len() && steps::wants_toolbar(#[trigger] init[i]);
            assert(steps::wants_toolbar(infos[i]));
        }
        if steps::wants_toolbar(infos.last()) {
            assert(steps::wants_toolbar(infos[infos.len() - 1]));
        }
    }
}

/// The surface that holds the focus is the last to open: where a tool bar opens
/// and the surface is there afterwards, opening it is the last thing asked for.
pub proof fn focus_is_held_last(p: PanelModel, i: int)
    requires
        0 <= i < steps::ready_mapped(p).actions.len(),
        opens_toolbar(steps::ready_mapped(p).actions[i]),
        steps::ready_mapped(p).panel.focus_catcher_id is Some,
    ensures
        ({
            let s = steps::ready_mapped(p);
            s.actions.last() matches ActionModel::Plain(Action::Open { id, kind, .. }) && kind
                == SurfaceKind::FocusCatcher && s.panel.focus_catcher_id == Some(id)
        }),
{
    let o = steps::toolbars_opened(p.outputs, p.capture is Recording, p.next_id);
    let q = PanelModel { outputs: o.outputs, next_id: o.next, ..p };
    lemma_opens_only_when_wanted(p.outputs, p.capture is Recording, p.next_id);
    if steps::some_want_toolbars(p.outputs) {
        let r = PanelModel { focus_catcher_id: None, ..q };
        let first = o.actions + steps::destroying(p.focus_catcher_id);
        assert(steps::ready_mapped(p) == steps::behind(first, steps::catcher_ensured(r))) by {
            reveal(steps::ready_mapped);
        }
        lemma_catcher(r);
        let s = steps::catcher_ensured(r);
        assert(steps::ready_mapped(p).actions =~= first + s.actions);
        assert((first + s.actions).last() == s.actions[0]);
    } else {
        assert(steps::ready_mapped(p) == steps::behind(o.actions, steps::catcher_ensured(q))) by {
            reveal(steps::ready_mapped);
        }
        lemma_catcher(q);
        assert(o.actions + steps::catcher_ensured(q).actions =~= steps::catcher_ensured(q).actions);
    }
}

proof fn lemma_catcher(p: PanelModel)
    ensures
        ({
            let s = steps::catcher_ensured(p);
            ||| s == steps::quiet(p)
            ||| s.actions.len() == 1 && s.panel.focus_catcher_id == Some(p.next_id) && (
            s.actions[0] matches ActionModel::Plain(Action::Open { id, kind, .. }) && kind
                == SurfaceKind::FocusCatcher && id == p.next_id)
        }),
{
    reveal(steps::catcher_ensured);
}

/// Tool bars open only on outputs whose freeze has come back, so that none is in
/// the picture.
pub proof fn nothing_opens_before_the_freeze(p: PanelModel, i: int)
    requires
        0 <= i < p.outputs.len(),
        p.outputs[i].toolbar_id is None,
        !p.outputs[i].freeze_done,
    ensures
        steps::ready_mapped(p).panel.outputs[i].toolbar_id is None,
{
    reveal(steps::ready_mapped);
    reveal(steps::catcher_ensured);
    lemma_toolbars_opened(p.outputs, p.capture is Recording, p.next_id);
    let o = steps::toolbars_opened(p.outputs, p.capture is Recording, p.next_id);
    assert(o.outputs[i].toolbar_id is None);
}

/// Tool bars wait for the focus to be known.
pub proof fn nothing_opens_before_the_focus_is_known(p: PanelModel)
    requires
        p.focus_output is None,
    ensures
        steps::ready_mapped(p) == steps::quiet(p),
{
    reveal(steps::ready_mapped);
}

/// Leaving destroys every surface but the placeholder, and is the last thing asked
/// for.
pub proof fn leaving_closes_every_surface(p: PanelModel)
    ensures
        ({
            let s = steps::shut(p);
            &&& s.panel.stop_pill_id is None
            &&& s.panel.focus_catcher_id is None
            &&& s.actions.last() == ActionModel::Plain(Action::Exit)
            &&& p.stop_pill_id matches Some(id) ==> s.actions.contains(
                ActionModel::Plain(Action::Destroy { id }),
            )
            &&& p.focus_catcher_id matches Some(id) ==> s.actions.contains(
                ActionModel::Plain(Action::Destroy { id }),
            )
            &&& forall|i: int|
                0 <= i < p.outputs.len() ==> {
                    &&& (#[trigger] s.panel.outputs[i]).toolbar_id is None
                    &&& s.panel.outputs[i].recording_id is None
                    &&& p.outputs[i].toolbar_id matches Some(id) ==> s.actions.contains(
                        ActionModel::Plain(Action::Destroy { id }),
                    )
                    &&& p.outputs[i].recording_id matches Some(id) ==> s.actions.contains(
                        ActionModel::Plain(Action::Destroy { id }),
                    )
                }
        }),
{
    reveal(steps::shut);
    reveal(steps::toolbars_closed);
    let s = steps::shut(p);
    let q = steps::without_borders(p.outputs);
    let first = steps::destroying(p.stop_pill_id);
    let second = steps::borders_destroyed(p.outputs);
    let third = steps::toolbars_destroyed(q);
    let fourth = steps::destroying(p.focus_catcher_id);
    assert(s.actions =~= first + second + (third + fourth) + seq![
        ActionModel::Plain(Action::Exit),
    ]);
    if let Some(id) = p.stop_pill_id {
        assert(s.actions[0] == ActionModel::Plain(Action::Destroy { id }));
    }
    if let Some(id) = p.focus_catcher_id {
        let n = first.len() + second.len() + third.len();
        assert(s.actions[n as int] == ActionModel::Plain(Action::Destroy { id }));
    }
    assert forall|i: int| 0 <= i < p.outputs.len() implies {
        &&& (#[trigger] s.panel.outputs[i]).toolbar_id is None
        &&& s.panel.outputs[i].recording_id is None
        &&& p.outputs[i].toolbar_id matches Some(id) ==> s.actions.contains(
            ActionModel::Plain(Action::Destroy { id }),
        )
        &&& p.outputs[i].recording_id matches Some(id) ==> s.actions.contains(
            ActionModel::Plain(Action::Destroy { id }),
        )
    } by {
        if let Some(id) = p.outputs[i].toolbar_id {
            let k = lemma_toolbar_is_destroyed(q, i, id);
            assert(s.actions[(first.len() + second.len() + k) as int] == third[k]);
        }
        if let Some(id) = p.outputs[i].recording_id {
            let k = lemma_border_is_destroyed(p.outputs, i, id);
            assert(s.actions[(first.len() + k) as int] == second[k]);
        }
    }
}

proof fn lemma_toolbar_is_destroyed(infos: Seq<OutputInfo>, i: int, id: u64) -> (k: int)
    requires
        0 <= i < infos.len(),
        infos[i].toolbar_id == Some(id),
    ensures
        0 <= k < steps::toolbars_destroyed(infos).len(),
        steps::toolbars_destroyed(infos)[k] == ActionModel::Plain(Action::Destroy { id }),
    decreases infos.len(),
{
    let before = steps::toolbars_destroyed(infos.drop_last());
    if i == infos.len() - 1 {
        before.len() as int
    } else {
        lemma_toolbar_is_destroyed(infos.drop_last(), i, id)
    }
}

proof fn lemma_border_is_destroyed(infos: Seq<OutputInfo>, i: int, id: u64) -> (k: int)
    requires
        0 <= i < infos.len(),
        infos[i].recording_id == Some(id),
    ensures
        0 <= k < steps::borders_destroyed(infos).len(),
        steps::borders_destroyed(infos)[k] == ActionModel::Plain(Action::Destroy { id }),
    decreases infos.len(),
{
    let before = steps::borders_destroyed(infos.drop_last());
    if i == infos.len() - 1 {
        before.len() as int
    } else {
        lemma_border_is_destroyed(infos.drop_last(), i, id)
    }
}

/// The escape key during a recording stops it without leaving, and the file is
/// deleted once it is finished.
pub proof fn a_cancelled_recording_is_deleted(p: PanelModel, now: u64, recording: bool, path: String)
    requires
        p.capture is Recording,
    ensures
        !steps::escaped(p, now).actions.contains(ActionModel::Plain(Action::Exit)),
        steps::finished(steps::escaped(p, now).panel, recording, Ok(path)).actions[0]
            == ActionModel::Plain(Action::DeleteFile { path }),
        steps::finished(steps::escaped(p, now).panel, recording, Ok(path)).actions.last()
            == ActionModel::Plain(Action::Exit),
{
    reveal(steps::escaped);
    reveal(steps::finished);
    leaving_closes_every_surface(steps::escaped(p, now).panel);
    reveal(steps::shut);
}

/// A recording that was stopped goes to the clipboard, in its format, once it is
/// finished.
pub proof fn a_stopped_recording_is_copied(
    p: PanelModel,
    clicked: Option<Seq<char>>,
    env: Env,
    path: String,
)
    requires
        p.capture is Recording,
        !p.cancel_pending,
    ensures
        steps::primary(p, clicked, env).panel.capture is Saving,
        steps::finished(steps::primary(p, clicked, env).panel, true, Ok(path)).actions[0]
            == ActionModel::Plain(Action::CopyRecording { path, format: p.record_format }),
{
    reveal(steps::primary);
    reveal(steps::finished);
}

/// A recording is told to stop once: by the main button or the escape key,
/// whichever comes first, and by neither again.
pub proof fn a_stop_is_sent_once(
    p: PanelModel,
    clicked: Option<Seq<char>>,
    again: Option<Seq<char>>,
    env: Env,
    later: Env,
)
    requires
        p.capture == (CaptureState::Recording { stop_armed: true }),
    ensures
        steps::primary(p, clicked, env).actions == seq![ActionModel::Plain(Action::SendStop)],
        steps::escaped(p, env.now).actions == seq![ActionModel::Plain(Action::SendStop)],
        steps::primary(steps::primary(p, clicked, env).panel, again, later).actions.len() == 0,
        steps::primary(steps::escaped(p, env.now).panel, again, later).actions.len() == 0,
        steps::escaped(steps::escaped(p, env.now).panel, later.now).actions.len() == 0,
        !steps::escaped(steps::primary(p, clicked, env).panel, later.now).actions.contains(
            ActionModel::Plain(Action::SendStop),
        ),
{
    reveal(steps::primary);
    reveal(steps::escaped);
    let q = PanelModel { cancel_pending: true, ..steps::primary(p, clicked, env).panel };
    lemma_leaving_sends_no_stop(q);
}

proof fn lemma_destroying_is_no_stop(infos: Seq<OutputInfo>)
    ensures
        forall|i: int|
            0 <= i < steps::toolbars_destroyed(infos).len() ==> #[trigger] steps::toolbars_destroyed(
                infos,
            )[i] != ActionModel::Plain(Action::SendStop),
        forall|i: int|
            0 <= i < steps::borders_destroyed(infos).len() ==> #[trigger] steps::borders_destroyed(
                infos,
            )[i] != ActionModel::Plain(Action::SendStop),
    decreases infos.len(),
{
    if infos.len() > 0 {
        lemma_destroying_is_no_stop(infos.drop_last());
    }
}

proof fn lemma_leaving_sends_no_stop(p: PanelModel)
    ensures
        !steps::shut(p).actions.contains(ActionModel::Plain(Action::SendStop)),
{
    reveal(steps::shut);
    reveal(steps::toolbars_closed);
    lemma_destroying_is_no_stop(p.outputs);
    lemma_destroying_is_no_stop(steps::without_borders(p.outputs));
}

/// A save that has not come to its end half a minute after the stop is given up:
/// the panel leaves, and what may still come is deleted.
pub proof fn a_stalled_save_is_given_up(p: PanelModel, t: u64, now: u64)
    requires
        p.saving_started_at == Some(t),
    ensures
        now - t > 30_000_000_000 ==> steps::ticked(p, now).panel.cancel_pending && steps::ticked(
            p,
            now,
        ).actions.last() == ActionModel::Plain(Action::Exit),
        now - t <= 30_000_000_000 ==> steps::ticked(p, now) == steps::quiet(p),
{
    reveal(steps::ticked);
    let q = PanelModel { cancel_pending: true, ..p };
    leaving_closes_every_surface(q);
    reveal(steps::shut);
    reveal(steps::toolbars_closed);
}

/// A recording that was cancelled and does not end is given up too.
pub proof fn a_stalled_cancel_is_given_up(p: PanelModel, t: u64, now: u64)
    requires
        p.capture is Recording,
        now - t > 30_000_000_000,
    ensures
        ({
            let q = steps::escaped(p, t).panel;
            steps::ticked(q, now).panel.cancel_pending && steps::ticked(q, now).actions.last()
                == ActionModel::Plain(Action::Exit)
        }),
{
    reveal(steps::escaped);
    a_stalled_save_is_given_up(steps::escaped(p, t).panel, t, now);
}

/// A surface that is no tool bar does not take the pointer from the tool bar that it
/// is on; leaving every surface does.
pub proof fn only_tool_bars_take_the_pointer(p: PanelModel, id: u64)
    requires
        steps::find_toolbar(p.outputs, id) is None,
    ensures
        steps::pointer_on(p, Some(id)) == steps::quiet(p),
        steps::pointer_on(p, None).panel.hovered_toolbar is None,
{
    reveal(steps::pointer_on);
}

} // verus!
