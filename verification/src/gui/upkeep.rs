//! What holds of the outputs, the windows and the surfaces that the panel keeps track
//! of.
use crate::capture::screencopy::CapturedFrame;
use crate::gui::config::{Mode, Source};
use crate::gui::laws;
use crate::gui::outputs::{OutputDescription, OutputInfo};
use crate::gui::steps;
use crate::gui::steps::{
    Action, ActionModel, Env, Msg, PanelModel, Slot, SurfaceKind, WindowEntry,
};
use crate::gui::stitch;
use std::sync::Arc;
use vstd::prelude::*;

verus! {

/// The same output, but for its tool bar.
pub open spec fn same_but_for_its_bar(a: OutputInfo, b: OutputInfo) -> bool {
    b == (OutputInfo { toolbar_id: b.toolbar_id, ..a })
}

/// A step asks for a surface on an output.
pub open spec fn opens(actions: Seq<ActionModel>, id: u64, kind: SurfaceKind, key: u32) -> bool {
    actions.contains(ActionModel::Plain(Action::Open { id, kind, output: Some(key) }))
}

/// A step closes a surface.
pub open spec fn closes(actions: Seq<ActionModel>, id: u64) -> bool {
    actions.contains(ActionModel::Plain(Action::Destroy { id }))
}

/// An output that comes is among the outputs from then on, as it is described; the
/// others stay, and no two have one number. It is frozen, and nothing opens before.
pub proof fn an_output_that_comes_is_frozen(p: PanelModel, info: OutputInfo, env: Env)
    requires
        steps::distinct_keys(p.outputs),
    ensures
        ({
            let s = steps::stepped(p, Msg::OutputCreated(info), env);
            let o = s.panel.outputs;
            &&& o.contains(info)
            &&& steps::distinct_keys(o)
            &&& p.outputs.len() <= o.len() <= p.outputs.len() + 1
            &&& forall|j: int|
                0 <= j < p.outputs.len() && (#[trigger] p.outputs[j]).key != info.key ==> o[j]
                    == p.outputs[j]
            &&& s.panel == (PanelModel { outputs: o, ..p })
            &&& s.actions.len() > 0
            &&& s.actions[0] == ActionModel::Plain(
                Action::Freeze { key: info.key, name: info.name, cursor: p.rec_cursor },
            )
            &&& p.source == Source::Window ==> s.actions.contains(
                ActionModel::Plain(
                    Action::ListWindows { output: info.name, cursor: p.rec_cursor },
                ),
            )
            &&& p.source != Source::Window ==> s.actions.len() == 1
        }),
{
    reveal(steps::output_created);
    laws::lemma_find_key(p.outputs, info.key);
    let s = steps::stepped(p, Msg::OutputCreated(info), env);
    let o = s.panel.outputs;
    match steps::find_key(p.outputs, info.key) {
        Some(i) => {
            assert(o[i] == info);
            assert forall|j: int|
                0 <= j < p.outputs.len() && (#[trigger] p.outputs[j]).key != info.key implies o[j]
                == p.outputs[j] by {}
            assert forall|a: int, b: int| 0 <= a < b < o.len() implies (#[trigger] o[a]).key != (
            #[trigger] o[b]).key by {
                assert(p.outputs[a].key != p.outputs[b].key);
            }
        },
        None => {
            assert(o[p.outputs.len() as int] == info);
            assert forall|a: int, b: int| 0 <= a < b < o.len() implies (#[trigger] o[a]).key != (
            #[trigger] o[b]).key by {
                assert(o[a] == p.outputs[a]);
                if b < p.outputs.len() {
                    assert(p.outputs[a].key != p.outputs[b].key);
                }
            }
        },
    }
    if p.source == Source::Window {
        assert(s.actions[1] == ActionModel::Plain(
            Action::ListWindows { output: info.name, cursor: p.rec_cursor },
        ));
    }
}

/// An output that goes takes its windows and its surfaces with it, and nothing else.
pub proof fn an_output_that_goes_leaves_nothing(p: PanelModel, i: int, env: Env)
    requires
        steps::distinct_keys(p.outputs),
        0 <= i < p.outputs.len(),
    ensures
        ({
            let gone = p.outputs[i];
            let s = steps::stepped(p, Msg::OutputRemoved(gone.key), env);
            &&& forall|j: int|
                0 <= j < s.panel.outputs.len() ==> (#[trigger] s.panel.outputs[j]).key != gone.key
            &&& forall|j: int|
                0 <= j < p.outputs.len() && j != i ==> s.panel.outputs.contains(
                    #[trigger] p.outputs[j],
                )
            &&& s.panel.outputs.len() == p.outputs.len() - 1
            &&& forall|j: int|
                0 <= j < s.panel.windows.len() ==> (#[trigger] s.panel.windows[j]).output@
                    != gone.name@
            &&& forall|j: int|
                0 <= j < p.windows.len() && (#[trigger] p.windows[j]).output@ != gone.name@
                    ==> s.panel.windows.contains(p.windows[j])
            &&& !steps::listed_in(s.panel.listed, gone.name@)
            &&& !steps::listed_in(s.panel.picker_painted, gone.name@)
            &&& gone.toolbar_id matches Some(id) ==> closes(s.actions, id)
            &&& gone.recording_id matches Some(id) ==> closes(s.actions, id)
            &&& s.panel.capture == p.capture
            &&& s.panel.region == p.region
        }),
{
    reveal(steps::output_removed);
    let gone = p.outputs[i];
    laws::lemma_find_key(p.outputs, gone.key);
    let f = steps::find_key(p.outputs, gone.key)->0;
    if f < i {
        assert(p.outputs[f].key != p.outputs[i].key);
    } else if i < f {
        assert(p.outputs[i].key != p.outputs[f].key);
    }
    let s = steps::stepped(p, Msg::OutputRemoved(gone.key), env);
    let o = s.panel.outputs;
    assert(o == p.outputs.remove(i));
    assert forall|j: int| 0 <= j < o.len() implies (#[trigger] o[j]).key != gone.key by {
        let k = if j < i { j } else { j + 1 };
        assert(o[j] == p.outputs[k]);
        if k < i {
            assert(p.outputs[k].key != p.outputs[i].key);
        } else {
            assert(p.outputs[i].key != p.outputs[k].key);
        }
    }
    assert forall|j: int| 0 <= j < p.outputs.len() && j != i implies o.contains(
        #[trigger] p.outputs[j],
    ) by {
        if j < i {
            assert(o[j] == p.outputs[j]);
        } else {
            assert(o[j - 1] == p.outputs[j]);
        }
    }
    lemma_elsewhere(p.windows, gone.name@);
    lemma_without(p.listed, gone.name@);
    lemma_without(p.picker_painted, gone.name@);
    let a = steps::destroying(gone.toolbar_id);
    let b = steps::destroying(gone.recording_id);
    if gone.toolbar_id is Some {
        assert(s.actions[0] == a[0]);
    }
    if gone.recording_id is Some {
        assert(s.actions[a.len() as int] == b[0]);
    }
}

proof fn lemma_elsewhere(windows: Seq<WindowEntry>, name: Seq<char>)
    ensures
        ({
            let there = steps::windows_elsewhere(windows, name);
            &&& forall|j: int| 0 <= j < there.len() ==> (#[trigger] there[j]).output@ != name
            &&& forall|j: int|
                0 <= j < windows.len() && (#[trigger] windows[j]).output@ != name
                    ==> there.contains(windows[j])
        }),
{
    broadcast use vstd::seq_lib::group_filter_ensures;

    let keep = |e: WindowEntry| e.output@ != name;
    let there = steps::windows_elsewhere(windows, name);
    assert forall|j: int| 0 <= j < windows.len() && (#[trigger] windows[j]).output@
        != name implies there.contains(windows[j]) by {
        windows.lemma_filter_contains(keep, j);
    }
}

proof fn lemma_without(texts: Seq<String>, t: Seq<char>)
    ensures
        !steps::listed_in(steps::without(texts, t), t),
{
    broadcast use vstd::seq_lib::group_filter_ensures;

}

/// Opening tool bars changes nothing of an output but its tool bar. Where they may
/// open, every output that is frozen has one, and those that are new are asked for on
/// their own outputs.
proof fn lemma_toolbars_opened(infos: Seq<OutputInfo>, recording: bool, next: u64)
    ensures
        ({
            let s = steps::toolbars_opened(infos, recording, next);
            &&& s.outputs.len() == infos.len()
            &&& forall|i: int|
                #![trigger s.outputs[i]]
                0 <= i < infos.len() ==> {
                    &&& same_but_for_its_bar(infos[i], s.outputs[i])
                    &&& infos[i].toolbar_id is Some ==> s.outputs[i] == infos[i]
                    &&& infos[i].freeze_done && !recording ==> s.outputs[i].toolbar_id is Some
                    &&& recording || !infos[i].freeze_done ==> s.outputs[i] == infos[i]
                    &&& infos[i].toolbar_id is None && s.outputs[i].toolbar_id is Some ==> opens(
                        s.actions,
                        s.outputs[i].toolbar_id->0,
                        SurfaceKind::Toolbar,
                        infos[i].key,
                    )
                }
        }),
    decreases infos.len(),
{
    if infos.len() > 0 {
        let init = infos.drop_last();
        let n = infos.len() - 1;
        let before = steps::toolbars_opened(init, recording, next);
        let s = steps::toolbars_opened(infos, recording, next);
        lemma_toolbars_opened(init, recording, next);
        assert forall|i: int|
            #![trigger s.outputs[i]]
            0 <= i < infos.len() implies {
            &&& same_but_for_its_bar(infos[i], s.outputs[i])
            &&& infos[i].toolbar_id is Some ==> s.outputs[i] == infos[i]
            &&& infos[i].freeze_done && !recording ==> s.outputs[i].toolbar_id is Some
            &&& recording || !infos[i].freeze_done ==> s.outputs[i] == infos[i]
            &&& infos[i].toolbar_id is None && s.outputs[i].toolbar_id is Some ==> opens(
                s.actions,
                s.outputs[i].toolbar_id->0,
                SurfaceKind::Toolbar,
                infos[i].key,
            )
        } by {
            if i < n {
                assert(s.outputs[i] == before.outputs[i]);
                assert(infos[i] == init[i]);
                if infos[i].toolbar_id is None && s.outputs[i].toolbar_id is Some {
                    let a = ActionModel::Plain(
                        Action::Open {
                            id: s.outputs[i].toolbar_id->0,
                            kind: SurfaceKind::Toolbar,
                            output: Some(infos[i].key),
                        },
                    );
                    let k = choose|k: int| 0 <= k < before.actions.len() && before.actions[k] == a;
                    assert(s.actions[k] == a);
                }
            } else {
                assert(infos[i] == infos.last());
                if infos[i].toolbar_id is None && s.outputs[i].toolbar_id is Some {
                    assert(s.actions[before.actions.len() as int] == s.actions.last());
                }
            }
        }
    }
}

/// Once the focus is known, every output that is frozen has its tool bar, unless
/// something is recorded; nothing else of an output changes.
pub proof fn frozen_outputs_have_their_bars(p: PanelModel, i: int)
    requires
        p.focus_output is Some,
        0 <= i < p.outputs.len(),
    ensures
        ({
            let s = steps::ready_mapped(p);
            let o = s.panel.outputs;
            &&& o.len() == p.outputs.len()
            &&& same_but_for_its_bar(p.outputs[i], o[i])
            &&& p.outputs[i].freeze_done && !(p.capture is Recording) ==> o[i].toolbar_id is Some
            &&& p.outputs[i].toolbar_id is None && o[i].toolbar_id is Some ==> opens(
                s.actions,
                o[i].toolbar_id->0,
                SurfaceKind::Toolbar,
                p.outputs[i].key,
            )
            &&& p.outputs[i].toolbar_id is Some ==> o[i] == p.outputs[i]
        }),
{
    reveal(steps::ready_mapped);
    reveal(steps::catcher_ensured);
    lemma_toolbars_opened(p.outputs, p.capture is Recording, p.next_id);
    let t = steps::toolbars_opened(p.outputs, p.capture is Recording, p.next_id);
    let s = steps::ready_mapped(p);
    assert(s.panel.outputs == t.outputs);
    if p.outputs[i].toolbar_id is None && t.outputs[i].toolbar_id is Some {
        let a = ActionModel::Plain(
            Action::Open {
                id: t.outputs[i].toolbar_id->0,
                kind: SurfaceKind::Toolbar,
                output: Some(p.outputs[i].key),
            },
        );
        let k = choose|k: int| 0 <= k < t.actions.len() && t.actions[k] == a;
        assert(s.actions[k] == a);
    }
}

proof fn lemma_ready_mapped(p: PanelModel)
    ensures
        ({
            let s = steps::ready_mapped(p);
            &&& s.panel.outputs.len() == p.outputs.len()
            &&& forall|i: int|
                #![trigger s.panel.outputs[i]]
                0 <= i < p.outputs.len() ==> same_but_for_its_bar(
                    p.outputs[i],
                    s.panel.outputs[i],
                )
        }),
{
    if p.focus_output is Some {
        assert forall|i: int|
            #![trigger steps::ready_mapped(p).panel.outputs[i]]
            0 <= i < p.outputs.len() implies same_but_for_its_bar(
            p.outputs[i],
            steps::ready_mapped(p).panel.outputs[i],
        ) by {
            frozen_outputs_have_their_bars(p, i);
        }
        if p.outputs.len() > 0 {
            frozen_outputs_have_their_bars(p, 0);
        } else {
            reveal(steps::ready_mapped);
            reveal(steps::catcher_ensured);
            lemma_toolbars_opened(p.outputs, p.capture is Recording, p.next_id);
        }
    } else {
        reveal(steps::ready_mapped);
    }
}

/// The output with a number is found at its own place.
proof fn lemma_own_place(infos: Seq<OutputInfo>, i: int)
    requires
        steps::distinct_keys(infos),
        0 <= i < infos.len(),
    ensures
        steps::find_key(infos, infos[i].key) == Some(i),
{
    laws::lemma_find_key(infos, infos[i].key);
    let f = steps::find_key(infos, infos[i].key)->0;
    if f < i {
        assert(infos[f].key != infos[i].key);
    } else if i < f {
        assert(infos[i].key != infos[f].key);
    }
}

/// A frame that comes back is the freeze of the output that it was taken of, which no
/// other output gets; the output's tool bar opens, once the focus is known and while
/// nothing is recorded. The frame is pinned where the compositor does not show it by
/// itself.
pub proof fn a_freeze_belongs_to_its_output(
    p: PanelModel,
    i: int,
    frame: Option<Arc<CapturedFrame>>,
    sub: bool,
    env: Env,
)
    requires
        steps::distinct_keys(p.outputs),
        0 <= i < p.outputs.len(),
    ensures
        ({
            let key = p.outputs[i].key;
            let s = steps::stepped(p, Msg::FrozenFrameReady(key, frame, sub), env);
            let o = s.panel.outputs;
            &&& o.len() == p.outputs.len()
            &&& forall|j: int|
                #![trigger o[j]]
                0 <= j < o.len() && j != i ==> same_but_for_its_bar(p.outputs[j], o[j])
            &&& o[i].freeze_done
            &&& o[i].key == key
            &&& o[i].name == p.outputs[i].name
            &&& o[i].logical_pos == p.outputs[i].logical_pos
            &&& o[i].logical_size == p.outputs[i].logical_size
            &&& o[i].physical_size == p.outputs[i].physical_size
            &&& frame is Some ==> o[i].frozen == frame
            &&& frame is None ==> o[i].frozen == p.outputs[i].frozen
            &&& frame is Some && sub ==> o[i].frozen_sub
            &&& frame is Some && !sub ==> o[i].frozen_texture && s.actions.contains(
                ActionModel::Plain(Action::PinFreeze { key }),
            )
            &&& p.focus_output is Some && !(p.capture is Recording) ==> o[i].toolbar_id is Some
        }),
{
    let key = p.outputs[i].key;
    lemma_own_place(p.outputs, i);
    let old = p.outputs[i];
    let info = match frame {
        None => OutputInfo { freeze_done: true, ..old },
        Some(f) => if sub {
            OutputInfo { freeze_done: true, frozen: Some(f), frozen_sub: true, ..old }
        } else {
            OutputInfo { freeze_done: true, frozen: Some(f), frozen_texture: true, ..old }
        },
    };
    let q = PanelModel { outputs: p.outputs.update(i, info), ..p };
    let r = steps::ready_mapped(q);
    let s = steps::stepped(p, Msg::FrozenFrameReady(key, frame, sub), env);
    assert(s.panel == r.panel && (frame is Some && !sub ==> s.actions == r.actions.push(
        ActionModel::Plain(Action::PinFreeze { key }),
    ))) by {
        reveal(steps::frozen_ready);
    }
    lemma_ready_mapped(q);
    assert(q.outputs[i] == info);
    assert forall|j: int|
        #![trigger r.panel.outputs[j]]
        0 <= j < r.panel.outputs.len() && j != i implies same_but_for_its_bar(
        p.outputs[j],
        r.panel.outputs[j],
    ) by {
        assert(q.outputs[j] == p.outputs[j]);
    }
    assert(same_but_for_its_bar(info, r.panel.outputs[i]));
    if p.focus_output is Some {
        frozen_outputs_have_their_bars(q, i);
    }
    if frame is Some && !sub {
        assert(s.actions.last() == ActionModel::Plain(Action::PinFreeze { key }));
    }
}

/// What the compositor says anew of an output is known of that output, and of no
/// other; what it does not say stays as it was.
pub proof fn news_of_an_output_are_its_own(p: PanelModel, i: int, d: OutputDescription, env: Env)
    requires
        steps::distinct_keys(p.outputs),
        0 <= i < p.outputs.len(),
    ensures
        ({
            let s = steps::stepped(p, Msg::OutputUpdated(p.outputs[i].key, d), env);
            let o = s.panel.outputs;
            &&& o.len() == p.outputs.len()
            &&& forall|j: int|
                #![trigger o[j]]
                0 <= j < o.len() && j != i ==> same_but_for_its_bar(p.outputs[j], o[j])
            &&& o[i].key == p.outputs[i].key
            &&& o[i].physical_size == d.physical()
            &&& o[i].name == (if d.name is Some {
                d.name->0
            } else {
                p.outputs[i].name
            })
            &&& d.logical_position is Some ==> o[i].logical_pos == d.logical_position->0
            &&& d.logical_position is None ==> o[i].logical_pos == p.outputs[i].logical_pos
            &&& d.logical_size matches Some(z) ==> (z.0 >= 0 && z.1 >= 0 ==> o[i].logical_size.0
                == z.0 && o[i].logical_size.1 == z.1)
            &&& d.logical_size is None ==> o[i].logical_size == p.outputs[i].logical_size
            &&& o[i].frozen == p.outputs[i].frozen
            &&& o[i].freeze_done == p.outputs[i].freeze_done
            &&& o[i].recording_id == p.outputs[i].recording_id
            &&& p.outputs[i].freeze_done && p.focus_output is Some && !(p.capture is Recording)
                ==> o[i].toolbar_id is Some
        }),
{
    let key = p.outputs[i].key;
    lemma_own_place(p.outputs, i);
    let info = steps::updated(p.outputs[i], d);
    let q = PanelModel { outputs: p.outputs.update(i, info), ..p };
    let r = steps::ready_mapped(q);
    let s = steps::stepped(p, Msg::OutputUpdated(key, d), env);
    assert(s == if p.outputs[i].freeze_done {
        r
    } else {
        steps::quiet(q)
    }) by {
        reveal(steps::output_updated);
    }
    lemma_ready_mapped(q);
    assert(q.outputs[i] == info);
    assert forall|j: int|
        #![trigger s.panel.outputs[j]]
        0 <= j < s.panel.outputs.len() && j != i implies same_but_for_its_bar(
        p.outputs[j],
        s.panel.outputs[j],
    ) by {
        assert(q.outputs[j] == p.outputs[j]);
        assert(same_but_for_its_bar(q.outputs[j], r.panel.outputs[j]));
    }
    assert(same_but_for_its_bar(info, r.panel.outputs[i]));
    if p.focus_output is Some {
        frozen_outputs_have_their_bars(q, i);
    }
}

proof fn lemma_borders_opened(infos: Seq<OutputInfo>, next: u64)
    ensures
        ({
            let s = steps::borders_opened(infos, next);
            &&& s.outputs.len() == infos.len()
            &&& forall|i: int|
                #![trigger s.outputs[i]]
                0 <= i < infos.len() ==> {
                    &&& s.outputs[i] == (OutputInfo {
                        recording_id: s.outputs[i].recording_id,
                        ..infos[i]
                    })
                    &&& s.outputs[i].recording_id is Some
                    &&& opens(
                        s.actions,
                        s.outputs[i].recording_id->0,
                        SurfaceKind::Recording,
                        infos[i].key,
                    )
                    &&& infos[i].recording_id matches Some(id) ==> closes(s.actions, id)
                }
        }),
    decreases infos.len(),
{
    if infos.len() > 0 {
        let init = infos.drop_last();
        let n = infos.len() - 1;
        let before = steps::borders_opened(init, next);
        let s = steps::borders_opened(infos, next);
        lemma_borders_opened(init, next);
        let d = steps::destroying(infos.last().recording_id);
        let m = before.actions.len() as int;
        assert forall|k: int| 0 <= k < m implies #[trigger] s.actions[k] == before.actions[k] by {}
        assert forall|i: int|
            #![trigger s.outputs[i]]
            0 <= i < infos.len() implies {
            &&& s.outputs[i] == (OutputInfo { recording_id: s.outputs[i].recording_id, ..infos[i] })
            &&& s.outputs[i].recording_id is Some
            &&& opens(
                s.actions,
                s.outputs[i].recording_id->0,
                SurfaceKind::Recording,
                infos[i].key,
            )
            &&& infos[i].recording_id matches Some(id) ==> closes(s.actions, id)
        } by {
            if i < n {
                assert(s.outputs[i] == before.outputs[i]);
                assert(infos[i] == init[i]);
                let a = ActionModel::Plain(
                    Action::Open {
                        id: s.outputs[i].recording_id->0,
                        kind: SurfaceKind::Recording,
                        output: Some(infos[i].key),
                    },
                );
                let k = choose|k: int| 0 <= k < m && before.actions[k] == a;
                assert(s.actions[k] == a);
                if infos[i].recording_id is Some {
                    let b = ActionModel::Plain(
                        Action::Destroy { id: infos[i].recording_id->0 },
                    );
                    let k = choose|k: int| 0 <= k < m && before.actions[k] == b;
                    assert(s.actions[k] == b);
                }
            } else {
                assert(infos[i] == infos.last());
                assert(s.actions[m + d.len()] == s.actions.last());
                if infos[i].recording_id is Some {
                    assert(s.actions[m] == d[0]);
                }
            }
        }
    }
}

/// When a recording starts, every output has its border, in the place of an old one;
/// the pill is open, and neither a tool bar nor the surface that holds the focus is.
pub proof fn a_recording_has_its_borders_and_its_pill(p: PanelModel, i: int)
    requires
        0 <= i < p.outputs.len(),
    ensures
        ({
            let s = steps::switched_over(p);
            let o = s.panel.outputs;
            &&& o.len() == p.outputs.len()
            &&& o[i] == (OutputInfo {
                toolbar_id: None,
                recording_id: o[i].recording_id,
                ..p.outputs[i]
            })
            &&& o[i].recording_id is Some
            &&& opens(
                s.actions,
                o[i].recording_id->0,
                SurfaceKind::Recording,
                p.outputs[i].key,
            )
            &&& p.outputs[i].recording_id matches Some(id) ==> closes(s.actions, id)
            &&& s.panel.stop_pill_id is Some
            &&& s.panel.focus_catcher_id is None
        }),
{
    reveal(steps::switched_over);
    reveal(steps::toolbars_closed);
    reveal(steps::overlays_opened);
    let a = steps::toolbars_closed(p);
    let b = steps::pill_opened(a.panel);
    assert(b.panel.outputs == a.panel.outputs && b.panel.stop_pill_id is Some
        && b.panel.focus_catcher_id == a.panel.focus_catcher_id) by {
        reveal(steps::pill_opened);
    }
    let c = steps::borders_opened(b.panel.outputs, b.panel.next_id);
    lemma_borders_opened(b.panel.outputs, b.panel.next_id);
    let s = steps::switched_over(p);
    assert(s.panel.outputs == c.outputs);
    let m = a.actions.len() + b.actions.len();
    assert forall|k: int| 0 <= k < c.actions.len() implies c.actions[k] == #[trigger] s.actions[m
        + k] by {}
    let o = s.panel.outputs;
    let x = ActionModel::Plain(
        Action::Open {
            id: o[i].recording_id->0,
            kind: SurfaceKind::Recording,
            output: Some(p.outputs[i].key),
        },
    );
    let k = choose|k: int| 0 <= k < c.actions.len() && c.actions[k] == x;
    assert(s.actions[m + k] == x);
    if p.outputs[i].recording_id is Some {
        let y = ActionModel::Plain(Action::Destroy { id: p.outputs[i].recording_id->0 });
        let k = choose|k: int| 0 <= k < c.actions.len() && c.actions[k] == y;
        assert(s.actions[m + k] == y);
    }
}

/// The pill opens on the output that is recorded, under a number of its own; where it is
/// open already, nothing happens.
pub proof fn the_pill_opens_where_it_is_recorded(p: PanelModel, i: int)
    requires
        0 <= i < p.outputs.len(),
        p.recording_target_output matches Some(n) && n@ == p.outputs[i].name@,
        forall|j: int| 0 <= j < i ==> (#[trigger] p.outputs[j]).name@ != p.outputs[i].name@,
    ensures
        ({
            let s = steps::pill_opened(p);
            &&& p.stop_pill_id is Some ==> s.panel == p && s.actions.len() == 0
            &&& p.stop_pill_id is None ==> {
                &&& s.panel.stop_pill_id == Some(p.next_id)
                &&& s.panel.next_id != p.next_id
                &&& s.actions.len() == 1
                &&& s.actions[0] == ActionModel::Plain(
                    Action::Open {
                        id: p.next_id,
                        kind: SurfaceKind::StopPill,
                        output: Some(p.outputs[i].key),
                    },
                )
            }
        }),
{
    reveal(steps::pill_opened);
    stitch::lemma_find_named(p.outputs, p.outputs[i].name@);
    let f = stitch::find_named(p.outputs, p.outputs[i].name@);
    assert(f is Some);
    if f->0 < i {
        assert(p.outputs[f->0].name@ != p.outputs[i].name@);
    }
}

/// Whether an output's freeze is pinned is known of that output, and of no other.
pub proof fn a_pinned_freeze_is_its_outputs(p: PanelModel, i: int, pinned: bool, env: Env)
    requires
        steps::distinct_keys(p.outputs),
        0 <= i < p.outputs.len(),
    ensures
        ({
            let s = steps::stepped(p, Msg::FrozenAllocated(p.outputs[i].key, pinned), env);
            let o = s.panel.outputs;
            &&& s.panel == (PanelModel { outputs: o, ..p })
            &&& o.len() == p.outputs.len()
            &&& o[i] == (OutputInfo { frozen_pinned: pinned, ..p.outputs[i] })
            &&& forall|j: int| 0 <= j < o.len() && j != i ==> #[trigger] o[j] == p.outputs[j]
            &&& s.actions.len() == 0
        }),
{
    reveal(steps::frozen_pinned);
    lemma_own_place(p.outputs, i);
}

/// Whether a thumbnail is pinned is known of the window at its output and place, and of
/// no other.
pub proof fn a_pinned_thumbnail_is_its_windows(
    p: PanelModel,
    output: String,
    index: u64,
    pinned: bool,
    k: int,
    env: Env,
)
    requires
        0 <= k < p.windows.len(),
    ensures
        ({
            let s = steps::stepped(p, Msg::ThumbAllocated(output, index, pinned), env);
            let e = p.windows[k];
            let f = s.panel.windows[k];
            &&& s.panel == (PanelModel { windows: s.panel.windows, ..p })
            &&& s.panel.windows.len() == p.windows.len()
            &&& f == (WindowEntry { pinned: f.pinned, ..e })
            &&& e.output@ == output@ && e.index == index ==> f.pinned == pinned
            &&& e.output@ != output@ || e.index != index ==> f.pinned == e.pinned
            &&& s.actions.len() == 0
        }),
{
    reveal(steps::thumb_pinned);
}

/// A wallpaper that was decoded can be drawn on its output; one that could not be
/// is looked for no more. No other output changes.
pub proof fn a_decoded_wallpaper_is_its_outputs(p: PanelModel, i: int, ok: bool, results: Vec<(u32, bool)>, env: Env)
    requires
        steps::distinct_keys(p.outputs),
        0 <= i < p.outputs.len(),
        results@ == seq![(p.outputs[i].key, ok)],
    ensures
        ({
            let s = steps::stepped(p, Msg::WallpaperDecoded(results), env);
            let o = s.panel.outputs;
            &&& s.panel == (PanelModel { outputs: o, ..p })
            &&& o.len() == p.outputs.len()
            &&& ok ==> o[i] == (OutputInfo { wallpaper_ready: true, ..p.outputs[i] })
            &&& !ok ==> o[i] == (OutputInfo { bg_source: None, ..p.outputs[i] })
            &&& forall|j: int| 0 <= j < o.len() && j != i ==> #[trigger] o[j] == p.outputs[j]
            &&& s.actions.len() == 0
        }),
{
    lemma_own_place(p.outputs, i);
    let r = results@;
    assert(r.drop_last() =~= Seq::empty());
    assert(r.last() == (p.outputs[i].key, ok));
    reveal_with_fuel(steps::wallpapers_decoded, 2);
    assert(steps::wallpapers_decoded(p.outputs, r.drop_last()) == p.outputs);
}

/// A window's stream that failed runs no more; the other streams do.
pub proof fn a_failed_stream_runs_no_more(p: PanelModel, identifier: String, env: Env)
    ensures
        ({
            let s = steps::stepped(p, Msg::StreamFailed(identifier), env);
            &&& s.panel == (PanelModel { streaming_sessions: s.panel.streaming_sessions, ..p })
            &&& !steps::listed_in(s.panel.streaming_sessions, identifier@)
            &&& forall|j: int|
                0 <= j < p.streaming_sessions.len() && (#[trigger] p.streaming_sessions[j])@
                    != identifier@ ==> s.panel.streaming_sessions.contains(p.streaming_sessions[j])
            &&& s.actions.len() == 0
        }),
{
    lemma_without(p.streaming_sessions, identifier@);
    let keep = |s: String| s@ != identifier@;
    let left = steps::without(p.streaming_sessions, identifier@);
    assert forall|j: int| 0 <= j < p.streaming_sessions.len() && (
    #[trigger] p.streaming_sessions[j])@ != identifier@ implies left.contains(
        p.streaming_sessions[j],
    ) by {
        p.streaming_sessions.lemma_filter_contains(keep, j);
    }
}

/// An output's picker that was painted is known to be, once.
pub proof fn a_painted_picker_is_known(p: PanelModel, output: String, env: Env)
    ensures
        ({
            let s = steps::stepped(p, Msg::PickerPainted(output), env);
            &&& s.panel == (PanelModel { picker_painted: s.panel.picker_painted, ..p })
            &&& steps::listed_in(s.panel.picker_painted, output@)
            &&& steps::listed_in(p.picker_painted, output@) ==> s.panel == p
            &&& forall|j: int|
                0 <= j < p.picker_painted.len() ==> #[trigger] s.panel.picker_painted[j]
                    == p.picker_painted[j]
            &&& s.actions.len() == 0
        }),
{
    let s = steps::stepped(p, Msg::PickerPainted(output), env);
    if !steps::listed_in(p.picker_painted, output@) {
        assert(s.panel.picker_painted[p.picker_painted.len() as int] == output);
    }
}

/// Every window has one slot, every slot one window, and the next slot is a new one.
pub open spec fn slots_apart(slots: Seq<Slot>, next: u64) -> bool {
    &&& forall|a: int, b: int|
        0 <= a < b < slots.len() ==> (#[trigger] slots[a]).identifier@ != (
        #[trigger] slots[b]).identifier@ && slots[a].id != slots[b].id
    &&& forall|a: int| 0 <= a < slots.len() ==> (#[trigger] slots[a]).id < next
}

/// A window has a slot.
pub open spec fn has_slot(slots: Seq<Slot>, identifier: Seq<char>, id: u64) -> bool {
    exists|m: int|
        0 <= m < slots.len() && (#[trigger] slots[m]).identifier@ == identifier && slots[m].id == id
}

proof fn lemma_find_slot(slots: Seq<Slot>, identifier: Seq<char>)
    ensures
        match steps::find_slot(slots, identifier) {
            Some(i) => 0 <= i < slots.len() && slots[i].identifier@ == identifier,
            None => forall|j: int|
                0 <= j < slots.len() ==> (#[trigger] slots[j]).identifier@ != identifier,
        },
    decreases slots.len(),
{
    if slots.len() > 0 {
        let init = slots.drop_last();
        lemma_find_slot(init, identifier);
        assert forall|j: int| 0 <= j < init.len() implies #[trigger] slots[j] == init[j] by {}
    }
}

proof fn lemma_slotted(slots: Seq<Slot>, next: u64, output: String, entries: Seq<WindowEntry>)
    requires
        slots_apart(slots, next),
        next + entries.len() <= u64::MAX,
    ensures
        ({
            let s = steps::slotted(slots, next, output, entries);
            &&& next <= s.next <= next + entries.len()
            &&& slots_apart(s.slots, s.next)
            &&& slots.len() <= s.slots.len()
            &&& forall|m: int| 0 <= m < slots.len() ==> #[trigger] s.slots[m] == slots[m]
            &&& s.entries.len() == entries.len()
            &&& s.actions.len() == entries.len()
            &&& forall|k: int|
                #![trigger s.entries[k]]
                0 <= k < entries.len() ==> {
                    &&& s.entries[k] == (WindowEntry {
                        output,
                        index: k as u64,
                        streaming: s.entries[k].streaming,
                        ..entries[k]
                    })
                    &&& s.entries[k].streaming matches Some(id) && has_slot(
                        s.slots,
                        entries[k].identifier@,
                        id,
                    )
                    &&& s.actions[k] == ActionModel::Plain(
                        Action::Publish {
                            slot: s.entries[k].streaming->0,
                            frame: entries[k].frozen,
                        },
                    )
                }
        }),
    decreases entries.len(),
{
    if entries.len() > 0 {
        let init = entries.drop_last();
        let n = entries.len() - 1;
        let before = steps::slotted(slots, next, output, init);
        let s = steps::slotted(slots, next, output, entries);
        lemma_slotted(slots, next, output, init);
        let e = entries.last();
        lemma_find_slot(before.slots, e.identifier@);
        let at = steps::find_slot(before.slots, e.identifier@);
        let id = s.entries[n].streaming->0;
        if at is Some {
            assert(s.slots[at->0].id == id);
        } else {
            assert(s.slots[before.slots.len() as int] == (Slot { identifier: e.identifier, id }));
        }
        assert(has_slot(s.slots, e.identifier@, id));
        assert forall|m: int| 0 <= m < before.slots.len() implies #[trigger] s.slots[m]
            == before.slots[m] by {}
        assert forall|m: int| 0 <= m < slots.len() implies #[trigger] s.slots[m] == slots[m] by {
            assert(before.slots[m] == slots[m]);
        }
        assert forall|k: int|
            #![trigger s.entries[k]]
            0 <= k < entries.len() implies {
            &&& s.entries[k] == (WindowEntry {
                output,
                index: k as u64,
                streaming: s.entries[k].streaming,
                ..entries[k]
            })
            &&& s.entries[k].streaming matches Some(id) && has_slot(
                s.slots,
                entries[k].identifier@,
                id,
            )
            &&& s.actions[k] == ActionModel::Plain(
                Action::Publish { slot: s.entries[k].streaming->0, frame: entries[k].frozen },
            )
        } by {
            if k < n {
                assert(s.entries[k] == before.entries[k]);
                assert(entries[k] == init[k]);
                let m = choose|m: int|
                    0 <= m < before.slots.len() && (#[trigger] before.slots[m]).identifier@
                        == entries[k].identifier@ && before.slots[m].id
                        == s.entries[k].streaming->0;
                assert(s.slots[m] == before.slots[m]);
            } else {
                assert(entries[k] == e);
            }
        }
    }
}

proof fn lemma_streamed(sessions: Seq<String>, entries: Seq<WindowEntry>)
    ensures
        ({
            let s = steps::streamed(sessions, entries);
            &&& sessions.len() <= s.sessions.len()
            &&& forall|j: int| 0 <= j < sessions.len() ==> #[trigger] s.sessions[j] == sessions[j]
            &&& forall|j: int|
                sessions.len() <= j < s.sessions.len() ==> steps::known_window(
                    entries,
                    (#[trigger] s.sessions[j])@,
                )
            &&& forall|k: int|
                0 <= k < entries.len() && (#[trigger] entries[k]).streaming is Some
                    ==> steps::listed_in(s.sessions, entries[k].identifier@)
        }),
    decreases entries.len(),
{
    if entries.len() > 0 {
        let init = entries.drop_last();
        let n = entries.len() - 1;
        let before = steps::streamed(sessions, init);
        let s = steps::streamed(sessions, entries);
        lemma_streamed(sessions, init);
        assert(entries.last() == entries[n]);
        assert forall|j: int| 0 <= j < before.sessions.len() implies #[trigger] s.sessions[j]
            == before.sessions[j] by {}
        assert forall|j: int| 0 <= j < sessions.len() implies #[trigger] s.sessions[j]
            == sessions[j] by {
            assert(before.sessions[j] == sessions[j]);
        }
        assert forall|j: int| sessions.len() <= j < s.sessions.len() implies steps::known_window(
            entries,
            (#[trigger] s.sessions[j])@,
        ) by {
            if j < before.sessions.len() {
                assert(before.sessions[j] == s.sessions[j]);
                let i = choose|i: int|
                    0 <= i < init.len() && (#[trigger] init[i]).identifier@ == s.sessions[j]@;
                assert(entries[i] == init[i]);
            } else {
                assert(s.sessions[j] == entries[n].identifier);
            }
        }
        assert forall|k: int| 0 <= k < entries.len() && (
        #[trigger] entries[k]).streaming is Some implies steps::listed_in(
            s.sessions,
            entries[k].identifier@,
        ) by {
            if k < n {
                assert(entries[k] == init[k]);
                let j = choose|j: int|
                    0 <= j < before.sessions.len() && (#[trigger] before.sessions[j])@
                        == entries[k].identifier@;
                assert(s.sessions[j] == before.sessions[j]);
            } else if !steps::listed_in(before.sessions, entries[n].identifier@) {
                assert(s.sessions[before.sessions.len() as int] == entries[n].identifier);
            }
        }
    }
}

/// The windows of an output that were captured take the place of those that were on it,
/// in their order; the windows on the other outputs stay. Each has its slot, the same
/// for the same window and another for another one, and its frame goes there.
pub proof fn captured_windows_have_their_slots(
    p: PanelModel,
    output: String,
    entries: Vec<WindowEntry>,
    k: int,
    l: int,
    env: Env,
)
    requires
        slots_apart(p.shared_frames, p.next_slot),
        p.next_slot + entries@.len() <= u64::MAX,
        0 <= k < entries@.len(),
        0 <= l < entries@.len(),
    ensures
        ({
            let s = steps::stepped(p, Msg::WindowsForOutputReady(output, entries), env);
            let w = s.panel.windows;
            let n = w.len() - entries@.len();
            &&& n >= 0
            &&& forall|j: int| 0 <= j < n ==> (#[trigger] w[j]).output@ != output@
            &&& forall|j: int|
                0 <= j < p.windows.len() && (#[trigger] p.windows[j]).output@ != output@
                    ==> w.take(n).contains(p.windows[j])
            &&& w[n + k] == (WindowEntry {
                output,
                index: k as u64,
                streaming: w[n + k].streaming,
                ..entries@[k]
            })
            &&& w[n + k].streaming is Some
            &&& w[n + k].streaming == w[n + l].streaming <==> entries@[k].identifier@
                == entries@[l].identifier@
            &&& forall|m: int|
                0 <= m < p.shared_frames.len() && (#[trigger] p.shared_frames[m]).identifier@
                    == entries@[k].identifier@ ==> w[n + k].streaming == Some(p.shared_frames[m].id)
            &&& s.actions.contains(
                ActionModel::Plain(
                    Action::Publish { slot: w[n + k].streaming->0, frame: entries@[k].frozen },
                ),
            )
            &&& s.actions.contains(
                ActionModel::Plain(Action::PinThumb { output, index: k as u64 }),
            )
            &&& s.actions.last() == ActionModel::Plain(Action::SettlePaint { output })
            &&& steps::listed_in(s.panel.listed, output@)
        }),
{
    reveal(steps::windows_ready);
    let e = entries@;
    let there = steps::windows_elsewhere(p.windows, output@);
    lemma_elsewhere(p.windows, output@);
    let t = steps::slotted(p.shared_frames, p.next_slot, output, e);
    lemma_slotted(p.shared_frames, p.next_slot, output, e);
    let s = steps::stepped(p, Msg::WindowsForOutputReady(output, entries), env);
    let w = s.panel.windows;
    let n = there.len() as int;
    assert(w == there + t.entries);
    assert(w.take(n) =~= there);
    assert forall|j: int| 0 <= j < n implies (#[trigger] w[j]).output@ != output@ by {
        assert(w[j] == there[j]);
    }
    assert(w[n + k] == t.entries[k] && w[n + l] == t.entries[l]);
    let a = choose|m: int|
        0 <= m < t.slots.len() && (#[trigger] t.slots[m]).identifier@ == e[k].identifier@
            && t.slots[m].id == t.entries[k].streaming->0;
    let b = choose|m: int|
        0 <= m < t.slots.len() && (#[trigger] t.slots[m]).identifier@ == e[l].identifier@
            && t.slots[m].id == t.entries[l].streaming->0;
    if a < b {
        assert(t.slots[a].id != t.slots[b].id);
    } else if b < a {
        assert(t.slots[b].id != t.slots[a].id);
    }
    assert forall|m: int| 0 <= m < p.shared_frames.len() && (
    #[trigger] p.shared_frames[m]).identifier@ == e[k].identifier@ implies w[n + k].streaming
        == Some(p.shared_frames[m].id) by {
        assert(t.slots[m] == p.shared_frames[m]);
        if a < m {
            assert(t.slots[a].identifier@ != t.slots[m].identifier@);
        } else if m < a {
            assert(t.slots[m].identifier@ != t.slots[a].identifier@);
        }
    }
    let pins = steps::thumbs_pinned(output, e.len());
    assert(s.actions[k] == pins[k]);
    assert(s.actions[pins.len() + k] == t.actions[k]);
    if !steps::listed_in(p.listed, output@) {
        assert(s.panel.listed[p.listed.len() as int] == output);
    }
}

/// While windows are recorded from the picker, every window of an output that was
/// captured is streamed, and no stream runs of a window that nothing lists.
pub proof fn captured_windows_are_streamed(
    p: PanelModel,
    output: String,
    entries: Vec<WindowEntry>,
    env: Env,
)
    requires
        slots_apart(p.shared_frames, p.next_slot),
        p.next_slot + entries@.len() <= u64::MAX,
    ensures
        ({
            let s = steps::stepped(p, Msg::WindowsForOutputReady(output, entries), env);
            let r = s.panel.streaming_sessions;
            &&& p.source == Source::Window && p.mode == Mode::Record ==> forall|k: int|
                0 <= k < entries@.len() ==> steps::listed_in(
                    r,
                    (#[trigger] entries@[k]).identifier@,
                )
            &&& forall|j: int|
                0 <= j < r.len() ==> steps::known_window(s.panel.windows, (#[trigger] r[j])@)
            &&& p.source != Source::Window || p.mode != Mode::Record ==> forall|j: int|
                0 <= j < r.len() ==> p.streaming_sessions.contains(#[trigger] r[j])
        }),
{
    broadcast use vstd::seq_lib::group_filter_ensures;

    reveal(steps::windows_ready);
    let e = entries@;
    let there = steps::windows_elsewhere(p.windows, output@);
    let t = steps::slotted(p.shared_frames, p.next_slot, output, e);
    lemma_slotted(p.shared_frames, p.next_slot, output, e);
    let s = steps::stepped(p, Msg::WindowsForOutputReady(output, entries), env);
    let w = s.panel.windows;
    let r = s.panel.streaming_sessions;
    assert(w == there + t.entries);
    let live = steps::live_streams(p.streaming_sessions, there, t.entries);
    lemma_streamed(live, t.entries);
    assert forall|j: int| 0 <= j < r.len() implies steps::known_window(w, (#[trigger] r[j])@) by {
        let x = r[j]@;
        if j < live.len() {
            assert(r[j] == live[j]);
            assert(steps::known_window(there, x) || steps::known_window(t.entries, x));
        } else {
            assert(steps::known_window(t.entries, x));
        }
        if steps::known_window(there, x) {
            let i = choose|i: int| 0 <= i < there.len() && (#[trigger] there[i]).identifier@ == x;
            assert(w[i] == there[i]);
        } else {
            let i = choose|i: int|
                0 <= i < t.entries.len() && (#[trigger] t.entries[i]).identifier@ == x;
            assert(w[there.len() + i] == t.entries[i]);
        }
    }
    if p.source == Source::Window && p.mode == Mode::Record {
        assert forall|k: int| 0 <= k < e.len() implies steps::listed_in(
            r,
            (#[trigger] e[k]).identifier@,
        ) by {
            assert(t.entries[k].streaming is Some);
        }
    } else {
        assert forall|j: int| 0 <= j < r.len() implies p.streaming_sessions.contains(
            #[trigger] r[j],
        ) by {
            let keep = |x: String|
                steps::known_window(there, x@) || steps::known_window(t.entries, x@);
            assert(live.contains(r[j]));
            p.streaming_sessions.lemma_filter_contains_rev(keep, r[j]);
        }
    }
}

/// The surface that holds the focus opens on the output that had it, once every output has
/// its tool bar, and once only.
pub proof fn the_focus_is_held_where_it_was(p: PanelModel, i: int, name: String)
    requires
        0 <= i < p.outputs.len(),
        p.focus_output == Some(Some(name)),
        name@ == p.outputs[i].name@,
        forall|j: int| 0 <= j < i ==> (#[trigger] p.outputs[j]).name@ != p.outputs[i].name@,
    ensures
        ({
            let s = steps::catcher_ensured(p);
            let ready = forall|j: int|
                0 <= j < p.outputs.len() ==> (#[trigger] p.outputs[j]).toolbar_id is Some;
            &&& p.focus_catcher_id is None && ready ==> {
                &&& s.panel == (PanelModel {
                    focus_catcher_id: Some(p.next_id),
                    next_id: s.panel.next_id,
                    ..p
                })
                &&& s.panel.next_id != p.next_id
                &&& s.actions.len() == 1
                &&& opens(s.actions, p.next_id, SurfaceKind::FocusCatcher, p.outputs[i].key)
            }
            &&& p.focus_catcher_id is Some || !ready ==> s.panel == p && s.actions.len() == 0
        }),
{
    reveal(steps::catcher_ensured);
    stitch::lemma_find_named(p.outputs, p.outputs[i].name@);
    let f = stitch::find_named(p.outputs, p.outputs[i].name@);
    assert(f is Some);
    if f->0 < i {
        assert(p.outputs[f->0].name@ != p.outputs[i].name@);
    }
    let s = steps::catcher_ensured(p);
    if s.actions.len() > 0 {
        assert(s.actions[0] == s.actions.last());
    }
}

} // verus!
