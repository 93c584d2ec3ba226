//! The slots that the picker's thumbnails are drawn from.
use crate::capture::screencopy::CapturedFrame;
use crate::gui::config::{Mode, Source, UserSettings};
use crate::gui::outputs::{OutputDescription, OutputInfo};
use crate::gui::steps;
use crate::gui::steps::{Env, Msg, PanelModel, Slot, WindowEntry};
use crate::gui::widget::rectangle_selection::WidgetEvent;
use std::sync::Arc;
use vstd::prelude::*;

verus! {

/// A window keeps its slot from one listing to the next, so that its texture stays
/// mapped.
pub proof fn a_listed_window_keeps_its_slot(
    slots: Seq<Slot>,
    next: u64,
    output: String,
    entries: Seq<WindowEntry>,
    i: int,
    at: int,
)
    requires
        0 <= i < entries.len(),
        steps::find_slot(slots, entries[i].identifier@) == Some(at),
    ensures
        steps::slotted(slots, next, output, entries).entries[i].streaming == Some(slots[at].id),
    decreases entries.len(),
{
    let init = entries.drop_last();
    let before = steps::slotted(slots, next, output, init);
    lemma_slotted(slots, next, output, init);
    if i < entries.len() - 1 {
        a_listed_window_keeps_its_slot(slots, next, output, init, i, at);
    } else {
        lemma_slot_stays(slots, before.slots, entries[i].identifier@);
        lemma_find_slot(slots, entries[i].identifier@);
    }
}

proof fn lemma_find_slot(slots: Seq<Slot>, identifier: Seq<char>)
    ensures
        steps::find_slot(slots, identifier) matches Some(i) ==> 0 <= i < slots.len(),
    decreases slots.len(),
{
    if slots.len() > 0 {
        lemma_find_slot(slots.drop_last(), identifier);
    }
}

proof fn lemma_slotted(
    slots: Seq<Slot>,
    next: u64,
    output: String,
    entries: Seq<WindowEntry>,
)
    ensures
        slots.is_prefix_of(steps::slotted(slots, next, output, entries).slots),
        steps::slotted(slots, next, output, entries).entries.len() == entries.len(),
    decreases entries.len(),
{
    if entries.len() > 0 {
        lemma_slotted(slots, next, output, entries.drop_last());
        let before = steps::slotted(slots, next, output, entries.drop_last()).slots;
        let all = steps::slotted(slots, next, output, entries).slots;
        assert(slots =~= before.subrange(0, slots.len() as int));
        assert(slots =~= all.subrange(0, slots.len() as int));
    } else {
        assert(slots =~= slots.subrange(0, slots.len() as int));
    }
}

proof fn lemma_slot_stays(slots: Seq<Slot>, more: Seq<Slot>, identifier: Seq<char>)
    requires
        slots.is_prefix_of(more),
        steps::find_slot(slots, identifier) is Some,
    ensures
        steps::find_slot(more, identifier) == steps::find_slot(slots, identifier),
        forall|i: int| 0 <= i < slots.len() ==> more[i] == #[trigger] slots[i],
    decreases more.len(),
{
    assert forall|i: int| 0 <= i < slots.len() implies more[i] == #[trigger] slots[i] by {
        assert(slots[i] == more.subrange(0, slots.len() as int)[i]);
    }
    if slots.len() < more.len() {
        let init = more.drop_last();
        assert(slots =~= init.subrange(0, slots.len() as int));
        lemma_slot_stays(slots, init, identifier);
    } else {
        assert(slots =~= more);
    }
}

/// No two slots have the same number, nor belong to the same window.
pub open spec fn distinct_slots(slots: Seq<Slot>) -> bool {
    forall|i: int, j: int|
        0 <= i < slots.len() && 0 <= j < slots.len() && i != j ==> {
            &&& (#[trigger] slots[i]).id != (#[trigger] slots[j]).id
            &&& slots[i].identifier@ != slots[j].identifier@
        }
}

/// The slots' numbers come before the next one.
pub open spec fn used_before(slots: Seq<Slot>, next: u64) -> bool {
    forall|i: int| 0 <= i < slots.len() ==> (#[trigger] slots[i]).id < next
}

/// The slot belongs to the window, and the window is drawn from it.
pub open spec fn feeds(s: Slot, e: WindowEntry) -> bool {
    s.identifier@ == e.identifier@ && e.streaming == Some(s.id)
}

/// A window that is drawn from a slot is drawn from its own.
pub open spec fn own_slot(slots: Seq<Slot>, e: WindowEntry) -> bool {
    e.streaming is Some ==> exists|j: int| 0 <= j < slots.len() && feeds(#[trigger] slots[j], e)
}

/// Each window is drawn from its own slot.
pub open spec fn slots_apart(p: PanelModel) -> bool {
    &&& distinct_slots(p.shared_frames)
    &&& used_before(p.shared_frames, p.next_slot)
    &&& forall|k: int| 0 <= k < p.windows.len() ==> own_slot(p.shared_frames, #[trigger] p.windows[k])
}

/// There are numbers left for the slots that a message can make.
pub open spec fn has_slots(p: PanelModel, msg: Msg) -> bool {
    msg matches Msg::WindowsForOutputReady(_, entries) ==> p.next_slot + entries@.len() <= u64::MAX
}

proof fn lemma_slot_found(slots: Seq<Slot>, identifier: Seq<char>)
    ensures
        match steps::find_slot(slots, identifier) {
            Some(i) => 0 <= i < slots.len() && slots[i].identifier@ == identifier,
            None => forall|i: int|
                0 <= i < slots.len() ==> (#[trigger] slots[i]).identifier@ != identifier,
        },
    decreases slots.len(),
{
    if slots.len() > 0 {
        let init = slots.drop_last();
        lemma_slot_found(init, identifier);
        if steps::find_slot(slots, identifier) is None {
            assert forall|i: int| 0 <= i < slots.len() implies (#[trigger] slots[i]).identifier@
                != identifier by {
                if i < slots.len() - 1 {
                    assert(init[i] == slots[i]);
                }
            }
        }
    }
}

/// A window that has its slot keeps it while there come more.
proof fn lemma_more_slots(slots: Seq<Slot>, s: Slot, e: WindowEntry)
    requires
        own_slot(slots, e),
    ensures
        own_slot(slots.push(s), e),
{
    if e.streaming is Some {
        let j = choose|j: int| 0 <= j < slots.len() && feeds(#[trigger] slots[j], e);
        assert(feeds(slots.push(s)[j], e));
    }
}

proof fn lemma_slots_given(slots: Seq<Slot>, next: u64, output: String, entries: Seq<WindowEntry>)
    requires
        distinct_slots(slots),
        used_before(slots, next),
        next + entries.len() <= u64::MAX,
    ensures
        ({
            let s = steps::slotted(slots, next, output, entries);
            &&& next <= s.next <= next + entries.len()
            &&& distinct_slots(s.slots)
            &&& used_before(s.slots, s.next)
            &&& s.entries.len() == entries.len()
            &&& forall|k: int| 0 <= k < s.entries.len() ==> own_slot(s.slots, #[trigger] s.entries[k])
            &&& forall|e: WindowEntry| own_slot(slots, e) ==> #[trigger] own_slot(s.slots, e)
        }),
    decreases entries.len(),
{
    if entries.len() > 0 {
        let b = steps::slotted(slots, next, output, entries.drop_last());
        let s = steps::slotted(slots, next, output, entries);
        let e = entries.last();
        lemma_slots_given(slots, next, output, entries.drop_last());
        lemma_slot_found(b.slots, e.identifier@);
        let last = s.entries[entries.len() - 1];
        match steps::find_slot(b.slots, e.identifier@) {
            Some(i) => {
                assert(feeds(s.slots[i], last));
            },
            None => {
                assert(feeds(s.slots[b.slots.len() as int], last));
                assert forall|w: WindowEntry| own_slot(b.slots, w) implies #[trigger] own_slot(
                    s.slots,
                    w,
                ) by {
                    lemma_more_slots(b.slots, s.slots.last(), w);
                }
            },
        }
        assert forall|k: int| 0 <= k < s.entries.len() implies own_slot(
            s.slots,
            #[trigger] s.entries[k],
        ) by {
            if k < entries.len() - 1 {
                assert(s.entries[k] == b.entries[k]);
                assert(own_slot(b.slots, b.entries[k]));
            }
        }
        assert forall|w: WindowEntry| own_slot(slots, w) implies #[trigger] own_slot(
            s.slots,
            w,
        ) by {
            assert(own_slot(b.slots, w));
        }
    }
}

/// Of distinct slots the wanted ones are kept, and they stay distinct.
proof fn lemma_kept(slots: Seq<Slot>, wanted: spec_fn(Slot) -> bool)
    ensures
        forall|i: int|
            0 <= i < slots.filter(wanted).len() ==> slots.contains(
                #[trigger] slots.filter(wanted)[i],
            ),
        forall|j: int|
            0 <= j < slots.len() && wanted(slots[j]) ==> slots.filter(wanted).contains(
                #[trigger] slots[j],
            ),
        distinct_slots(slots) ==> distinct_slots(slots.filter(wanted)),
    decreases slots.len(),
{
    reveal(Seq::filter);
    if slots.len() > 0 {
        let init = slots.drop_last();
        lemma_kept(init, wanted);
        let (a, b) = (init.filter(wanted), slots.filter(wanted));
        assert(forall|i: int| 0 <= i < init.len() ==> #[trigger] init[i] == slots[i]);
        assert forall|i: int| 0 <= i < b.len() implies slots.contains(#[trigger] b[i]) by {
            if i < a.len() {
                assert(init.contains(a[i]));
                let j = choose|j: int| 0 <= j < init.len() && init[j] == a[i];
                assert(slots[j] == b[i]);
            } else {
                assert(slots[slots.len() - 1] == b[i]);
            }
        }
        assert forall|j: int| 0 <= j < slots.len() && wanted(slots[j]) implies b.contains(
            #[trigger] slots[j],
        ) by {
            if j < init.len() {
                assert(a.contains(init[j]));
                let i = choose|i: int| 0 <= i < a.len() && a[i] == init[j];
                assert(b[i] == slots[j]);
            } else {
                assert(b[b.len() - 1] == slots[j]);
            }
        }
        if distinct_slots(slots) {
            assert(distinct_slots(init));
            assert forall|i: int, j: int|
                0 <= i < b.len() && 0 <= j < b.len() && i != j implies {
                &&& (#[trigger] b[i]).id != (#[trigger] b[j]).id
                &&& b[i].identifier@ != b[j].identifier@
            } by {
                if i < a.len() && j < a.len() {
                    assert(a[i] == b[i] && a[j] == b[j]);
                } else {
                    let k = if i < a.len() { i } else { j };
                    assert(init.contains(a[k]));
                    let m = choose|m: int| 0 <= m < init.len() && init[m] == a[k];
                    assert(slots[m] == b[k]);
                    assert(slots[slots.len() - 1].id != slots[m].id);
                }
            }
        }
    }
}

/// A window on another output was there before.
proof fn lemma_elsewhere(windows: Seq<WindowEntry>, output: Seq<char>, k: int) -> (i: int)
    requires
        0 <= k < steps::windows_elsewhere(windows, output).len(),
    ensures
        0 <= i < windows.len(),
        windows[i] == steps::windows_elsewhere(windows, output)[k],
    decreases windows.len(),
{
    reveal(Seq::filter);
    let init = windows.drop_last();
    let before = steps::windows_elsewhere(init, output);
    if k < before.len() {
        lemma_elsewhere(init, output, k)
    } else {
        windows.len() - 1
    }
}

/// A slot of a known window is kept.
proof fn lemma_kept_slot(
    slots: Seq<Slot>,
    windows: Seq<WindowEntry>,
    entries: Seq<WindowEntry>,
    j: int,
) -> (m: int)
    requires
        0 <= j < slots.len(),
        steps::known_window(windows, slots[j].identifier@) || steps::known_window(
            entries,
            slots[j].identifier@,
        ),
    ensures
        0 <= m < steps::live_slots(slots, windows, entries).len(),
        steps::live_slots(slots, windows, entries)[m] == slots[j],
    decreases slots.len(),
{
    reveal(Seq::filter);
    let init = slots.drop_last();
    let before = steps::live_slots(init, windows, entries);
    let live = steps::live_slots(slots, windows, entries);
    if j < slots.len() - 1 {
        assert(init[j] == slots[j]);
        let m = lemma_kept_slot(init, windows, entries, j);
        assert(live[m] == before[m]);
        m
    } else {
        before.len() as int
    }
}

/// The slots that are kept stay distinct, and were there.
proof fn lemma_live_slots(slots: Seq<Slot>, windows: Seq<WindowEntry>, entries: Seq<WindowEntry>)
    requires
        distinct_slots(slots),
    ensures
        distinct_slots(steps::live_slots(slots, windows, entries)),
        forall|i: int|
            0 <= i < steps::live_slots(slots, windows, entries).len() ==> slots.contains(
                #[trigger] steps::live_slots(slots, windows, entries)[i],
            ),
{
    let wanted = |s: Slot|
        steps::known_window(windows, s.identifier@) || steps::known_window(
            entries,
            s.identifier@,
        );
    lemma_kept(slots, wanted);
    assert(steps::live_slots(slots, windows, entries) == slots.filter(wanted));
}

proof fn lemma_windows_ready(p: PanelModel, output: String, entries: Seq<WindowEntry>)
    requires
        slots_apart(p),
        p.next_slot + entries.len() <= u64::MAX,
    ensures
        slots_apart(steps::windows_ready(p, output, entries).panel),
{
    reveal(steps::windows_ready);
    let q = steps::windows_ready(p, output, entries).panel;
    let s = steps::slotted(p.shared_frames, p.next_slot, output, entries);
    let there = steps::windows_elsewhere(p.windows, output@);
    lemma_slots_given(p.shared_frames, p.next_slot, output, entries);
    lemma_live_slots(s.slots, there, s.entries);
    let live = steps::live_slots(s.slots, there, s.entries);
    assert(used_before(live, q.next_slot)) by {
        assert forall|i: int| 0 <= i < live.len() implies (#[trigger] live[i]).id < q.next_slot by {
            assert(s.slots.contains(live[i]));
        }
    }
    assert forall|k: int| 0 <= k < q.windows.len() implies own_slot(live, #[trigger] q.windows[k]) by {
        let e = q.windows[k];
        if k < there.len() {
            let i = lemma_elsewhere(p.windows, output@, k);
            assert(own_slot(p.shared_frames, p.windows[i]));
            assert(there[k].identifier@ == e.identifier@);
            assert(steps::known_window(there, e.identifier@));
        } else {
            assert(e == s.entries[k - there.len()]);
            assert(steps::known_window(s.entries, e.identifier@));
        }
        assert(own_slot(s.slots, e));
        if e.streaming is Some {
            let j = choose|j: int| 0 <= j < s.slots.len() && feeds(#[trigger] s.slots[j], e);
            let m = lemma_kept_slot(s.slots, there, s.entries, j);
            assert(feeds(live[m], e));
        }
    }
}

/// The windows and their slots are the same, and the streams are, or there are none.
spec fn same_slots(p: PanelModel, q: PanelModel) -> bool {
    &&& q.windows == p.windows
    &&& q.shared_frames == p.shared_frames
    &&& q.next_slot == p.next_slot
    &&& q.streaming_sessions == p.streaming_sessions || q.streaming_sessions.len() == 0
}

/// Surfaces come and go without touching the slots.
proof fn lemma_surfaces(p: PanelModel)
    ensures
        same_slots(p, steps::shut(p).panel),
        same_slots(p, steps::ready_mapped(p).panel),
        same_slots(p, steps::switched_over(p).panel),
{
    reveal(steps::shut);
    reveal(steps::toolbars_closed);
    reveal(steps::ready_mapped);
    reveal(steps::catcher_ensured);
    reveal(steps::pill_opened);
    reveal(steps::overlays_opened);
    reveal(steps::switched_over);
}

proof fn lemma_primary(p: PanelModel, clicked: Option<Seq<char>>, env: Env)
    ensures
        same_slots(p, steps::primary(p, clicked, env).panel),
{
    reveal(steps::primary);
    reveal(steps::shot_taken);
    reveal(steps::region_shot);
    reveal(steps::output_shot);
    reveal(steps::recording_started);
    reveal(steps::region_recorded);
    reveal(steps::screen_recorded);
    reveal(steps::output_recorded);
    assert forall|name: Option<String>|
        same_slots(
            p,
            (#[trigger] steps::switched_over(PanelModel { recording_target_output: name, ..p })).panel,
        ) by {
        lemma_surfaces(PanelModel { recording_target_output: name, ..p });
    }
}

proof fn lemma_toplevel_captured(p: PanelModel, identifier: String, on: Option<String>, env: Env)
    ensures
        same_slots(p, steps::toplevel_captured(p, identifier, on, env).panel),
{
    reveal(steps::toplevel_captured);
    reveal(steps::picker_left);
    reveal(steps::streams_stopped);
    reveal(steps::toolbars_closed);
    reveal(steps::window_saved);
    reveal(steps::window_recorded);
    reveal(steps::pill_opened);
    reveal(steps::overlays_opened);
}

proof fn lemma_updated(p: PanelModel, key: u32, d: OutputDescription)
    ensures
        same_slots(p, steps::output_updated(p, key, d).panel),
{
    reveal(steps::output_updated);
    match steps::find_key(p.outputs, key) {
        Some(i) => lemma_surfaces(
            PanelModel { outputs: p.outputs.update(i, steps::updated(p.outputs[i], d)), ..p },
        ),
        None => {},
    }
}

proof fn lemma_frozen(p: PanelModel, key: u32, frame: Option<Arc<CapturedFrame>>, sub: bool)
    ensures
        same_slots(p, steps::frozen_ready(p, key, frame, sub).panel),
{
    reveal(steps::frozen_ready);
    assert forall|outputs: Seq<OutputInfo>|
        same_slots(p, (#[trigger] steps::ready_mapped(PanelModel { outputs, ..p })).panel) by {
        lemma_surfaces(PanelModel { outputs, ..p });
    }
}

/// The same window, drawn from the same slot.
spec fn same_slot(a: WindowEntry, b: WindowEntry) -> bool {
    a.identifier == b.identifier && a.streaming == b.streaming
}

/// A window was among the windows, drawn from the same slot.
spec fn was_among(windows: Seq<WindowEntry>, e: WindowEntry) -> bool {
    exists|i: int| 0 <= i < windows.len() && same_slot(#[trigger] windows[i], e)
}

/// Fewer windows, or the same ones pinned or not, are drawn from their slots still.
proof fn lemma_windows(p: PanelModel, q: PanelModel)
    requires
        slots_apart(p),
        q.shared_frames == p.shared_frames,
        q.next_slot == p.next_slot,
        forall|k: int|
            0 <= k < q.windows.len() ==> was_among(p.windows, #[trigger] q.windows[k]),
    ensures
        slots_apart(q),
{
    assert forall|k: int| 0 <= k < q.windows.len() implies own_slot(
        q.shared_frames,
        #[trigger] q.windows[k],
    ) by {
        let e = q.windows[k];
        let i = choose|i: int| 0 <= i < p.windows.len() && same_slot(#[trigger] p.windows[i], e);
        assert(own_slot(p.shared_frames, p.windows[i]));
        if e.streaming is Some {
            let j = choose|j: int|
                0 <= j < p.shared_frames.len() && feeds(
                    #[trigger] p.shared_frames[j],
                    p.windows[i],
                );
            assert(feeds(q.shared_frames[j], e));
        }
    }
}

proof fn lemma_removed(p: PanelModel, key: u32)
    requires
        slots_apart(p),
    ensures
        slots_apart(steps::output_removed(p, key).panel),
{
    reveal(steps::output_removed);
    let q = steps::output_removed(p, key).panel;
    match steps::find_key(p.outputs, key) {
        Some(at) => {
            let name = p.outputs[at].name@;
            assert forall|k: int| 0 <= k < q.windows.len() implies was_among(
                p.windows,
                #[trigger] q.windows[k],
            ) by {
                let i = lemma_elsewhere(p.windows, name, k);
                assert(same_slot(p.windows[i], q.windows[k]));
            }
            lemma_windows(p, q);
        },
        None => {},
    }
}

proof fn lemma_thumb_pinned(p: PanelModel, output: Seq<char>, index: u64, pinned: bool)
    requires
        slots_apart(p),
    ensures
        slots_apart(steps::thumb_pinned(p, output, index, pinned).panel),
{
    reveal(steps::thumb_pinned);
    let q = steps::thumb_pinned(p, output, index, pinned).panel;
    assert forall|k: int| 0 <= k < q.windows.len() implies was_among(
        p.windows,
        #[trigger] q.windows[k],
    ) by {
        assert(same_slot(p.windows[k], q.windows[k]));
    }
    lemma_windows(p, q);
}

proof fn lemma_left(p: PanelModel, recording: bool, r: Result<String, String>, now: u64)
    ensures
        same_slots(p, steps::escaped(p, now).panel),
        same_slots(p, steps::ticked(p, now).panel),
        same_slots(p, steps::finished(p, recording, r).panel),
{
    reveal(steps::escaped);
    reveal(steps::ticked);
    reveal(steps::finished);
    lemma_surfaces(p);
    lemma_surfaces(PanelModel { cancel_pending: true, ..p });
}

proof fn lemma_chosen(p: PanelModel, m: Mode, s: Source, i: usize, e: WidgetEvent, id: Option<u64>)
    ensures
        same_slots(p, steps::mode_set(p, m).panel),
        same_slots(p, steps::source_set(p, s).panel),
        same_slots(p, steps::save_target_set(p, i).panel),
        same_slots(p, steps::record_format_set(p, i).panel),
        same_slots(p, steps::record_fps_set(p, i).panel),
        same_slots(p, steps::selection_changed(p, e).panel),
        same_slots(p, steps::pointer_on(p, id).panel),
{
    reveal(steps::mode_set);
    reveal(steps::source_set);
    reveal(steps::streams_stopped);
    reveal(steps::save_target_set);
    reveal(steps::record_format_set);
    reveal(steps::record_fps_set);
    reveal(steps::selection_changed);
    reveal(steps::pointer_on);
}

/// The messages that may touch the windows, their slots or single streams.
spec fn touches_windows(msg: Msg) -> bool {
    msg is WindowsForOutputReady || msg is ThumbAllocated || msg is OutputRemoved
        || msg is StreamFailed
}

proof fn lemma_untouched(p: PanelModel, msg: Msg, env: Env)
    requires
        !touches_windows(msg),
    ensures
        same_slots(p, steps::stepped(p, msg, env).panel),
{
    match msg {
        Msg::PrimaryAction(clicked) => lemma_primary(
            p,
            match clicked {
                Some(name) => Some(name@),
                None => None,
            },
            env,
        ),
        Msg::EscPressed | Msg::Tick => lemma_left(p, true, arbitrary(), env.now),
        Msg::RecordingFinished(r) | Msg::GifFinished(r) => lemma_left(p, true, r, env.now),
        Msg::ScreenshotFinished(r) => lemma_left(p, false, r, env.now),
        Msg::Quit => lemma_surfaces(p),
        Msg::OutputCreated(_) => {
            reveal(steps::output_created);
        },
        Msg::OutputUpdated(key, d) => lemma_updated(p, key, d),
        Msg::FrozenFrameReady(key, frame, sub) => lemma_frozen(p, key, frame, sub),
        Msg::FrozenAllocated(_, _) => {
            reveal(steps::frozen_pinned);
        },
        Msg::CaptureToplevel(identifier, on) => lemma_toplevel_captured(p, identifier, on, env),
        Msg::FocusOutputKnown(name) => lemma_surfaces(PanelModel { focus_output: Some(name), ..p }),
        Msg::SetMode(m) => lemma_chosen(p, m, p.source, 0, WidgetEvent::DragEnd, None),
        Msg::SetSource(s) => lemma_chosen(p, p.mode, s, 0, WidgetEvent::DragEnd, None),
        Msg::SetSaveTarget(i) | Msg::SetRecordFormat(i) | Msg::SetRecordFps(i) => lemma_chosen(
            p,
            p.mode,
            p.source,
            i,
            WidgetEvent::DragEnd,
            None,
        ),
        Msg::Selection(e) => lemma_chosen(p, p.mode, p.source, 0, e, None),
        Msg::PointerOn(id) => lemma_chosen(p, p.mode, p.source, 0, WidgetEvent::DragEnd, id),
        _ => {},
    }
}

/// Whatever the panel is told, no two windows come to be drawn from the same slot.
pub proof fn slots_stay_apart(p: PanelModel, msg: Msg, env: Env)
    requires
        slots_apart(p),
        has_slots(p, msg),
    ensures
        slots_apart(steps::stepped(p, msg, env).panel),
{
    match msg {
        Msg::OutputRemoved(key) => lemma_removed(p, key),
        Msg::WindowsForOutputReady(output, entries) => lemma_windows_ready(p, output, entries@),
        Msg::ThumbAllocated(output, index, pinned) => lemma_thumb_pinned(
            p,
            output@,
            index,
            pinned,
        ),
        Msg::StreamFailed(_) => {},
        _ => lemma_untouched(p, msg, env),
    }
}

/// At launch there is no slot.
pub proof fn the_first_slots_are_apart(s: UserSettings, id: u64)
    ensures
        slots_apart(steps::launched(s, id)),
        streams_have_slots(steps::launched(s, id)),
{
}

/// A slot with that number is among the slots.
pub open spec fn numbered(slots: Seq<Slot>, n: u64) -> bool {
    exists|i: int| 0 <= i < slots.len() && (#[trigger] slots[i]).id == n
}

/// A number of a slot that is among the slots with more windows was among them
/// before, or was not used before.
proof fn lemma_numbers_given(
    slots: Seq<Slot>,
    next: u64,
    output: String,
    entries: Seq<WindowEntry>,
    n: u64,
)
    requires
        next + entries.len() <= u64::MAX,
        numbered(steps::slotted(slots, next, output, entries).slots, n),
    ensures
        numbered(slots, n) || n >= next,
    decreases entries.len(),
{
    if entries.len() > 0 {
        let b = steps::slotted(slots, next, output, entries.drop_last());
        let s = steps::slotted(slots, next, output, entries);
        lemma_next_given(slots, next, output, entries.drop_last());
        let i = choose|i: int| 0 <= i < s.slots.len() && (#[trigger] s.slots[i]).id == n;
        if i < b.slots.len() {
            assert(b.slots[i].id == n);
            lemma_numbers_given(slots, next, output, entries.drop_last(), n);
        }
    }
}

/// The next number only grows, by one for each window at most.
proof fn lemma_next_given(slots: Seq<Slot>, next: u64, output: String, entries: Seq<WindowEntry>)
    requires
        next + entries.len() <= u64::MAX,
    ensures
        next <= steps::slotted(slots, next, output, entries).next <= next + entries.len(),
    decreases entries.len(),
{
    if entries.len() > 0 {
        lemma_next_given(slots, next, output, entries.drop_last());
    }
}

/// Whatever the panel is told, the next slot's number never falls, and a slot that
/// was not there has a number from the old next one on: no number comes again.
pub proof fn slot_numbers_are_fresh(p: PanelModel, msg: Msg, env: Env, n: u64)
    requires
        has_slots(p, msg),
    ensures
        ({
            let q = steps::stepped(p, msg, env).panel;
            &&& p.next_slot <= q.next_slot
            &&& numbered(q.shared_frames, n) ==> numbered(p.shared_frames, n) || n >= p.next_slot
        }),
{
    let q = steps::stepped(p, msg, env).panel;
    match msg {
        Msg::WindowsForOutputReady(output, entries) => {
            reveal(steps::windows_ready);
            let s = steps::slotted(p.shared_frames, p.next_slot, output, entries@);
            lemma_next_given(p.shared_frames, p.next_slot, output, entries@);
            if numbered(q.shared_frames, n) {
                let i = choose|i: int|
                    0 <= i < q.shared_frames.len() && (#[trigger] q.shared_frames[i]).id == n;
                lemma_live(
                    s.slots,
                    steps::windows_elsewhere(p.windows, output@),
                    s.entries,
                    i,
                );
                lemma_numbers_given(p.shared_frames, p.next_slot, output, entries@, n);
            }
        },
        Msg::OutputRemoved(_) => {
            reveal(steps::output_removed);
        },
        Msg::ThumbAllocated(_, _, _) => {
            reveal(steps::thumb_pinned);
        },
        Msg::StreamFailed(_) => {},
        _ => lemma_untouched(p, msg, env),
    }
}

/// A slot that is kept was there.
proof fn lemma_live(
    slots: Seq<Slot>,
    windows: Seq<WindowEntry>,
    entries: Seq<WindowEntry>,
    i: int,
)
    requires
        0 <= i < steps::live_slots(slots, windows, entries).len(),
    ensures
        numbered(slots, steps::live_slots(slots, windows, entries)[i].id),
    decreases slots.len(),
{
    reveal(Seq::filter);
    let init = slots.drop_last();
    let before = steps::live_slots(init, windows, entries);
    let live = steps::live_slots(slots, windows, entries);
    if i < before.len() {
        lemma_live(init, windows, entries, i);
        let k = choose|k: int| 0 <= k < init.len() && (#[trigger] init[k]).id == before[i].id;
        assert(slots[k].id == live[i].id);
    } else {
        assert(slots[slots.len() - 1].id == live[i].id);
    }
}

/// The panel after a number of messages.
pub open spec fn told(p: PanelModel, msgs: Seq<(Msg, Env)>) -> PanelModel
    decreases msgs.len(),
{
    if msgs.len() == 0 {
        p
    } else {
        let q = told(p, msgs.drop_last());
        steps::stepped(q, msgs.last().0, msgs.last().1).panel
    }
}

/// There are numbers left for the slots that each of the messages can make.
pub open spec fn has_slots_for(p: PanelModel, msgs: Seq<(Msg, Env)>) -> bool
    decreases msgs.len(),
{
    msgs.len() > 0 ==> has_slots_for(p, msgs.drop_last()) && has_slots(
        told(p, msgs.drop_last()),
        msgs.last().0,
    )
}

/// The number of a slot that was given up belongs to no slot ever after, whatever
/// the panel is told.
pub proof fn a_given_up_number_never_returns(p: PanelModel, msgs: Seq<(Msg, Env)>, n: u64)
    requires
        has_slots_for(p, msgs),
        n < p.next_slot,
        !numbered(p.shared_frames, n),
    ensures
        n < told(p, msgs).next_slot,
        !numbered(told(p, msgs).shared_frames, n),
    decreases msgs.len(),
{
    if msgs.len() > 0 {
        a_given_up_number_never_returns(p, msgs.drop_last(), n);
        slot_numbers_are_fresh(told(p, msgs.drop_last()), msgs.last().0, msgs.last().1, n);
    }
}

/// The window of that name has a slot.
pub open spec fn has_slot(slots: Seq<Slot>, identifier: Seq<char>) -> bool {
    exists|i: int| 0 <= i < slots.len() && (#[trigger] slots[i]).identifier@ == identifier
}

/// Each window that is streamed has a slot that the stream goes to.
pub open spec fn streams_have_slots(p: PanelModel) -> bool {
    forall|i: int|
        0 <= i < p.streaming_sessions.len() ==> has_slot(
            p.shared_frames,
            (#[trigger] p.streaming_sessions[i])@,
        )
}

/// A stream that is kept ran before, and its window is known.
proof fn lemma_live_stream(
    sessions: Seq<String>,
    windows: Seq<WindowEntry>,
    entries: Seq<WindowEntry>,
    i: int,
) -> (k: int)
    requires
        0 <= i < steps::live_streams(sessions, windows, entries).len(),
    ensures
        0 <= k < sessions.len(),
        sessions[k] == steps::live_streams(sessions, windows, entries)[i],
        steps::known_window(windows, sessions[k]@) || steps::known_window(entries, sessions[k]@),
    decreases sessions.len(),
{
    reveal(Seq::filter);
    let init = sessions.drop_last();
    let before = steps::live_streams(init, windows, entries);
    if i < before.len() {
        let k = lemma_live_stream(init, windows, entries, i);
        assert(init[k] == sessions[k]);
        k
    } else {
        sessions.len() - 1
    }
}

/// A stream that runs once the entries are streamed ran before, or is one of them.
proof fn lemma_streamed(sessions: Seq<String>, entries: Seq<WindowEntry>, i: int)
    requires
        0 <= i < steps::streamed(sessions, entries).sessions.len(),
    ensures
        ({
            let s = steps::streamed(sessions, entries).sessions[i];
            sessions.contains(s) || exists|k: int|
                0 <= k < entries.len() && (#[trigger] entries[k]).identifier == s
                    && entries[k].streaming is Some
        }),
    decreases entries.len(),
{
    if entries.len() > 0 {
        let init = entries.drop_last();
        let b = steps::streamed(sessions, init).sessions;
        let s = steps::streamed(sessions, entries).sessions[i];
        if i < b.len() {
            lemma_streamed(sessions, init, i);
            if !sessions.contains(s) {
                let k = choose|k: int|
                    0 <= k < init.len() && (#[trigger] init[k]).identifier == s
                        && init[k].streaming is Some;
                assert(entries[k].identifier == s);
            }
        } else {
            assert(entries[entries.len() - 1].identifier == s);
        }
    } else {
        assert(sessions[i] == steps::streamed(sessions, entries).sessions[i]);
    }
}

proof fn lemma_windows_streamed(p: PanelModel, output: String, entries: Seq<WindowEntry>)
    requires
        slots_apart(p),
        streams_have_slots(p),
        p.next_slot + entries.len() <= u64::MAX,
    ensures
        streams_have_slots(steps::windows_ready(p, output, entries).panel),
{
    reveal(steps::windows_ready);
    let q = steps::windows_ready(p, output, entries).panel;
    let s = steps::slotted(p.shared_frames, p.next_slot, output, entries);
    let there = steps::windows_elsewhere(p.windows, output@);
    let live = steps::live_streams(p.streaming_sessions, there, s.entries);
    lemma_slots_given(p.shared_frames, p.next_slot, output, entries);
    lemma_slotted(p.shared_frames, p.next_slot, output, entries);
    assert forall|i: int| 0 <= i < q.streaming_sessions.len() implies has_slot(
        q.shared_frames,
        (#[trigger] q.streaming_sessions[i])@,
    ) by {
        let x = q.streaming_sessions[i];
        if p.source == Source::Window && p.mode == Mode::Record {
            lemma_streamed(live, s.entries, i);
        } else {
            assert(live[i] == x);
        }
        let j = if live.contains(x) {
            let a = choose|a: int| 0 <= a < live.len() && live[a] == x;
            let b = lemma_live_stream(p.streaming_sessions, there, s.entries, a);
            assert(has_slot(p.shared_frames, p.streaming_sessions[b]@));
            let c = choose|c: int|
                0 <= c < p.shared_frames.len() && (#[trigger] p.shared_frames[c]).identifier@ == x@;
            assert(p.shared_frames[c] == s.slots.subrange(0, p.shared_frames.len() as int)[c]);
            c
        } else {
            let k = choose|k: int|
                0 <= k < s.entries.len() && (#[trigger] s.entries[k]).identifier == x
                    && s.entries[k].streaming is Some;
            assert(own_slot(s.slots, s.entries[k]));
            assert(steps::known_window(s.entries, x@));
            choose|j: int| 0 <= j < s.slots.len() && feeds(#[trigger] s.slots[j], s.entries[k])
        };
        assert(s.slots[j].identifier@ == x@);
        let m = lemma_kept_slot(s.slots, there, s.entries, j);
        assert(q.shared_frames[m].identifier@ == x@);
    }
}

/// A text that is left was among the texts.
proof fn lemma_left_text(texts: Seq<String>, t: Seq<char>, i: int) -> (k: int)
    requires
        0 <= i < steps::without(texts, t).len(),
    ensures
        0 <= k < texts.len(),
        texts[k] == steps::without(texts, t)[i],
    decreases texts.len(),
{
    reveal(Seq::filter);
    let init = texts.drop_last();
    if i < steps::without(init, t).len() {
        let k = lemma_left_text(init, t, i);
        assert(init[k] == texts[k]);
        k
    } else {
        texts.len() - 1
    }
}

/// Whatever the panel is told, a stream only runs while its window has a slot: what
/// is streamed is never drawn from a slot that was given up.
pub proof fn streams_keep_their_slots(p: PanelModel, msg: Msg, env: Env)
    requires
        slots_apart(p),
        streams_have_slots(p),
        has_slots(p, msg),
    ensures
        streams_have_slots(steps::stepped(p, msg, env).panel),
{
    let q = steps::stepped(p, msg, env).panel;
    match msg {
        Msg::WindowsForOutputReady(output, entries) => lemma_windows_streamed(p, output, entries@),
        Msg::OutputRemoved(_) => {
            reveal(steps::output_removed);
        },
        Msg::ThumbAllocated(_, _, _) => {
            reveal(steps::thumb_pinned);
        },
        Msg::StreamFailed(identifier) => {
            assert forall|i: int| 0 <= i < q.streaming_sessions.len() implies has_slot(
                q.shared_frames,
                (#[trigger] q.streaming_sessions[i])@,
            ) by {
                let k = lemma_left_text(p.streaming_sessions, identifier@, i);
                assert(has_slot(p.shared_frames, p.streaming_sessions[k]@));
            }
        },
        _ => lemma_untouched(p, msg, env),
    }
}

/// Two windows are drawn from two slots.
pub proof fn two_windows_have_two_slots(p: PanelModel, i: int, j: int)
    requires
        slots_apart(p),
        0 <= i < p.windows.len(),
        0 <= j < p.windows.len(),
        p.windows[i].identifier@ != p.windows[j].identifier@,
        p.windows[i].streaming is Some,
    ensures
        p.windows[i].streaming != p.windows[j].streaming,
{
    let (a, b) = (p.windows[i], p.windows[j]);
    assert(own_slot(p.shared_frames, a) && own_slot(p.shared_frames, b));
    if a.streaming == b.streaming {
        let m = choose|m: int|
            0 <= m < p.shared_frames.len() && feeds(#[trigger] p.shared_frames[m], a);
        let n = choose|n: int|
            0 <= n < p.shared_frames.len() && feeds(#[trigger] p.shared_frames[n], b);
        assert(p.shared_frames[m].id == p.shared_frames[n].id);
    }
}

} // verus!
