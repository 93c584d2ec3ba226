//! What holds of the choices that the panel offers: what was chosen is shown, kept for
//! the next launch, and touches nothing else.
use crate::gui::config;
use crate::gui::config::{Mode, RecordFormat, RecordFps, SaveTarget, Setting, Source, UserSettings};
use crate::gui::steps;
use crate::gui::steps::{Action, ActionModel, Env, Msg, PanelModel, Step};
use crate::gui::widget::rectangle_selection::{DragSession, Rect, WidgetEvent};
use crate::text;
use vstd::prelude::*;

verus! {

/// A setting says what the panel shows.
pub open spec fn shown_by(p: PanelModel, s: Setting) -> bool {
    match s {
        Setting::Mode(m) => p.mode == m,
        Setting::Source(c) => p.source == c,
        Setting::SaveTarget(t) => p.save_target == t,
        Setting::RecordFormat(f) => p.record_format == f,
        Setting::RecordFps(f) => p.record_fps == f,
        Setting::LastRegion(r) => p.region == r,
    }
}

/// A step keeps one setting before anything else, and it says what the panel shows.
pub open spec fn keeps_what_it_shows(s: Step) -> bool {
    &&& s.actions.len() > 0
    &&& s.actions[0] matches ActionModel::Plain(Action::Persist { setting }) && shown_by(
        s.panel,
        setting,
    )
}

/// Nothing has changed, and nothing is asked for.
pub open spec fn nothing_happens(p: PanelModel, s: Step) -> bool {
    s.panel == p && s.actions.len() == 0
}

/// The mode that is chosen is shown and kept, and nothing else but the streams changes.
/// The streams stop for a screenshot.
pub proof fn a_chosen_mode_is_kept(p: PanelModel, m: Mode, env: Env)
    ensures
        ({
            let s = steps::stepped(p, Msg::SetMode(m), env);
            &&& p.capture is Idle && p.mode != m ==> keeps_what_it_shows(s) && s.panel.mode == m
                && s.actions[0] == ActionModel::Plain(Action::Persist { setting: Setting::Mode(m) })
            &&& !(p.capture is Idle) || p.mode == m ==> nothing_happens(p, s)
            &&& s.panel == (PanelModel {
                mode: s.panel.mode,
                streaming_sessions: s.panel.streaming_sessions,
                ..p
            })
            &&& p.capture is Idle && p.mode != m && m == Mode::Screenshot
                ==> s.panel.streaming_sessions.len() == 0
            &&& m == Mode::Record ==> s.panel.streaming_sessions == p.streaming_sessions
        }),
{
    reveal(steps::mode_set);
    reveal(steps::streams_stopped);
    if p.streaming_sessions.len() == 0 {
        assert(p.streaming_sessions =~= Seq::empty());
    }
}

/// The streams that run when the mode or the source leaves the windows are told to
/// stop.
pub proof fn streams_stop_with_their_picker(p: PanelModel, msg: Msg, env: Env)
    requires
        p.capture is Idle,
        p.streaming_sessions.len() > 0,
        match msg {
            Msg::SetMode(m) => m == Mode::Screenshot && p.mode != m,
            Msg::SetSource(s) => s != Source::Window && p.source != s,
            _ => false,
        },
    ensures
        steps::stepped(p, msg, env).panel.streaming_sessions.len() == 0,
        steps::stepped(p, msg, env).actions.contains(ActionModel::Plain(Action::StopStreams)),
{
    reveal(steps::mode_set);
    reveal(steps::source_set);
    reveal(steps::streams_stopped);
    assert(steps::stepped(p, msg, env).actions[1] == ActionModel::Plain(Action::StopStreams));
}

/// The source that is chosen is shown and kept, and nothing else but the streams
/// changes.
pub proof fn a_chosen_source_is_kept(p: PanelModel, c: Source, env: Env)
    ensures
        ({
            let s = steps::stepped(p, Msg::SetSource(c), env);
            &&& p.capture is Idle && p.source != c ==> keeps_what_it_shows(s) && s.panel.source == c
                && s.actions[0] == ActionModel::Plain(
                Action::Persist { setting: Setting::Source(c) },
            )
            &&& !(p.capture is Idle) || p.source == c ==> nothing_happens(p, s)
            &&& s.panel == (PanelModel {
                source: s.panel.source,
                streaming_sessions: s.panel.streaming_sessions,
                ..p
            })
        }),
{
    reveal(steps::source_set);
    reveal(steps::streams_stopped);
}

/// When windows are chosen, the windows of every output are asked for.
pub proof fn choosing_windows_lists_them(p: PanelModel, i: int, env: Env)
    requires
        p.capture is Idle,
        p.source != Source::Window,
        0 <= i < p.outputs.len(),
    ensures
        steps::stepped(p, Msg::SetSource(Source::Window), env).actions.contains(
            ActionModel::Plain(
                Action::ListWindows { output: p.outputs[i].name, cursor: p.rec_cursor },
            ),
        ),
{
    reveal(steps::source_set);
    let s = steps::stepped(p, Msg::SetSource(Source::Window), env);
    let l = steps::picker_refreshed(p.outputs, p.rec_cursor);
    let k = s.actions.len() - l.len() + i;
    assert(s.actions[k] == l[i]);
}

/// Where windows are chosen from already, another mode lists those of every output
/// anew.
pub proof fn another_mode_lists_the_windows_anew(p: PanelModel, m: Mode, i: int, env: Env)
    requires
        p.capture is Idle,
        p.source == Source::Window,
        p.mode != m,
        0 <= i < p.outputs.len(),
    ensures
        steps::stepped(p, Msg::SetMode(m), env).actions.contains(
            ActionModel::Plain(
                Action::ListWindows { output: p.outputs[i].name, cursor: p.rec_cursor },
            ),
        ),
{
    reveal(steps::mode_set);
    let s = steps::stepped(p, Msg::SetMode(m), env);
    let l = steps::picker_refreshed(p.outputs, p.rec_cursor);
    let k = s.actions.len() - l.len() + i;
    assert(s.actions[k] == l[i]);
}

/// A place of a list that is chosen shows what stands there, and keeps it; a place
/// behind the list does nothing.
pub proof fn a_chosen_place_is_kept(p: PanelModel, i: usize, env: Env)
    ensures
        ({
            let s = steps::stepped(p, Msg::SetSaveTarget(i), env);
            &&& s.panel == (PanelModel { save_target: s.panel.save_target, ..p })
            &&& i == 0 ==> s.panel.save_target == SaveTarget::Clipboard
            &&& i == 1 ==> s.panel.save_target == SaveTarget::Pictures
            &&& i == 2 ==> s.panel.save_target == SaveTarget::Documents
            &&& s.panel.save_target == p.save_target ==> nothing_happens(p, s)
            &&& s.panel.save_target != p.save_target ==> keeps_what_it_shows(s) && s.actions[0]
                == ActionModel::Plain(
                Action::Persist { setting: Setting::SaveTarget(s.panel.save_target) },
            )
            &&& i > 2 ==> nothing_happens(p, s)
        }),
        ({
            let s = steps::stepped(p, Msg::SetRecordFormat(i), env);
            &&& s.panel == (PanelModel { record_format: s.panel.record_format, ..p })
            &&& i == 0 ==> s.panel.record_format == RecordFormat::Mp4
            &&& i == 1 ==> s.panel.record_format == RecordFormat::Mkv
            &&& i == 2 ==> s.panel.record_format == RecordFormat::WebM
            &&& i == 3 ==> s.panel.record_format == RecordFormat::Gif
            &&& s.panel.record_format == p.record_format ==> nothing_happens(p, s)
            &&& s.panel.record_format != p.record_format ==> keeps_what_it_shows(s) && s.actions[0]
                == ActionModel::Plain(
                Action::Persist { setting: Setting::RecordFormat(s.panel.record_format) },
            )
            &&& i > 3 ==> nothing_happens(p, s)
        }),
        ({
            let s = steps::stepped(p, Msg::SetRecordFps(i), env);
            &&& s.panel == (PanelModel { record_fps: s.panel.record_fps, ..p })
            &&& i == 0 ==> s.panel.record_fps == RecordFps::Fps24
            &&& i == 1 ==> s.panel.record_fps == RecordFps::Fps30
            &&& i == 2 ==> s.panel.record_fps == RecordFps::Fps60
            &&& s.panel.record_fps == p.record_fps ==> nothing_happens(p, s)
            &&& s.panel.record_fps != p.record_fps ==> keeps_what_it_shows(s) && s.actions[0]
                == ActionModel::Plain(
                Action::Persist { setting: Setting::RecordFps(s.panel.record_fps) },
            )
            &&& i > 2 ==> nothing_happens(p, s)
        }),
{
    reveal(steps::save_target_set);
    reveal(steps::record_format_set);
    reveal(steps::record_fps_set);
}

/// What was kept is shown at the next launch, with nothing captured yet and no surface
/// open but one.
pub proof fn a_launch_shows_what_was_kept(s: UserSettings, id: u64)
    ensures
        ({
            let p = steps::launched(s, id);
            &&& shown_by(p, Setting::Mode(s.mode))
            &&& shown_by(p, Setting::Source(s.source))
            &&& shown_by(p, Setting::SaveTarget(s.save_target))
            &&& shown_by(p, Setting::RecordFormat(s.record_format))
            &&& shown_by(p, Setting::RecordFps(s.record_fps))
            &&& shown_by(p, Setting::LastRegion(s.last_region))
            &&& p.capture is Idle
            &&& p.outputs.len() == 0
            &&& p.drag is None
            &&& p.focus_output is None
            &&& p.stop_pill_id is None
            &&& p.focus_catcher_id is None
            &&& !p.cancel_pending
            &&& p.dummy_id == id
            &&& p.next_id != id
        }),
{
}

/// A switch that is pressed changes over, and alone; pressed again, it is as it was.
pub proof fn switches_change_over(p: PanelModel, env: Env)
    ensures
        ({
            let s = steps::stepped(p, Msg::ToggleAudioMic, env);
            &&& s.panel.rec_audio_mic != p.rec_audio_mic
            &&& s.panel == (PanelModel { rec_audio_mic: s.panel.rec_audio_mic, ..p })
            &&& s.actions.len() == 0
            &&& steps::stepped(s.panel, Msg::ToggleAudioMic, env).panel == p
        }),
        ({
            let s = steps::stepped(p, Msg::ToggleAudioSystem, env);
            &&& s.panel.rec_audio_system != p.rec_audio_system
            &&& s.panel == (PanelModel { rec_audio_system: s.panel.rec_audio_system, ..p })
            &&& s.actions.len() == 0
            &&& steps::stepped(s.panel, Msg::ToggleAudioSystem, env).panel == p
        }),
        ({
            let s = steps::stepped(p, Msg::ToggleClipboard, env);
            &&& s.panel.clipboard != p.clipboard
            &&& s.panel == (PanelModel { clipboard: s.panel.clipboard, ..p })
            &&& s.actions.len() == 0
            &&& steps::stepped(s.panel, Msg::ToggleClipboard, env).panel == p
        }),
{
}

/// A drag leaves the region where it was last moved to, and that is what is kept once it
/// ends; nothing is kept before.
pub proof fn a_drag_keeps_its_last_region(
    p: PanelModel,
    session: DragSession,
    first: Rect,
    last: Rect,
    env: Env,
)
    ensures
        ({
            let a = steps::stepped(
                p,
                Msg::Selection(WidgetEvent::DragStart { session, initial_rect: first }),
                env,
            );
            let b = steps::stepped(a.panel, Msg::Selection(WidgetEvent::DragMove(last)), env);
            let c = steps::stepped(b.panel, Msg::Selection(WidgetEvent::DragEnd), env);
            let d = steps::stepped(a.panel, Msg::Selection(WidgetEvent::DragEnd), env);
            &&& a.panel.region == Some(first)
            &&& a.panel.drag == Some(session)
            &&& a.actions.len() == 0
            &&& b.panel.region == Some(last)
            &&& b.panel.drag == Some(session)
            &&& b.actions.len() == 0
            &&& c.panel == (PanelModel { region: Some(last), drag: None, ..p })
            &&& c.actions == steps::kept(Setting::LastRegion(Some(last)))
            &&& keeps_what_it_shows(c)
            &&& d.panel == (PanelModel { region: Some(first), drag: None, ..p })
            &&& keeps_what_it_shows(d)
        }),
{
    reveal(steps::selection_changed);
}

/// A selection that is cancelled leaves no region, neither now nor at the next launch.
pub proof fn a_cancelled_selection_is_forgotten(p: PanelModel, env: Env)
    ensures
        ({
            let s = steps::stepped(p, Msg::CancelSelection, env);
            &&& s.panel == (PanelModel { region: None, drag: None, ..p })
            &&& keeps_what_it_shows(s)
            &&& s.actions.len() == 1
            &&& s.actions[0] == ActionModel::Plain(
                Action::Persist { setting: Setting::LastRegion(None) },
            )
        }),
{
}

/// A rate is called by its number.
pub proof fn a_rate_is_called_by_its_number(f: RecordFps)
    ensures
        f.text() == text::decimal(f.rate() as nat) + " FPS"@,
{
    reveal_strlit(" FPS");
    reveal_strlit("24 FPS");
    reveal_strlit("30 FPS");
    reveal_strlit("60 FPS");
    let n = f.rate() as nat;
    let d = text::decimal(n);
    assert(d == text::decimal(n / 10).push(text::digit(n % 10)));
    assert(text::decimal(n / 10) == seq![text::digit(n / 10)]);
    assert(d.len() == 2 && d[0] == text::digit(n / 10) && d[1] == text::digit(n % 10));
    assert(f.text() =~= d + " FPS"@);
}

/// The rates of the list go up.
pub proof fn rates_go_up(i: int, j: int)
    requires
        0 <= i < j < config::record_rates().len(),
    ensures
        config::record_rates()[i].rate() < config::record_rates()[j].rate(),
{
}

/// Each list offers everything there is, once.
pub proof fn each_list_offers_everything_once(t: SaveTarget, f: RecordFormat, r: RecordFps)
    ensures
        config::save_targets().contains(t) && config::save_targets().no_duplicates(),
        config::record_formats().contains(f) && config::record_formats().no_duplicates(),
        config::record_rates().contains(r) && config::record_rates().no_duplicates(),
{
    let a = config::save_targets();
    assert(a[0] == SaveTarget::Clipboard && a[1] == SaveTarget::Pictures && a[2]
        == SaveTarget::Documents);
    let b = config::record_formats();
    assert(b[0] == RecordFormat::Mp4 && b[1] == RecordFormat::Mkv && b[2] == RecordFormat::WebM
        && b[3] == RecordFormat::Gif);
    let c = config::record_rates();
    assert(c[0] == RecordFps::Fps24 && c[1] == RecordFps::Fps30 && c[2] == RecordFps::Fps60);
}

/// The clipboard offers an animated image as an image and every other recording as a video,
/// and no two formats as the same kind.
pub proof fn recordings_are_offered_as_what_they_are(f: RecordFormat, g: RecordFormat)
    ensures
        f == RecordFormat::Gif ==> f.media_type().take(6) == "image/"@,
        f != RecordFormat::Gif ==> f.media_type().take(6) == "video/"@,
        f.media_type() == g.media_type() ==> f == g,
{
    reveal_strlit("image/");
    reveal_strlit("video/");
    reveal_strlit("video/mp4");
    reveal_strlit("video/x-matroska");
    reveal_strlit("video/webm");
    reveal_strlit("image/gif");
    let (s, t) = (f.media_type(), g.media_type());
    if f == RecordFormat::Gif {
        assert(s.take(6) =~= "image/"@);
    } else {
        assert(s.take(6) =~= "video/"@);
    }
    if s == t {
        assert(s.len() == t.len() && s[0] == t[0]);
    }
}

} // verus!
