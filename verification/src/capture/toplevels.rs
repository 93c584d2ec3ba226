//! The windows and outputs that the compositor tells of: which windows are
//! visible where, and how a name leads to one.
use crate::text;
use vstd::prelude::*;

verus! {

/// A window as it is listed.
pub struct ToplevelSummary {
    pub identifier: String,
    pub title: String,
    pub app_id: String,
    /// The names of the outputs that it is on.
    pub outputs: Vec<String>,
}

/// Where a window lies on an output, in that output's logical coordinates.
#[derive(Clone, Copy, Debug, PartialEq, Eq, Structural)]
pub struct Geometry {
    pub output: u64,
    pub x: i32,
    pub y: i32,
    pub width: i32,
    pub height: i32,
}

/// A window as the compositor tells of it. Windows, outputs and workspaces go by
/// the compositor's numbers.
pub struct ToplevelInfo {
    pub handle: u64,
    pub identifier: String,
    pub title: String,
    pub app_id: String,
    pub activated: bool,
    pub workspaces: Vec<u64>,
    pub outputs: Vec<u64>,
    pub geometry: Vec<Geometry>,
}

/// A workspace, and whether it is shown.
#[derive(Clone, Copy, Debug, PartialEq, Eq, Structural)]
pub struct Workspace {
    pub handle: u64,
    pub active: bool,
}

/// An output and its name, where it is known.
pub struct NamedOutput {
    pub output: u64,
    pub name: Option<String>,
}

/// Whether a number is among others.
pub fn among(v: &Vec<u64>, x: u64) -> (b: bool)
    ensures
        b == v@.contains(x),
{
    let mut i: usize = 0;
    while i < v.len()
        invariant
            i <= v@.len(),
            forall|j: int| 0 <= j < i ==> v@[j] != x,
        decreases v@.len() - i,
    {
        if v[i] == x {
            assert(v@[i as int] == x);
            return true;
        }
        i = i + 1;
    }
    false
}

/// A window is visible where it is on a workspace that is shown.
pub open spec fn visible(info: ToplevelInfo, workspaces: Seq<Workspace>) -> bool {
    exists|i: int|
        0 <= i < workspaces.len() && (#[trigger] workspaces[i]).active && info.workspaces@.contains(
            workspaces[i].handle,
        )
}

/// A window is visible where it is on a workspace that is shown.
pub fn is_visible(info: &ToplevelInfo, workspaces: &Vec<Workspace>) -> (b: bool)
    ensures
        b == visible(*info, workspaces@),
{
    let mut i: usize = 0;
    while i < workspaces.len()
        invariant
            i <= workspaces@.len(),
            forall|j: int|
                0 <= j < i ==> !((#[trigger] workspaces@[j]).active && info.workspaces@.contains(
                    workspaces@[j].handle,
                )),
        decreases workspaces@.len() - i,
    {
        let w = workspaces[i];
        if w.active && among(&info.workspaces, w.handle) {
            assert(workspaces@[i as int].active);
            return true;
        }
        i = i + 1;
    }
    false
}

/// Whether a window shows on an output.
pub open spec fn shows_on(info: ToplevelInfo, workspaces: Seq<Workspace>, output: u64) -> bool {
    visible(info, workspaces) && info.outputs@.contains(output)
}

/// The windows that show on an output, in the compositor's order.
pub open spec fn shown(
    toplevels: Seq<ToplevelInfo>,
    workspaces: Seq<Workspace>,
    output: u64,
) -> Seq<u64>
    decreases toplevels.len(),
{
    if toplevels.len() == 0 {
        Seq::empty()
    } else {
        let before = shown(toplevels.drop_last(), workspaces, output);
        if shows_on(toplevels.last(), workspaces, output) {
            before.push(toplevels.last().handle)
        } else {
            before
        }
    }
}

/// The windows that show on an output, in the compositor's order. One on a
/// workspace that is not shown cannot be picked.
pub fn output_toplevels(
    toplevels: &Vec<ToplevelInfo>,
    workspaces: &Vec<Workspace>,
    output: u64,
) -> (v: Vec<u64>)
    ensures
        v@ == shown(toplevels@, workspaces@, output),
{
    let mut v: Vec<u64> = Vec::new();
    let mut i: usize = 0;
    while i < toplevels.len()
        invariant
            i <= toplevels@.len(),
            v@ == shown(toplevels@.take(i as int), workspaces@, output),
        decreases toplevels@.len() - i,
    {
        assert(toplevels@.take(i + 1).drop_last() =~= toplevels@.take(i as int));
        let info = &toplevels[i];
        if is_visible(info, workspaces) && among(&info.outputs, output) {
            v.push(info.handle);
        }
        i = i + 1;
    }
    assert(toplevels@.take(i as int) =~= toplevels@);
    v
}

/// A window of the list shows on the output, and a window that shows is in the
/// list.
pub proof fn shown_windows_are_visible(
    toplevels: Seq<ToplevelInfo>,
    workspaces: Seq<Workspace>,
    output: u64,
    handle: u64,
)
    ensures
        shown(toplevels, workspaces, output).contains(handle) <==> exists|i: int|
            0 <= i < toplevels.len() && (#[trigger] toplevels[i]).handle == handle && shows_on(
                toplevels[i],
                workspaces,
                output,
            ),
    decreases toplevels.len(),
{
    if toplevels.len() > 0 {
        let init = toplevels.drop_last();
        let last = toplevels.last();
        shown_windows_are_visible(init, workspaces, output, handle);
        let before = shown(init, workspaces, output);
        let after = shown(toplevels, workspaces, output);
        assert forall|i: int| 0 <= i < init.len() implies init[i] == #[trigger] toplevels[i] by {}
        if after.contains(handle) {
            let k = choose|k: int| 0 <= k < after.len() && after[k] == handle;
            if k < before.len() {
                assert(before[k] == handle);
                assert(before.contains(handle));
                let i = choose|i: int|
                    0 <= i < init.len() && (#[trigger] init[i]).handle == handle && shows_on(
                        init[i],
                        workspaces,
                        output,
                    );
                assert(toplevels[i].handle == handle);
            } else {
                assert(toplevels[toplevels.len() - 1].handle == handle);
            }
        }
        if exists|i: int|
            0 <= i < toplevels.len() && (#[trigger] toplevels[i]).handle == handle && shows_on(
                toplevels[i],
                workspaces,
                output,
            ) {
            let i = choose|i: int|
                0 <= i < toplevels.len() && (#[trigger] toplevels[i]).handle == handle && shows_on(
                    toplevels[i],
                    workspaces,
                    output,
                );
            if i < init.len() {
                assert(init[i].handle == handle);
                assert(before.contains(handle));
                let k = choose|k: int| 0 <= k < before.len() && before[k] == handle;
                assert(after[k] == handle);
            } else {
                assert(after[after.len() - 1] == handle);
            }
        }
    }
}

/// The first window with an identifier.
pub open spec fn identified(toplevels: Seq<ToplevelInfo>, id: Seq<char>) -> Option<ToplevelInfo>
    decreases toplevels.len(),
{
    if toplevels.len() == 0 {
        None
    } else if toplevels[0].identifier@ == id {
        Some(toplevels[0])
    } else {
        identified(toplevels.drop_first(), id)
    }
}

fn position_identified(toplevels: &Vec<ToplevelInfo>, id: &str) -> (r: Option<usize>)
    ensures
        match r {
            Some(i) => i < toplevels@.len() && identified(toplevels@, id@) == Some(
                toplevels@[i as int],
            ),
            None => identified(toplevels@, id@) is None,
        },
{
    let mut i: usize = 0;
    assert(toplevels@.skip(0) =~= toplevels@);
    while i < toplevels.len()
        invariant
            i <= toplevels@.len(),
            identified(toplevels@, id@) == identified(toplevels@.skip(i as int), id@),
        decreases toplevels@.len() - i,
    {
        if text::same(toplevels[i].identifier.as_str(), id) {
            return Some(i);
        }
        assert(toplevels@.skip(i as int).drop_first() =~= toplevels@.skip(i + 1));
        i = i + 1;
    }
    None
}

/// The number of the window with an identifier.
pub fn toplevel_handle_for_identifier(toplevels: &Vec<ToplevelInfo>, id: &str) -> (r: Option<u64>)
    ensures
        r == (match identified(toplevels@, id@) {
            Some(t) => Some(t.handle),
            None => None,
        }),
{
    match position_identified(toplevels, id) {
        Some(i) => Some(toplevels[i].handle),
        None => None,
    }
}

/// The first output of a name.
pub open spec fn output_named(outputs: Seq<NamedOutput>, name: Seq<char>) -> Option<u64>
    decreases outputs.len(),
{
    if outputs.len() == 0 {
        None
    } else if outputs[0].name is Some && outputs[0].name->0@ == name {
        Some(outputs[0].output)
    } else {
        output_named(outputs.drop_first(), name)
    }
}

/// The first output of a name.
pub fn output_for_name(outputs: &Vec<NamedOutput>, name: &str) -> (r: Option<u64>)
    ensures
        r == output_named(outputs@, name@),
{
    let mut i: usize = 0;
    assert(outputs@.skip(0) =~= outputs@);
    while i < outputs.len()
        invariant
            i <= outputs@.len(),
            output_named(outputs@, name@) == output_named(outputs@.skip(i as int), name@),
        decreases outputs@.len() - i,
    {
        if let Some(n) = &outputs[i].name {
            if text::same(n.as_str(), name) {
                return Some(outputs[i].output);
            }
        }
        assert(outputs@.skip(i as int).drop_first() =~= outputs@.skip(i + 1));
        i = i + 1;
    }
    None
}

/// The name of an output, where it is known and has one.
pub open spec fn name_of(outputs: Seq<NamedOutput>, output: u64) -> Option<String>
    decreases outputs.len(),
{
    if outputs.len() == 0 {
        None
    } else if outputs[0].output == output {
        outputs[0].name
    } else {
        name_of(outputs.drop_first(), output)
    }
}

fn find_name(outputs: &Vec<NamedOutput>, output: u64) -> (r: Option<String>)
    ensures
        r == name_of(outputs@, output),
{
    let mut i: usize = 0;
    assert(outputs@.skip(0) =~= outputs@);
    while i < outputs.len()
        invariant
            i <= outputs@.len(),
            name_of(outputs@, output) == name_of(outputs@.skip(i as int), output),
        decreases outputs@.len() - i,
    {
        if outputs[i].output == output {
            return match &outputs[i].name {
                Some(n) => Some(n.clone()),
                None => None,
            };
        }
        assert(outputs@.skip(i as int).drop_first() =~= outputs@.skip(i + 1));
        i = i + 1;
    }
    None
}

/// The first name among outputs.
pub open spec fn first_name(outputs: Seq<NamedOutput>, on: Seq<u64>) -> Option<String>
    decreases on.len(),
{
    if on.len() == 0 {
        None
    } else {
        match name_of(outputs, on[0]) {
            Some(n) => Some(n),
            None => first_name(outputs, on.drop_first()),
        }
    }
}

fn find_first_name(outputs: &Vec<NamedOutput>, on: &Vec<u64>) -> (r: Option<String>)
    ensures
        r == first_name(outputs@, on@),
{
    let mut i: usize = 0;
    assert(on@.skip(0) =~= on@);
    while i < on.len()
        invariant
            i <= on@.len(),
            first_name(outputs@, on@) == first_name(outputs@, on@.skip(i as int)),
        decreases on@.len() - i,
    {
        if let Some(n) = find_name(outputs, on[i]) {
            return Some(n);
        }
        assert(on@.skip(i as int).drop_first() =~= on@.skip(i + 1));
        i = i + 1;
    }
    None
}

/// The name of the first output that a window is on and that has one.
pub fn output_name_for_toplevel(
    toplevels: &Vec<ToplevelInfo>,
    outputs: &Vec<NamedOutput>,
    id: &str,
) -> (r: Option<String>)
    ensures
        r == (match identified(toplevels@, id@) {
            Some(t) => first_name(outputs@, t.outputs@),
            None => None,
        }),
{
    match position_identified(toplevels, id) {
        Some(i) => find_first_name(outputs, &toplevels[i].outputs),
        None => None,
    }
}

/// Where a window lies on an output.
pub open spec fn geometry_on(geometry: Seq<Geometry>, output: u64) -> Option<Geometry>
    decreases geometry.len(),
{
    if geometry.len() == 0 {
        None
    } else if geometry[0].output == output {
        Some(geometry[0])
    } else {
        geometry_on(geometry.drop_first(), output)
    }
}

fn find_geometry(geometry: &Vec<Geometry>, output: u64) -> (r: Option<Geometry>)
    ensures
        r == geometry_on(geometry@, output),
{
    let mut i: usize = 0;
    assert(geometry@.skip(0) =~= geometry@);
    while i < geometry.len()
        invariant
            i <= geometry@.len(),
            geometry_on(geometry@, output) == geometry_on(geometry@.skip(i as int), output),
        decreases geometry@.len() - i,
    {
        if geometry[i].output == output {
            return Some(geometry[i]);
        }
        assert(geometry@.skip(i as int).drop_first() =~= geometry@.skip(i + 1));
        i = i + 1;
    }
    None
}

/// Where the window with an identifier lies on the output of a name, where the
/// compositor says.
pub fn toplevel_geometry_on_output(
    toplevels: &Vec<ToplevelInfo>,
    outputs: &Vec<NamedOutput>,
    id: &str,
    output_name: &str,
) -> (r: Option<Geometry>)
    ensures
        r == (match identified(toplevels@, id@) {
            Some(t) => match output_named(outputs@, output_name@) {
                Some(o) => geometry_on(t.geometry@, o),
                None => None,
            },
            None => None,
        }),
{
    match position_identified(toplevels, id) {
        Some(i) => match output_for_name(outputs, output_name) {
            Some(o) => find_geometry(&toplevels[i].geometry, o),
            None => None,
        },
        None => None,
    }
}

/// The first window that has the focus.
pub open spec fn focused(toplevels: Seq<ToplevelInfo>) -> Option<ToplevelInfo>
    decreases toplevels.len(),
{
    if toplevels.len() == 0 {
        None
    } else if toplevels[0].activated {
        Some(toplevels[0])
    } else {
        focused(toplevels.drop_first())
    }
}

/// The name of the output that shows the window with the focus.
pub fn activated_toplevel_output(
    toplevels: &Vec<ToplevelInfo>,
    outputs: &Vec<NamedOutput>,
) -> (r: Option<String>)
    ensures
        r == (match focused(toplevels@) {
            Some(t) => first_name(outputs@, t.outputs@),
            None => None,
        }),
{
    let mut i: usize = 0;
    assert(toplevels@.skip(0) =~= toplevels@);
    while i < toplevels.len()
        invariant
            i <= toplevels@.len(),
            focused(toplevels@) == focused(toplevels@.skip(i as int)),
        decreases toplevels@.len() - i,
    {
        if toplevels[i].activated {
            return find_first_name(outputs, &toplevels[i].outputs);
        }
        assert(toplevels@.skip(i as int).drop_first() =~= toplevels@.skip(i + 1));
        i = i + 1;
    }
    None
}

/// Whether a text stands before another or beside it, in the order of their
/// characters.
pub open spec fn text_le(a: Seq<char>, b: Seq<char>) -> bool
    decreases a.len(),
{
    if a.len() == 0 {
        true
    } else if b.len() == 0 {
        false
    } else if a[0] != b[0] {
        (a[0] as int) < (b[0] as int)
    } else {
        text_le(a.drop_first(), b.drop_first())
    }
}

fn title_le(a: &str, b: &str) -> (r: bool)
    ensures
        r == text_le(a@, b@),
{
    let (n, m) = (a.unicode_len(), b.unicode_len());
    let mut i: usize = 0;
    assert(a@.skip(0) =~= a@ && b@.skip(0) =~= b@);
    while i < n && i < m
        invariant
            i <= n,
            i <= m,
            n == a@.len(),
            m == b@.len(),
            text_le(a@, b@) == text_le(a@.skip(i as int), b@.skip(i as int)),
        decreases n - i,
    {
        let (x, y) = (a.get_char(i), b.get_char(i));
        if x != y {
            return (x as u32) < (y as u32);
        }
        assert(a@.skip(i as int).drop_first() =~= a@.skip(i + 1));
        assert(b@.skip(i as int).drop_first() =~= b@.skip(i + 1));
        i = i + 1;
    }
    i == n
}

/// A window put behind all that do not come after it.
pub open spec fn inserted(s: Seq<ToplevelSummary>, t: ToplevelSummary) -> Seq<ToplevelSummary>
    decreases s.len(),
{
    if s.len() == 0 {
        seq![t]
    } else if text_le(s.last().title@, t.title@) {
        s.push(t)
    } else {
        inserted(s.drop_last(), t).push(s.last())
    }
}

/// Windows in the order of their titles; those with the same title stay in the
/// order they had.
pub open spec fn by_title(s: Seq<ToplevelSummary>) -> Seq<ToplevelSummary>
    decreases s.len(),
{
    if s.len() == 0 {
        s
    } else {
        inserted(by_title(s.drop_last()), s.last())
    }
}

fn insert_by_title(v: &mut Vec<ToplevelSummary>, t: ToplevelSummary)
    ensures
        final(v)@ == inserted(old(v)@, t),
{
    let mut at: usize = v.len();
    let ghost was = v@;
    assert(was.take(at as int) =~= was);
    assert(was.skip(at as int) =~= Seq::<ToplevelSummary>::empty());
    assert(inserted(was, t) + was.skip(at as int) =~= inserted(was, t));
    while at > 0 && !title_le(v[at - 1].title.as_str(), t.title.as_str())
        invariant
            at <= v@.len(),
            v@ == was,
            inserted(was, t) == inserted(was.take(at as int), t) + was.skip(at as int),
        decreases at,
    {
        proof {
            let s = was.take(at as int);
            assert(s.last() == was[at - 1]);
            assert(s.drop_last() =~= was.take(at - 1));
            assert(inserted(was.take(at - 1), t).push(was[at - 1]) + was.skip(at as int)
                =~= inserted(was.take(at - 1), t) + was.skip(at - 1));
        }
        at = at - 1;
    }
    proof {
        let s = was.take(at as int);
        if at > 0 {
            assert(s.last() == was[at - 1]);
        }
        assert(inserted(s, t) =~= s.push(t));
        assert(inserted(was, t) =~= was.insert(at as int, t));
    }
    v.insert(at, t);
}

/// Puts windows in the order of their titles.
pub fn sort_by_title(windows: Vec<ToplevelSummary>) -> (r: Vec<ToplevelSummary>)
    ensures
        r@ == by_title(windows@),
{
    let mut rest = windows;
    let ghost all = rest@;
    let mut reversed: Vec<ToplevelSummary> = Vec::new();
    while rest.len() > 0
        invariant
            rest@ == all.take(rest@.len() as int),
            rest@.len() + reversed@.len() == all.len(),
            forall|i: int|
                0 <= i < reversed@.len() ==> #[trigger] reversed@[i] == all[all.len() - 1 - i],
        decreases rest@.len(),
    {
        let ghost n = rest@.len() as int;
        if let Some(t) = rest.pop() {
            assert(t == all[n - 1]);
            reversed.push(t);
        }
        assert(rest@ =~= all.take(n - 1));
    }
    let mut sorted: Vec<ToplevelSummary> = Vec::new();
    let ghost mut done: int = 0;
    assert(all.take(0) =~= Seq::<ToplevelSummary>::empty());
    while reversed.len() > 0
        invariant
            0 <= done <= all.len(),
            reversed@.len() == all.len() - done,
            forall|i: int|
                0 <= i < reversed@.len() ==> #[trigger] reversed@[i] == all[all.len() - 1 - i],
            sorted@ == by_title(all.take(done)),
        decreases reversed@.len(),
    {
        if let Some(t) = reversed.pop() {
            assert(t == all[done]);
            proof {
                assert(all.take(done + 1).drop_last() =~= all.take(done));
                assert(all.take(done + 1).last() == t);
            }
            insert_by_title(&mut sorted, t);
            proof {
                done = done + 1;
            }
        }
    }
    assert(all.take(done) =~= all);
    sorted
}

/// The names of the outputs that have one, in the outputs' order.
pub open spec fn names_of(outputs: Seq<NamedOutput>, on: Seq<u64>) -> Seq<String>
    decreases on.len(),
{
    if on.len() == 0 {
        Seq::empty()
    } else {
        let before = names_of(outputs, on.drop_last());
        match name_of(outputs, on.last()) {
            Some(n) => before.push(n),
            None => before,
        }
    }
}

fn find_names(outputs: &Vec<NamedOutput>, on: &Vec<u64>) -> (v: Vec<String>)
    ensures
        v@ == names_of(outputs@, on@),
{
    let mut v: Vec<String> = Vec::new();
    let mut i: usize = 0;
    assert(on@.take(0) =~= Seq::empty());
    while i < on.len()
        invariant
            i <= on@.len(),
            v@ == names_of(outputs@, on@.take(i as int)),
        decreases on@.len() - i,
    {
        assert(on@.take(i + 1).drop_last() =~= on@.take(i as int));
        if let Some(n) = find_name(outputs, on[i]) {
            v.push(n);
        }
        i = i + 1;
    }
    assert(on@.take(i as int) =~= on@);
    v
}

/// A window as it is listed, under its names and with those of its outputs.
pub open spec fn summarizes(
    s: ToplevelSummary,
    info: ToplevelInfo,
    outputs: Seq<NamedOutput>,
) -> bool {
    &&& s.identifier == info.identifier
    &&& s.title == info.title
    &&& s.app_id == info.app_id
    &&& s.outputs@ == names_of(outputs, info.outputs@)
}

/// One summary for each window, in the windows' order.
pub open spec fn summarized(
    listed: Seq<ToplevelSummary>,
    infos: Seq<ToplevelInfo>,
    outputs: Seq<NamedOutput>,
) -> bool {
    &&& listed.len() == infos.len()
    &&& forall|i: int|
        0 <= i < infos.len() ==> summarizes(#[trigger] listed[i], infos[i], outputs)
}

/// Lists every window, with the names of the outputs that it is on, in the order of
/// the titles.
pub fn summaries(toplevels: &Vec<ToplevelInfo>, outputs: &Vec<NamedOutput>) -> (v: Vec<
    ToplevelSummary,
>)
    ensures
        exists|listed: Seq<ToplevelSummary>| #[trigger]
            summarized(listed, toplevels@, outputs@) && v@ == by_title(listed),
        v@.len() == toplevels@.len(),
        ordered(v@),
{
    let mut listed: Vec<ToplevelSummary> = Vec::new();
    let mut i: usize = 0;
    while i < toplevels.len()
        invariant
            i <= toplevels@.len(),
            summarized(listed@, toplevels@.take(i as int), outputs@),
        decreases toplevels@.len() - i,
    {
        let t = &toplevels[i];
        listed.push(
            ToplevelSummary {
                identifier: t.identifier.clone(),
                title: t.title.clone(),
                app_id: t.app_id.clone(),
                outputs: find_names(outputs, &t.outputs),
            },
        );
        i = i + 1;
    }
    assert(toplevels@.take(i as int) =~= toplevels@);
    proof {
        let ghost all = listed@;
        assert(summarized(all, toplevels@, outputs@));
        sorting_keeps_every_window(all);
        assert(by_title(all).to_multiset().len() == all.to_multiset().len());
        by_title(all).to_multiset_ensures();
        all.to_multiset_ensures();
    }
    sort_by_title(listed)
}

proof fn lemma_text_le_total(a: Seq<char>, b: Seq<char>)
    ensures
        text_le(a, b) || text_le(b, a),
    decreases a.len(),
{
    if a.len() > 0 && b.len() > 0 && a[0] == b[0] {
        lemma_text_le_total(a.drop_first(), b.drop_first());
    }
}

proof fn lemma_text_le_transitive(a: Seq<char>, b: Seq<char>, c: Seq<char>)
    requires
        text_le(a, b),
        text_le(b, c),
    ensures
        text_le(a, c),
    decreases a.len(),
{
    if a.len() > 0 && b.len() > 0 && c.len() > 0 && a[0] == b[0] && b[0] == c[0] {
        lemma_text_le_transitive(a.drop_first(), b.drop_first(), c.drop_first());
    }
}

/// No window stands before one with an earlier title.
pub open spec fn ordered(s: Seq<ToplevelSummary>) -> bool {
    forall|i: int, j: int|
        0 <= i <= j < s.len() ==> text_le((#[trigger] s[i]).title@, (#[trigger] s[j]).title@)
}

proof fn lemma_text_le_reflexive(a: Seq<char>)
    ensures
        text_le(a, a),
    decreases a.len(),
{
    if a.len() > 0 {
        lemma_text_le_reflexive(a.drop_first());
    }
}

proof fn lemma_inserted(s: Seq<ToplevelSummary>, t: ToplevelSummary)
    requires
        ordered(s),
    ensures
        ordered(inserted(s, t)),
        inserted(s, t).to_multiset() == s.to_multiset().insert(t),
        inserted(s, t).len() == s.len() + 1,
        forall|i: int|
            0 <= i < inserted(s, t).len() ==> (#[trigger] inserted(s, t)[i] == t || s.contains(
                inserted(s, t)[i],
            )),
    decreases s.len(),
{
    broadcast use vstd::seq_lib::group_to_multiset_ensures;

    let r = inserted(s, t);
    lemma_text_le_reflexive(t.title@);
    if s.len() == 0 {
        assert(seq![t] =~= s.push(t));
    } else if text_le(s.last().title@, t.title@) {
        assert forall|i: int| 0 <= i < s.len() implies text_le((#[trigger] s[i]).title@, t.title@) by {
            assert(text_le(s[i].title@, s[s.len() - 1].title@));
            lemma_text_le_transitive(s[i].title@, s.last().title@, t.title@);
        }
        assert forall|i: int| 0 <= i < r.len() implies (#[trigger] r[i] == t || s.contains(
            r[i],
        )) by {
            if i < s.len() {
                assert(r[i] == s[i]);
            }
        }
    } else {
        let init = s.drop_last();
        let last = s.last();
        assert forall|i: int, j: int| 0 <= i <= j < init.len() implies text_le(
            (#[trigger] init[i]).title@,
            (#[trigger] init[j]).title@,
        ) by {
            assert(init[i] == s[i] && init[j] == s[j]);
        }
        lemma_inserted(init, t);
        lemma_text_le_total(last.title@, t.title@);
        lemma_text_le_reflexive(last.title@);
        let before = inserted(init, t);
        assert forall|i: int| 0 <= i < before.len() implies text_le(
            (#[trigger] before[i]).title@,
            last.title@,
        ) by {
            if before[i] != t {
                let k = choose|k: int| 0 <= k < init.len() && init[k] == before[i];
                assert(s[k] == before[i]);
                assert(text_le(s[k].title@, s[s.len() - 1].title@));
            }
        }
        assert(s =~= init.push(last));
        assert forall|i: int| 0 <= i < r.len() implies (#[trigger] r[i] == t || s.contains(
            r[i],
        )) by {
            if i < before.len() {
                assert(r[i] == before[i]);
                if before[i] != t {
                    let k = choose|k: int| 0 <= k < init.len() && init[k] == before[i];
                    assert(s[k] == before[i]);
                }
            } else {
                assert(s[s.len() - 1] == r[i]);
            }
        }
        assert(r.to_multiset() =~= s.to_multiset().insert(t));
    }
}

/// A sorted list holds the windows it was made of, no more and no less, in the
/// order of their titles.
pub proof fn sorting_keeps_every_window(s: Seq<ToplevelSummary>)
    ensures
        ordered(by_title(s)),
        by_title(s).to_multiset() == s.to_multiset(),
    decreases s.len(),
{
    broadcast use vstd::seq_lib::group_to_multiset_ensures;

    if s.len() > 0 {
        sorting_keeps_every_window(s.drop_last());
        lemma_inserted(by_title(s.drop_last()), s.last());
        assert(s =~= s.drop_last().push(s.last()));
    }
}

/// A window to capture for the picker, and what it is called.
pub struct WindowSource {
    pub handle: u64,
    pub identifier: String,
    pub title: String,
    pub app_id: String,
}

/// The place of the last window with that handle.
pub open spec fn last_with(infos: Seq<ToplevelInfo>, handle: u64) -> Option<int>
    decreases infos.len(),
{
    if infos.len() == 0 {
        None
    } else if infos.last().handle == handle {
        Some(infos.len() - 1)
    } else {
        last_with(infos.drop_last(), handle)
    }
}

/// What the picker captures of the windows with these handles: those that are
/// known, under their names.
pub open spec fn sources_of(handles: Seq<u64>, infos: Seq<ToplevelInfo>) -> Seq<WindowSource>
    decreases handles.len(),
{
    if handles.len() == 0 {
        Seq::empty()
    } else {
        let before = sources_of(handles.drop_last(), infos);
        match last_with(infos, handles.last()) {
            Some(i) => before.push(
                WindowSource {
                    handle: handles.last(),
                    identifier: infos[i].identifier,
                    title: infos[i].title,
                    app_id: infos[i].app_id,
                },
            ),
            None => before,
        }
    }
}

fn find_last(infos: &Vec<ToplevelInfo>, handle: u64) -> (r: Option<usize>)
    ensures
        match r {
            Some(i) => i < infos@.len() && last_with(infos@, handle) == Some(i as int),
            None => last_with(infos@, handle) is None,
        },
{
    let mut n: usize = infos.len();
    assert(infos@.take(n as int) =~= infos@);
    while n > 0
        invariant
            n <= infos@.len(),
            last_with(infos@, handle) == last_with(infos@.take(n as int), handle),
        decreases n,
    {
        assert(infos@.take(n as int).drop_last() =~= infos@.take(n - 1));
        if infos[n - 1].handle == handle {
            return Some(n - 1);
        }
        n = n - 1;
    }
    None
}

/// What the picker captures of the windows with these handles.
pub fn window_sources(handles: &Vec<u64>, infos: &Vec<ToplevelInfo>) -> (v: Vec<WindowSource>)
    ensures
        v@ == sources_of(handles@, infos@),
{
    let mut v: Vec<WindowSource> = Vec::new();
    let mut i: usize = 0;
    assert(handles@.take(0) =~= Seq::empty());
    while i < handles.len()
        invariant
            i <= handles@.len(),
            v@ == sources_of(handles@.take(i as int), infos@),
        decreases handles@.len() - i,
    {
        assert(handles@.take(i + 1).drop_last() =~= handles@.take(i as int));
        if let Some(j) = find_last(infos, handles[i]) {
            v.push(
                WindowSource {
                    handle: handles[i],
                    identifier: infos[j].identifier.clone(),
                    title: infos[j].title.clone(),
                    app_id: infos[j].app_id.clone(),
                },
            );
        }
        i = i + 1;
    }
    assert(handles@.take(i as int) =~= handles@);
    v
}

/// The window found for an identifier is the first that bears it, and none is found
/// where none does.
pub proof fn a_window_is_found_by_its_identifier(toplevels: Seq<ToplevelInfo>, id: Seq<char>, i: int)
    requires
        0 <= i <= toplevels.len(),
        forall|j: int| 0 <= j < i ==> !((#[trigger] toplevels[j]).identifier@ == id),
        i < toplevels.len() ==> toplevels[i].identifier@ == id,
    ensures
        i < toplevels.len() ==> identified(toplevels, id) == Some(toplevels[i]),
        i == toplevels.len() ==> identified(toplevels, id) is None,
    decreases toplevels.len(),
{
    if i > 0 {
        assert(!(toplevels[0].identifier@ == id));
        let rest = toplevels.drop_first();
        assert forall|j: int| 0 <= j < i - 1 implies !((#[trigger] rest[j]).identifier@ == id) by {
            assert(!(toplevels[j + 1].identifier@ == id));
        }
        a_window_is_found_by_its_identifier(rest, id, i - 1);
    }
}

/// The output found for a name is the first that bears it, and none is found where none
/// does.
pub proof fn an_output_is_found_by_its_name(outputs: Seq<NamedOutput>, name: Seq<char>, i: int)
    requires
        0 <= i <= outputs.len(),
        forall|j: int| 0 <= j < i ==> !(((#[trigger] outputs[j]).name is Some && (#[trigger] outputs[j]).name->0@ == name)),
        i < outputs.len() ==> (outputs[i].name is Some && outputs[i].name->0@ == name),
    ensures
        i < outputs.len() ==> output_named(outputs, name) == Some(outputs[i].output),
        i == outputs.len() ==> output_named(outputs, name) is None,
    decreases outputs.len(),
{
    if i > 0 {
        assert(!((outputs[0].name is Some && outputs[0].name->0@ == name)));
        let rest = outputs.drop_first();
        assert forall|j: int| 0 <= j < i - 1 implies !(((#[trigger] rest[j]).name is Some && (#[trigger] rest[j]).name->0@ == name)) by {
            assert(!((outputs[j + 1].name is Some && outputs[j + 1].name->0@ == name)));
        }
        an_output_is_found_by_its_name(rest, name, i - 1);
    }
}

/// Where a window lies on an output is what the compositor says of that output.
pub proof fn a_windows_place_is_the_one_on_the_output(geometry: Seq<Geometry>, output: u64, i: int)
    requires
        0 <= i <= geometry.len(),
        forall|j: int| 0 <= j < i ==> !((#[trigger] geometry[j]).output == output),
        i < geometry.len() ==> geometry[i].output == output,
    ensures
        i < geometry.len() ==> geometry_on(geometry, output) == Some(geometry[i]),
        i == geometry.len() ==> geometry_on(geometry, output) is None,
    decreases geometry.len(),
{
    if i > 0 {
        assert(!(geometry[0].output == output));
        let rest = geometry.drop_first();
        assert forall|j: int| 0 <= j < i - 1 implies !((#[trigger] rest[j]).output == output) by {
            assert(!(geometry[j + 1].output == output));
        }
        a_windows_place_is_the_one_on_the_output(rest, output, i - 1);
    }
}

/// The window with the focus is the first that is activated.
pub proof fn the_focus_is_the_first_activated_windows(toplevels: Seq<ToplevelInfo>, i: int)
    requires
        0 <= i <= toplevels.len(),
        forall|j: int| 0 <= j < i ==> !((#[trigger] toplevels[j]).activated),
        i < toplevels.len() ==> toplevels[i].activated,
    ensures
        i < toplevels.len() ==> focused(toplevels) == Some(toplevels[i]),
        i == toplevels.len() ==> focused(toplevels) is None,
    decreases toplevels.len(),
{
    if i > 0 {
        assert(!(toplevels[0].activated));
        let rest = toplevels.drop_first();
        assert forall|j: int| 0 <= j < i - 1 implies !((#[trigger] rest[j]).activated) by {
            assert(!(toplevels[j + 1].activated));
        }
        the_focus_is_the_first_activated_windows(rest, i - 1);
    }
}

/// The name of an output is the one that it was listed with.
pub proof fn an_outputs_name_is_its_own(outputs: Seq<NamedOutput>, output: u64, i: int)
    requires
        0 <= i <= outputs.len(),
        forall|j: int| 0 <= j < i ==> !((#[trigger] outputs[j]).output == output),
        i < outputs.len() ==> outputs[i].output == output,
    ensures
        i < outputs.len() ==> name_of(outputs, output) == outputs[i].name,
        i == outputs.len() ==> name_of(outputs, output) is None,
    decreases outputs.len(),
{
    if i > 0 {
        assert(!(outputs[0].output == output));
        let rest = outputs.drop_first();
        assert forall|j: int| 0 <= j < i - 1 implies !((#[trigger] rest[j]).output == output) by {
            assert(!(outputs[j + 1].output == output));
        }
        an_outputs_name_is_its_own(rest, output, i - 1);
    }
}

/// The name that a window goes by is that of the first of its outputs that has one.
pub proof fn a_windows_first_named_output_counts(outputs: Seq<NamedOutput>, on: Seq<u64>, i: int)
    requires
        0 <= i <= on.len(),
        forall|j: int| 0 <= j < i ==> name_of(outputs, #[trigger] on[j]) is None,
        i < on.len() ==> name_of(outputs, on[i]) is Some,
    ensures
        i < on.len() ==> first_name(outputs, on) == name_of(outputs, on[i]),
        i == on.len() ==> first_name(outputs, on) is None,
    decreases on.len(),
{
    if i > 0 {
        assert(name_of(outputs, on[0]) is None);
        let rest = on.drop_first();
        assert forall|j: int| 0 <= j < i - 1 implies name_of(outputs, #[trigger] rest[j]) is None by {
            assert(name_of(outputs, on[j + 1]) is None);
        }
        a_windows_first_named_output_counts(outputs, rest, i - 1);
    }
}

/// A window shows on an output exactly where it is on that output and on a workspace that
/// is shown.
pub proof fn windows_show_where_their_workspace_does(
    info: ToplevelInfo,
    workspaces: Seq<Workspace>,
    output: u64,
)
    ensures
        shows_on(info, workspaces, output) <==> (info.outputs@.contains(output) && exists|w: Workspace|
            #[trigger] workspaces.contains(w) && w.active && info.workspaces@.contains(w.handle)),
{
    if visible(info, workspaces) {
        let i = choose|i: int|
            0 <= i < workspaces.len() && (#[trigger] workspaces[i]).active
                && info.workspaces@.contains(workspaces[i].handle);
        assert(workspaces.contains(workspaces[i]));
    }
    if exists|w: Workspace|
        #[trigger] workspaces.contains(w) && w.active && info.workspaces@.contains(w.handle) {
        let w = choose|w: Workspace|
            #[trigger] workspaces.contains(w) && w.active && info.workspaces@.contains(w.handle);
        let i = choose|i: int| 0 <= i < workspaces.len() && workspaces[i] == w;
        assert(workspaces[i].active);
    }
}

/// Windows are listed in the compositor's order: the list of two rows of windows is that
/// of the first with that of the second behind it, and a single window is listed once
/// where it shows.
pub proof fn windows_are_listed_in_order(
    a: Seq<ToplevelInfo>,
    b: Seq<ToplevelInfo>,
    workspaces: Seq<Workspace>,
    output: u64,
)
    ensures
        shown(a + b, workspaces, output) == shown(a, workspaces, output) + shown(
            b,
            workspaces,
            output,
        ),
        a.len() == 1 ==> shown(a, workspaces, output) == (if shows_on(a[0], workspaces, output) {
            seq![a[0].handle]
        } else {
            Seq::empty()
        }),
    decreases b.len(),
{
    if a.len() == 1 {
        assert(shown(a.drop_last(), workspaces, output) =~= Seq::empty());
        assert(shown(a, workspaces, output) =~= (if shows_on(a[0], workspaces, output) {
            seq![a[0].handle]
        } else {
            Seq::empty()
        }));
    }
    if b.len() == 0 {
        assert(a + b =~= a);
        assert(shown(b, workspaces, output) =~= Seq::empty());
        assert(shown(a, workspaces, output) + shown(b, workspaces, output) =~= shown(
            a,
            workspaces,
            output,
        ));
    } else {
        windows_are_listed_in_order(a, b.drop_last(), workspaces, output);
        assert((a + b).drop_last() =~= a + b.drop_last());
        assert((a + b).last() == b.last());
        let before = shown(b.drop_last(), workspaces, output);
        if shows_on(b.last(), workspaces, output) {
            assert(shown(a, workspaces, output) + before.push(b.last().handle) =~= (shown(
                a,
                workspaces,
                output,
            ) + before).push(b.last().handle));
        }
    }
}

/// The pictures of the picker bear the names of the windows that they show: each is of one
/// of the windows asked for, under what the compositor last said of it, and none that is
/// known is left out.
pub proof fn pictures_bear_their_windows_names(
    handles: Seq<u64>,
    infos: Seq<ToplevelInfo>,
    k: int,
)
    requires
        0 <= k < sources_of(handles, infos).len(),
    ensures
        ({
            let s = sources_of(handles, infos)[k];
            &&& handles.contains(s.handle)
            &&& exists|i: int|
                0 <= i < infos.len() && (#[trigger] infos[i]).handle == s.handle && s.identifier
                    == infos[i].identifier && s.title == infos[i].title && s.app_id
                    == infos[i].app_id && forall|j: int|
                    i < j < infos.len() ==> (#[trigger] infos[j]).handle != s.handle
        }),
    decreases handles.len(),
{
    let init = handles.drop_last();
    let before = sources_of(init, infos);
    if k < before.len() {
        pictures_bear_their_windows_names(init, infos, k);
        assert(sources_of(handles, infos)[k] == before[k]);
        let h = before[k].handle;
        let i = choose|i: int| 0 <= i < init.len() && init[i] == h;
        assert(handles[i] == h);
    } else {
        lemma_last_with(infos, handles.last());
        assert(handles[handles.len() - 1] == handles.last());
    }
}

proof fn lemma_last_with(infos: Seq<ToplevelInfo>, handle: u64)
    ensures
        match last_with(infos, handle) {
            Some(i) => 0 <= i < infos.len() && infos[i].handle == handle && forall|j: int|
                i < j < infos.len() ==> (#[trigger] infos[j]).handle != handle,
            None => forall|j: int| 0 <= j < infos.len() ==> (#[trigger] infos[j]).handle != handle,
        },
    decreases infos.len(),
{
    if infos.len() > 0 && infos.last().handle != handle {
        let init = infos.drop_last();
        lemma_last_with(init, handle);
        assert forall|j: int| 0 <= j < init.len() implies #[trigger] infos[j] == init[j] by {}
    }
}

/// Every window asked for that is known has its picture.
pub proof fn known_windows_have_their_picture(handles: Seq<u64>, infos: Seq<ToplevelInfo>, h: int, i: int)
    requires
        0 <= h < handles.len(),
        0 <= i < infos.len(),
        infos[i].handle == handles[h],
    ensures
        exists|k: int|
            0 <= k < sources_of(handles, infos).len() && (#[trigger] sources_of(handles, infos)[k]).handle
                == handles[h],
    decreases handles.len(),
{
    let init = handles.drop_last();
    let before = sources_of(init, infos);
    let after = sources_of(handles, infos);
    lemma_last_with(infos, handles[h]);
    if last_with(infos, handles[h]) is None {
        assert(infos[i].handle != handles[h]);
    }
    if h == handles.len() - 1 {
        assert(after[after.len() - 1].handle == handles[h]);
    } else {
        known_windows_have_their_picture(init, infos, h, i);
        let k = choose|k: int|
            0 <= k < before.len() && (#[trigger] sources_of(init, infos)[k]).handle == init[h];
        assert(after[k] == before[k]);
    }
}

/// A window is visible with any workspace that shows it, and with none it is not.
pub proof fn a_window_is_visible_with_its_workspace(
    info: ToplevelInfo,
    workspaces: Seq<Workspace>,
    i: int,
)
    requires
        0 <= i < workspaces.len(),
    ensures
        workspaces[i].active && info.workspaces@.contains(workspaces[i].handle) ==> visible(
            info,
            workspaces,
        ),
        (forall|j: int| 0 <= j < workspaces.len() ==> !(#[trigger] workspaces[j]).active)
            ==> !visible(info, workspaces),
        info.workspaces@.len() == 0 ==> !visible(info, workspaces),
{
}

/// A title stands before another by the first character in which they differ, and before
/// any that goes on where it ends.
pub proof fn titles_are_ordered_by_their_first_difference(
    same: Seq<char>,
    a: Seq<char>,
    b: Seq<char>,
)
    ensures
        text_le(same + a, same + b) == text_le(a, b),
        text_le(same, same + b),
        b.len() > 0 ==> !text_le(same + b, same),
        a.len() > 0 && b.len() > 0 && a[0] != b[0] ==> (text_le(same + a, same + b) <==> (a[0] as int)
            < (b[0] as int)),
    decreases same.len(),
{
    if same.len() > 0 {
        let rest = same.drop_first();
        titles_are_ordered_by_their_first_difference(rest, a, b);
        assert((same + a).drop_first() =~= rest + a);
        assert((same + b).drop_first() =~= rest + b);
        assert((same + a)[0] == same[0] && (same + b)[0] == same[0]);
    } else {
        assert(same + a =~= a);
        assert(same + b =~= b);
    }
}

/// A window is listed with the names of its outputs, each that has one, in their order.
pub proof fn outputs_are_named_in_order(outputs: Seq<NamedOutput>, a: Seq<u64>, b: Seq<u64>)
    ensures
        names_of(outputs, a + b) == names_of(outputs, a) + names_of(outputs, b),
        b.len() == 1 ==> names_of(outputs, b) == (match name_of(outputs, b[0]) {
            Some(n) => seq![n],
            None => Seq::empty(),
        }),
    decreases b.len(),
{
    if b.len() > 0 {
        let init = b.drop_last();
        outputs_are_named_in_order(outputs, a, init);
        assert((a + b).drop_last() =~= a + init);
        assert((a + b).last() == b.last());
        assert(names_of(outputs, a + b) =~= names_of(outputs, a) + names_of(outputs, b));
        if b.len() == 1 {
            assert(init =~= Seq::empty());
            assert(b.last() == b[0]);
            assert(names_of(outputs, init) =~= Seq::empty());
        }
    } else {
        assert(a + b =~= a);
        assert(names_of(outputs, b) =~= Seq::empty());
        assert(names_of(outputs, a) + names_of(outputs, b) =~= names_of(outputs, a));
    }
}

} // verus!
