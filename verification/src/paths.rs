//! Where captures are saved.
use crate::text;
use std::sync::Arc;
use vstd::prelude::*;
use vstd::utf8::encode_utf8;

verus! {

/// What is saved.
#[derive(Clone, Copy, Debug, PartialEq, Eq, Structural)]
pub enum Kind {
    /// A still image: `Screenshots/Screenshot-<time>` among the pictures.
    Screenshot,
    /// A video or an animated image: `Captures/Capture-<time>` among the videos.
    Recording,
}

/// A path as the system has it: bytes, which need not be Unicode.
#[derive(Debug, PartialEq, Eq)]
pub struct FilePath {
    pub bytes: Arc<Vec<u8>>,
}

impl View for FilePath {
    type V = Seq<u8>;

    open spec fn view(&self) -> Seq<u8> {
        self.bytes@
    }
}

impl FilePath {
    /// The path of the given bytes.
    pub fn new(bytes: Vec<u8>) -> (p: FilePath)
        ensures
            p@ == bytes@,
    {
        FilePath { bytes: Arc::new(bytes) }
    }

    /// The path that a text spells.
    pub fn of_text(text: &str) -> (p: FilePath)
        ensures
            p@ == encode_utf8(text@),
    {
        let mut bytes: Vec<u8> = Vec::new();
        bytes.extend_from_slice(text.as_bytes());
        assert(bytes@ =~= encode_utf8(text@));
        FilePath::new(bytes)
    }
}

/// The path of the given bytes, where there are any.
fn as_path(bytes: Option<Vec<u8>>) -> (p: Option<FilePath>)
    ensures
        p is Some <==> bytes is Some,
        p is Some ==> p->0@ == bytes->0@,
{
    match bytes {
        Some(b) => Some(FilePath::new(b)),
        None => None,
    }
}

/// Trusted: `dirs::picture_dir`, the bytes of the user's directory for pictures, where there
/// is one. What it is rests with the user's settings.
#[verifier::external_body]
fn picture_dir() -> (d: Option<Vec<u8>>) {
    dirs::picture_dir().map(|p| p.into_os_string().into_encoded_bytes())
}

/// Trusted: `dirs::video_dir`, the bytes of the user's directory for videos, where there
/// is one. What it is rests with the user's settings.
#[verifier::external_body]
fn video_dir() -> (d: Option<Vec<u8>>) {
    dirs::video_dir().map(|p| p.into_os_string().into_encoded_bytes())
}

/// Trusted: `dirs::home_dir`, the bytes of the user's own directory, where there
/// is one. What it is rests with the user's settings.
#[verifier::external_body]
fn home_dir() -> (d: Option<Vec<u8>>) {
    dirs::home_dir().map(|p| p.into_os_string().into_encoded_bytes())
}

/// Trusted: `dirs::config_dir`, the bytes of the user's directory for settings, where there
/// is one. What it is rests with the user's settings.
#[verifier::external_body]
fn user_config_dir() -> (d: Option<Vec<u8>>) {
    dirs::config_dir().map(|p| p.into_os_string().into_encoded_bytes())
}

/// Trusted: `dirs::document_dir`, the bytes of the user's directory for documents, where there
/// is one. What it is rests with the user's settings.
#[verifier::external_body]
fn document_dir() -> (d: Option<Vec<u8>>) {
    dirs::document_dir().map(|p| p.into_os_string().into_encoded_bytes())
}

/// A time of day on a day, as a wall clock and a calendar show it.
#[derive(Clone, Copy, Debug, PartialEq, Eq, Structural)]
pub struct LocalTime {
    pub year: i32,
    pub month: u32,
    pub day: u32,
    pub hour: u32,
    pub minute: u32,
    pub second: u32,
}

impl LocalTime {
    /// The month and the day count from one, the others from zero.
    pub open spec fn wf(self) -> bool {
        &&& 1 <= self.month <= 12
        &&& 1 <= self.day <= 31
        &&& self.hour <= 23
        &&& self.minute <= 59
        &&& self.second <= 59
    }

    /// The year in four digits or more, with a sign where it lies outside 0 to
    /// 9999.
    pub open spec fn year_text(self) -> Seq<char> {
        if self.year < 0 {
            seq!['-'] + text::four_digits((-self.year) as nat)
        } else if self.year > 9999 {
            seq!['+'] + text::four_digits(self.year as nat)
        } else {
            text::four_digits(self.year as nat)
        }
    }

    /// The time as it stands in a file's name: year, month and day, then hour,
    /// minute and second.
    pub open spec fn stamp(self) -> Seq<char> {
        self.year_text() + seq!['-'] + text::two_digits(self.month as nat) + seq!['-']
            + text::two_digits(self.day as nat) + seq!['_'] + text::two_digits(self.hour as nat)
            + seq!['-'] + text::two_digits(self.minute as nat) + seq!['-'] + text::two_digits(
            self.second as nat,
        )
    }

    /// The time as it stands in a file's name.
    pub fn stamp_text(&self) -> (s: String)
        ensures
            s@ == self.stamp(),
    {
        let mut s = text::owned("");
        proof {
            reveal_strlit("");
        }
        assert(s@ =~= Seq::empty());
        let year: i64 = self.year as i64;
        if year < 0 {
            s.push('-');
            text::push_four_digits(&mut s, (0 - year) as u64);
        } else {
            if year > 9999 {
                s.push('+');
            }
            text::push_four_digits(&mut s, year as u64);
        }
        assert(s@ =~= self.year_text());
        s.push('-');
        text::push_two_digits(&mut s, self.month as u64);
        s.push('-');
        text::push_two_digits(&mut s, self.day as u64);
        s.push('_');
        text::push_two_digits(&mut s, self.hour as u64);
        s.push('-');
        text::push_two_digits(&mut s, self.minute as u64);
        s.push('-');
        text::push_two_digits(&mut s, self.second as u64);
        assert(s@ =~= self.stamp());
        s
    }
}

/// A text is a time as it stands in a file's name.
pub open spec fn is_stamp(s: Seq<char>) -> bool {
    exists|t: LocalTime| t.wf() && s == #[trigger] t.stamp()
}

/// Trusted: `chrono::Local::now`, with the fields that `chrono::Datelike` and
/// `chrono::Timelike` read from it, each in its range. Which time it is rests with
/// the clock and the time zone, and is left unsaid.
#[verifier::external_body]
fn local_time() -> (t: LocalTime)
    ensures
        t.wf(),
{
    let now = chrono::Local::now();
    LocalTime {
        year: chrono::Datelike::year(&now),
        month: chrono::Datelike::month(&now),
        day: chrono::Datelike::day(&now),
        hour: chrono::Timelike::hour(&now),
        minute: chrono::Timelike::minute(&now),
        second: chrono::Timelike::second(&now),
    }
}

fn local_stamp() -> (s: String)
    ensures
        is_stamp(s@),
{
    let t = local_time();
    t.stamp_text()
}

/// What separates the parts of a path.
pub const SEPARATOR: u8 = 0x2f;

/// A name in a directory.
pub open spec fn joined(dir: Seq<u8>, name: Seq<char>) -> Seq<u8> {
    if dir.len() == 0 || dir.last() == SEPARATOR {
        dir + encode_utf8(name)
    } else {
        dir.push(SEPARATOR) + encode_utf8(name)
    }
}

/// A name in a directory.
pub fn join(dir: &FilePath, name: &str) -> (p: FilePath)
    ensures
        p@ == joined(dir@, name@),
{
    let mut bytes: Vec<u8> = Vec::new();
    bytes.extend_from_slice(dir.bytes.as_slice());
    assert(bytes@ =~= dir@);
    let n: usize = bytes.len();
    if n > 0 && bytes[n - 1] != SEPARATOR {
        bytes.push(SEPARATOR);
    }
    bytes.extend_from_slice(name.as_bytes());
    assert(bytes@ =~= joined(dir@, name@));
    FilePath::new(bytes)
}

/// The directory below the user's for a kind.
pub open spec fn kind_dir(kind: Kind) -> Seq<char> {
    match kind {
        Kind::Screenshot => "Screenshots"@,
        Kind::Recording => "Captures"@,
    }
}

/// What the names of a kind begin with.
pub open spec fn kind_prefix(kind: Kind) -> Seq<char> {
    match kind {
        Kind::Screenshot => "Screenshot"@,
        Kind::Recording => "Capture"@,
    }
}

/// The name of a file with a time in it.
pub open spec fn stamped(prefix: Seq<char>, stamp: Seq<char>, ext: Seq<char>) -> Seq<char> {
    prefix + "-"@ + stamp + "."@ + ext
}

/// The name of a file with a time in it.
pub fn stamped_name(prefix: &str, stamp: &str, ext: &str) -> (s: String)
    ensures
        s@ == stamped(prefix@, stamp@, ext@),
{
    let mut s = text::owned(prefix);
    s.append("-");
    s.append(stamp);
    s.append(".");
    s.append(ext);
    s
}

/// A file to write, and the directory that has to be there for it, where it is
/// not of the user's choosing.
pub struct Resolved {
    pub path: FilePath,
    pub create_dir: Option<FilePath>,
}

/// No directory of the user could be found.
#[derive(Clone, Copy, Debug, PartialEq, Eq, Structural)]
pub struct NoHome;

impl NoHome {
    /// The message for the user.
    pub fn message(&self) -> (s: &'static str)
        ensures
            s@ == "could not locate home directory"@,
    {
        "could not locate home directory"
    }
}

/// This is where a capture goes: where the user says, else into the directory of
/// its kind, below the pictures for a screenshot and below the videos for a
/// recording, or below `home` where there is no such.
pub open spec fn resolves(
    r: Result<Resolved, NoHome>,
    user: Option<FilePath>,
    kind: Kind,
    ext: Seq<char>,
    pictures: Option<FilePath>,
    videos: Option<FilePath>,
    home: Option<FilePath>,
    stamp: Seq<char>,
) -> bool {
    let base = match kind {
        Kind::Screenshot => pictures,
        Kind::Recording => videos,
    };
    let below = match base {
        Some(b) => Some(b),
        None => home,
    };
    match user {
        Some(p) => r is Ok && r->Ok_0.path == p && r->Ok_0.create_dir is None,
        None => match below {
            Some(b) => {
                let dir = joined(b@, kind_dir(kind));
                &&& r is Ok
                &&& r->Ok_0.create_dir is Some
                &&& r->Ok_0.create_dir->0@ == dir
                &&& r->Ok_0.path@ == joined(dir, stamped(kind_prefix(kind), stamp, ext))
            },
            None => r is Err,
        },
    }
}

/// Where a capture goes, given the user's directories and the time.
pub fn resolve_in(
    user: Option<FilePath>,
    kind: Kind,
    ext: &str,
    pictures: Option<FilePath>,
    videos: Option<FilePath>,
    home: Option<FilePath>,
    stamp: &str,
) -> (r: Result<Resolved, NoHome>)
    ensures
        resolves(r, user, kind, ext@, pictures, videos, home, stamp@),
{
    if let Some(p) = user {
        return Ok(Resolved { path: p, create_dir: None });
    }
    let (base, sub, prefix) = match kind {
        Kind::Screenshot => (pictures, "Screenshots", "Screenshot"),
        Kind::Recording => (videos, "Captures", "Capture"),
    };
    let below = match base {
        Some(b) => b,
        None => match home {
            Some(h) => h,
            None => {
                return Err(NoHome);
            },
        },
    };
    let dir = join(&below, sub);
    let name = stamped_name(prefix, stamp, ext);
    let path = join(&dir, name.as_str());
    Ok(Resolved { path, create_dir: Some(dir) })
}

/// Where a capture goes: where the user says, else into the user's directory for
/// its kind, under a name with the time in it. Which directories there are rests
/// with the user's environment; `resolve_in` says what comes back for each.
pub fn resolve(user: Option<FilePath>, kind: Kind, ext: &str) -> (r: Result<Resolved, NoHome>)
    ensures
        exists|
            pictures: Option<FilePath>,
            videos: Option<FilePath>,
            home: Option<FilePath>,
            stamp: Seq<char>,
        |
            is_stamp(stamp) && #[trigger] resolves(
                r,
                user,
                kind,
                ext@,
                pictures,
                videos,
                home,
                stamp,
            ),
{
    let pictures = as_path(picture_dir());
    let videos = as_path(video_dir());
    let home = as_path(home_dir());
    let stamp = local_stamp();
    let r = resolve_in(user, kind, ext, pictures, videos, home, stamp.as_str());
    assert(resolves(r, user, kind, ext@, pictures, videos, home, stamp@));
    r
}

/// The directory of the settings, below the user's for all settings.
pub fn config_dir_in(base: Option<FilePath>) -> (r: Option<FilePath>)
    ensures
        match base {
            Some(b) => r is Some && r->0@ == joined(b@, "cosmic-capture"@),
            None => r is None,
        },
{
    match base {
        Some(b) => Some(join(&b, "cosmic-capture")),
        None => None,
    }
}

/// The directory of the settings, where the user has one for settings. Whether
/// there is one rests with the user's environment; `config_dir_in` says what comes
/// back for each.
pub fn config_dir() -> (r: Option<FilePath>)
    ensures
        r is Some ==> exists|b: Seq<u8>| r->0@ == #[trigger] joined(b, "cosmic-capture"@),
{
    let base = as_path(user_config_dir());
    let r = config_dir_in(base);
    proof {
        if base is Some {
            assert(r->0@ == joined(base->0@, "cosmic-capture"@));
        }
    }
    r
}

/// The file for a screenshot among the documents, given their directory and the
/// time.
pub fn documents_file_in(dir: Option<FilePath>, stamp: &str) -> (r: Option<FilePath>)
    ensures
        match dir {
            Some(d) => r is Some && r->0@ == joined(d@, stamped("Screenshot"@, stamp@, "png"@)),
            None => r is None,
        },
{
    match dir {
        Some(d) => {
            let name = stamped_name("Screenshot", stamp, "png");
            Some(join(&d, name.as_str()))
        },
        None => None,
    }
}

/// The file for a screenshot among the documents, where the user has a directory
/// for those. Whether there is one rests with the user's environment;
/// `documents_file_in` says what comes back for each.
pub fn documents_file() -> (r: Option<FilePath>)
    ensures
        r is Some ==> exists|d: Seq<u8>, stamp: Seq<char>|
            is_stamp(stamp) && r->0@ == #[trigger] joined(
                d,
                #[trigger] stamped("Screenshot"@, stamp, "png"@),
            ),
{
    let dir = as_path(document_dir());
    let stamp = local_stamp();
    let r = documents_file_in(dir, stamp.as_str());
    proof {
        if dir is Some {
            assert(r->0@ == joined(dir->0@, stamped("Screenshot"@, stamp@, "png"@)));
        }
    }
    r
}

/// Captures of different kinds never have the same name in the same directory.
pub proof fn kinds_do_not_clash(dir: Seq<u8>, stamp: Seq<char>, ext: Seq<char>)
    ensures
        joined(dir, stamped(kind_prefix(Kind::Screenshot), stamp, ext)) != joined(
            dir,
            stamped(kind_prefix(Kind::Recording), stamp, ext),
        ),
{
    let image = stamped(kind_prefix(Kind::Screenshot), stamp, ext);
    let clip = stamped(kind_prefix(Kind::Recording), stamp, ext);
    reveal_strlit("Screenshot");
    reveal_strlit("Capture");
    assert(image.len() != clip.len());
    if joined(dir, image) == joined(dir, clip) {
        let at = joined(dir, image).len() - encode_utf8(image).len();
        assert(joined(dir, image).skip(at) =~= encode_utf8(image));
        assert(joined(dir, clip).skip(at) =~= encode_utf8(clip));
        vstd::utf8::encode_utf8_decode_utf8(image);
        vstd::utf8::encode_utf8_decode_utf8(clip);
    }
}

/// The time in a file's name reads back, each part from its own digits.
pub proof fn stamps_read_back(t: LocalTime)
    requires
        t.wf(),
        0 <= t.year <= 9999,
    ensures
        ({
            let s = t.stamp();
            &&& s.len() == 19
            &&& text::decimal_value(s.subrange(0, 4)) == t.year
            &&& text::decimal_value(s.subrange(5, 7)) == t.month
            &&& text::decimal_value(s.subrange(8, 10)) == t.day
            &&& text::decimal_value(s.subrange(11, 13)) == t.hour
            &&& text::decimal_value(s.subrange(14, 16)) == t.minute
            &&& text::decimal_value(s.subrange(17, 19)) == t.second
            &&& s[4] == '-' && s[7] == '-' && s[10] == '_' && s[13] == '-' && s[16] == '-'
        }),
{
    text::filled_numbers_read_back(t.year as nat);
    text::filled_numbers_read_back(t.month as nat);
    text::filled_numbers_read_back(t.day as nat);
    text::filled_numbers_read_back(t.hour as nat);
    text::filled_numbers_read_back(t.minute as nat);
    text::filled_numbers_read_back(t.second as nat);
    let s = t.stamp();
    assert(s.subrange(0, 4) =~= text::four_digits(t.year as nat));
    assert(s.subrange(5, 7) =~= text::two_digits(t.month as nat));
    assert(s.subrange(8, 10) =~= text::two_digits(t.day as nat));
    assert(s.subrange(11, 13) =~= text::two_digits(t.hour as nat));
    assert(s.subrange(14, 16) =~= text::two_digits(t.minute as nat));
    assert(s.subrange(17, 19) =~= text::two_digits(t.second as nat));
}

/// A name in a directory stands behind the directory, with one separator between them
/// where the directory does not end with one.
pub proof fn names_stand_behind_their_directory(dir: Seq<u8>, name: Seq<char>)
    ensures
        ({
            let p = joined(dir, name);
            let at = p.len() - encode_utf8(name).len();
            &&& dir.len() <= at <= dir.len() + 1
            &&& p.take(dir.len() as int) == dir
            &&& p.skip(at) == encode_utf8(name)
            &&& dir.len() > 0 ==> p[at - 1] == SEPARATOR
            &&& dir.len() == 0 ==> at == 0
            &&& at == dir.len() + 1 ==> dir.last() != SEPARATOR
        }),
{
    let p = joined(dir, name);
    let at = p.len() - encode_utf8(name).len();
    assert(p.take(dir.len() as int) =~= dir);
    assert(p.skip(at) =~= encode_utf8(name));
}

/// A file's name begins with its prefix and ends with a dot and its extension, with the
/// time between them.
pub proof fn names_tell_time_and_kind(prefix: Seq<char>, stamp: Seq<char>, ext: Seq<char>)
    ensures
        ({
            let s = stamped(prefix, stamp, ext);
            let (a, b) = (prefix.len() as int, (prefix.len() + 1 + stamp.len()) as int);
            &&& s.len() == a + 1 + stamp.len() + 1 + ext.len()
            &&& s.take(a) == prefix
            &&& s[a] == '-'
            &&& s.subrange(a + 1, b) == stamp
            &&& s[b] == '.'
            &&& s.skip(b + 1) == ext
        }),
{
    reveal_strlit("-");
    reveal_strlit(".");
    let s = stamped(prefix, stamp, ext);
    let (a, b) = (prefix.len() as int, (prefix.len() + 1 + stamp.len()) as int);
    assert(s.take(a) =~= prefix);
    assert(s.subrange(a + 1, b) =~= stamp);
    assert(s.skip(b + 1) =~= ext);
}

/// A capture goes where the user says. Else a screenshot goes below the pictures and a
/// recording below the videos, or below the home where those are not known, each into a
/// directory that has to be made and that the file stands in.
pub proof fn captures_go_where_they_belong(
    r: Result<Resolved, NoHome>,
    user: Option<FilePath>,
    kind: Kind,
    ext: Seq<char>,
    pictures: Option<FilePath>,
    videos: Option<FilePath>,
    home: Option<FilePath>,
    stamp: Seq<char>,
    base: FilePath,
)
    requires
        resolves(r, user, kind, ext, pictures, videos, home, stamp),
        match kind {
            Kind::Screenshot => pictures == Some(base) || (pictures is None && home == Some(base)),
            Kind::Recording => videos == Some(base) || (videos is None && home == Some(base)),
        },
    ensures
        user matches Some(p) ==> (r matches Ok(f) && f.path == p && f.create_dir is None),
        user is None ==> (r matches Ok(f) && f.create_dir is Some && {
            let dir = f.create_dir->0@;
            let name = stamped(kind_prefix(kind), stamp, ext);
            &&& base@.len() <= dir.len() <= f.path@.len()
            &&& dir.take(base@.len() as int) == base@
            &&& f.path@.take(dir.len() as int) == dir
            &&& f.path@.skip(f.path@.len() - encode_utf8(name).len()) == encode_utf8(name)
        }),
{
    if user is None {
        let dir = joined(base@, kind_dir(kind));
        names_stand_behind_their_directory(base@, kind_dir(kind));
        names_stand_behind_their_directory(dir, stamped(kind_prefix(kind), stamp, ext));
    }
}

/// Without a directory of the user there is nowhere to go, unless the user says where.
pub proof fn captures_need_a_place(
    r: Result<Resolved, NoHome>,
    user: Option<FilePath>,
    kind: Kind,
    ext: Seq<char>,
    pictures: Option<FilePath>,
    videos: Option<FilePath>,
    stamp: Seq<char>,
)
    requires
        resolves(r, user, kind, ext, pictures, videos, None, stamp),
        kind == Kind::Screenshot ==> pictures is None,
        kind == Kind::Recording ==> videos is None,
    ensures
        r is Err <==> user is None,
{
}

} // verus!
