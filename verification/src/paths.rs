//! Paths of audio files, read the way Windows reads them: both slashes separate
//! names, and a path may start with a drive or a network share. In a verbatim
//! path (`\\?\...`) only the backslash separates, and a dot is a name.

use crate::text::{characters, equal_but_case, same_but_case, same_text, small, texts};
use vstd::prelude::*;
use vstd::string::StrSliceExecFns;
use vstd::utf8::encode_utf8;

verus! {

/// The extensions of audio files.
pub const EXTS: [&'static str; 8] = ["mp3", "wav", "ogg", "flac", "m4a", "aac", "opus", "wma"];

/// The number of extensions.
pub const EXT_COUNT: usize = 8;

/// The name of a clip whose file has none.
pub const UNNAMED: &'static str = "sound";

/// The path of a clip, with the parts of its file name that the board looks at.
#[derive(Debug)]
pub struct ClipPath {
    /// The whole path. What is no text in it is replaced.
    pub text: String,
    /// The bytes of the whole path, nothing replaced: paths are sorted by them.
    pub order: Vec<u8>,
    /// The file name up to its last dot; none if the path names no file, or if
    /// this part of it is no text.
    pub stem: Option<String>,
    /// What follows the last dot of the file name; none if there is no such
    /// dot, or if this part is no text.
    pub extension: Option<String>,
}

/// What a [`ClipPath`] holds.
#[verifier::ext_equal]
pub struct ClipPathView {
    pub text: Seq<char>,
    pub order: Seq<u8>,
    pub stem: Option<Seq<char>>,
    pub extension: Option<Seq<char>>,
}

/// The text of an optional string.
pub open spec fn optional_text(s: Option<String>) -> Option<Seq<char>> {
    match s {
        Some(t) => Some(t@),
        None => None,
    }
}

impl View for ClipPath {
    type V = ClipPathView;

    open spec fn view(&self) -> ClipPathView {
        ClipPathView {
            text: self.text@,
            order: self.order@,
            stem: optional_text(self.stem),
            extension: optional_text(self.extension),
        }
    }
}

/// Whether a character separates the names of a path.
pub open spec fn is_separator(c: char) -> bool {
    c == '/' || c == '\\'
}

/// Whether a character separates the names of a path that is verbatim or not: in
/// a verbatim path only the backslash does.
pub open spec fn parts_names(c: char, verbatim: bool) -> bool {
    c == '\\' || (c == '/' && !verbatim)
}

/// Whether a character can name a drive.
pub open spec fn is_drive_letter(c: char) -> bool {
    ('A' <= c && c <= 'Z') || ('a' <= c && c <= 'z')
}

/// The length of a text up to its first separator.
pub open spec fn first_separator(s: Seq<char>, verbatim: bool) -> int
    decreases s.len(),
{
    if s.len() == 0 || parts_names(s[0], verbatim) {
        0
    } else {
        1 + first_separator(s.drop_first(), verbatim)
    }
}

/// A text up to its first separator.
pub open spec fn up_to_separator(s: Seq<char>, verbatim: bool) -> Seq<char> {
    s.take(first_separator(s, verbatim))
}

/// What follows the first separator of a text.
pub open spec fn behind_separator(s: Seq<char>, verbatim: bool) -> Seq<char> {
    if first_separator(s, verbatim) < s.len() {
        s.skip(first_separator(s, verbatim) + 1)
    } else {
        Seq::empty()
    }
}

/// The pieces of a text between its separators.
pub open spec fn pieces(s: Seq<char>, verbatim: bool) -> Seq<Seq<char>>
    decreases s.len(),
{
    let i = first_separator(s, verbatim);
    if 0 <= i && i < s.len() {
        seq![s.take(i)] + pieces(s.skip(i + 1), verbatim)
    } else {
        seq![s]
    }
}

/// What a path starts with.
#[derive(Clone, Copy, Debug, PartialEq, Eq, Structural)]
pub enum StartKind {
    /// Neither a drive nor a share.
    Bare,
    /// A drive, `C:`.
    Drive,
    /// A network share, `\\machine\share`.
    Share,
    /// A device, `\\.\name`.
    Device,
    /// A drive in verbatim form, `\\?\C:`.
    VerbatimDrive,
    /// A network share in verbatim form, `\\?\UNC\machine\share`.
    VerbatimShare,
    /// Another verbatim start, `\\?\name`.
    Verbatim,
}

/// Whether a path that starts like this is verbatim.
pub open spec fn is_verbatim_kind(kind: StartKind) -> bool {
    match kind {
        StartKind::VerbatimDrive | StartKind::VerbatimShare | StartKind::Verbatim => true,
        _ => false,
    }
}

/// The start of a path: the letter of a drive, the machine and its share, or the
/// name of what else it starts with, and how many characters it takes.
#[verifier::ext_equal]
pub struct StartView {
    pub kind: StartKind,
    pub first: Seq<char>,
    pub second: Seq<char>,
    pub len: int,
}

/// The start of a path that has none.
pub open spec fn bare_start() -> StartView {
    StartView { kind: StartKind::Bare, first: Seq::empty(), second: Seq::empty(), len: 0 }
}

/// Whether a text starts with a drive, such as `C:`.
pub open spec fn has_drive(s: Seq<char>) -> bool {
    s.len() >= 2 && is_drive_letter(s[0]) && s[1] == ':'
}

/// Whether a path is verbatim: it starts with `\\?\`.
pub open spec fn is_verbatim(path: Seq<char>) -> bool {
    path.len() >= 4 && path[0] == '\\' && path[1] == '\\' && path[2] == '?' && path[3] == '\\'
}

/// Whether a verbatim path goes on with that of a network share.
pub open spec fn has_unc(rest: Seq<char>) -> bool {
    rest.len() >= 4 && rest[0] == 'U' && rest[1] == 'N' && rest[2] == 'C' && is_separator(rest[3])
}

/// The start of a verbatim path, if `rest` follows its first four characters.
pub open spec fn verbatim_start(rest: Seq<char>) -> StartView {
    if has_unc(rest) {
        let server = up_to_separator(rest.skip(4), true);
        let share = up_to_separator(behind_separator(rest.skip(4), true), true);
        StartView {
            kind: StartKind::VerbatimShare,
            first: server,
            second: share,
            len: if share.len() > 0 {
                (8 + server.len() + 1 + share.len()) as int
            } else {
                (8 + server.len()) as int
            },
        }
    } else if has_drive(rest) && (rest.len() == 2 || is_separator(rest[2])) {
        StartView {
            kind: StartKind::VerbatimDrive,
            first: rest.take(1),
            second: Seq::empty(),
            len: 6,
        }
    } else {
        let name = up_to_separator(rest, true);
        StartView {
            kind: StartKind::Verbatim,
            first: name,
            second: Seq::empty(),
            len: (4 + name.len()) as int,
        }
    }
}

/// The start of a path, if `rest` follows its two leading separators.
pub open spec fn network_start(rest: Seq<char>) -> StartView {
    if rest.len() >= 2 && rest[0] == '.' && is_separator(rest[1]) {
        let name = up_to_separator(rest.skip(2), false);
        StartView {
            kind: StartKind::Device,
            first: name,
            second: Seq::empty(),
            len: (4 + name.len()) as int,
        }
    } else {
        let server = up_to_separator(rest, false);
        let share = up_to_separator(behind_separator(rest, false), false);
        if server.len() > 0 && share.len() > 0 {
            StartView {
                kind: StartKind::Share,
                first: server,
                second: share,
                len: (2 + server.len() + 1 + share.len()) as int,
            }
        } else {
            bare_start()
        }
    }
}

/// What a path starts with.
pub open spec fn path_start(path: Seq<char>) -> StartView {
    if is_verbatim(path) {
        verbatim_start(path.skip(4))
    } else if path.len() >= 2 && is_separator(path[0]) && is_separator(path[1]) {
        network_start(path.skip(2))
    } else if has_drive(path) {
        StartView {
            kind: StartKind::Drive,
            first: path.take(1),
            second: Seq::empty(),
            len: 2,
        }
    } else {
        bare_start()
    }
}

/// The path behind its start.
pub open spec fn body(path: Seq<char>) -> Seq<char> {
    path.skip(path_start(path).len)
}

/// Whether a separator follows the start of the path.
pub open spec fn has_root(path: Seq<char>) -> bool {
    body(path).len() > 0 && is_separator(body(path)[0])
}

/// Whether the path starts at the top of its drive or share. That of a share or
/// a device always does.
pub open spec fn is_rooted(path: Seq<char>) -> bool {
    path_start(path).kind == StartKind::Share || path_start(path).kind == StartKind::Device
        || has_root(path)
}

/// The path behind its start and the separator that makes it rooted.
pub open spec fn trail(path: Seq<char>) -> Seq<char> {
    if has_root(path) {
        body(path).skip(1)
    } else {
        body(path)
    }
}

/// Whether a piece of a path is a name: not empty, and, unless the path is
/// verbatim, not the dot that stands for where one is already.
pub open spec fn is_name(piece: Seq<char>, verbatim: bool) -> bool {
    piece.len() > 0 && (verbatim || piece != "."@)
}

/// The names a path leads through. Unless the path is verbatim, a dot counts
/// only where it is the very start.
pub open spec fn names(path: Seq<char>) -> Seq<Seq<char>> {
    let kind = path_start(path).kind;
    let verbatim = is_verbatim_kind(kind);
    let all = pieces(trail(path), verbatim);
    let lead = if kind == StartKind::Bare && !has_root(path) && all[0] == "."@ {
        seq!["."@]
    } else {
        Seq::empty()
    };
    lead + all.filter(|p: Seq<char>| is_name(p, verbatim))
}

/// The file a path names: its last name, unless that leads up or nowhere.
pub open spec fn file_name(path: Seq<char>) -> Option<Seq<char>> {
    if names(path).len() > 0 && names(path).last() != "."@ && names(path).last() != ".."@ {
        Some(names(path).last())
    } else {
        None
    }
}

/// The position of the last dot of a name, or -1.
pub open spec fn last_dot(name: Seq<char>) -> int
    decreases name.len(),
{
    if name.len() == 0 {
        -1
    } else if name.last() == '.' {
        name.len() - 1
    } else {
        last_dot(name.drop_last())
    }
}

/// A file name up to its last dot. A dot at the very start does not count.
pub open spec fn name_stem(name: Seq<char>) -> Seq<char> {
    if last_dot(name) > 0 {
        name.take(last_dot(name))
    } else {
        name
    }
}

/// What follows the last dot of a file name.
pub open spec fn name_extension(name: Seq<char>) -> Option<Seq<char>> {
    if last_dot(name) > 0 {
        Some(name.skip(last_dot(name) + 1))
    } else {
        None
    }
}

/// The path of a clip as its text gives it.
pub open spec fn clip_path(text: Seq<char>) -> ClipPathView {
    match file_name(text) {
        Some(name) => ClipPathView {
            text,
            order: encode_utf8(text),
            stem: Some(name_stem(name)),
            extension: name_extension(name),
        },
        None => ClipPathView { text, order: encode_utf8(text), stem: None, extension: None },
    }
}

/// Whether two paths start with the same drive, share or the like, in whatever
/// case, or both with none.
pub open spec fn same_start(a: Seq<char>, b: Seq<char>) -> bool {
    let x = path_start(a);
    let y = path_start(b);
    x.kind == y.kind && same_but_case(x.first, y.first) && same_but_case(x.second, y.second)
}

/// Whether two lists of names differ at most in case.
pub open spec fn same_names(a: Seq<Seq<char>>, b: Seq<Seq<char>>) -> bool {
    a.len() == b.len() && forall|i: int| 0 <= i < a.len() ==> same_but_case(#[trigger] a[i], b[i])
}

/// Whether `path` lies directly in the folder `dir`. Windows paths differ only
/// in case, so that does not count.
pub open spec fn lies_in(path: Seq<char>, dir: Seq<char>) -> bool {
    &&& names(path).len() > 0
    &&& same_start(path, dir)
    &&& is_rooted(path) == is_rooted(dir)
    &&& same_names(names(path).drop_last(), names(dir))
}

/// A text with the letters `A` to `Z` made small.
pub open spec fn lowered(s: Seq<char>) -> Seq<char> {
    s.map_values(|c: char| small(c))
}

/// Whether an extension is that of an audio file, in whatever case. No letter
/// but `A` to `Z` has one of the small letters on the list for its small form.
pub open spec fn is_audio_extension(ext: Seq<char>) -> bool {
    exists|k: int| 0 <= k < EXT_COUNT && (#[trigger] EXTS@[k])@ == lowered(ext)
}

/// Whether a path is that of an audio file.
pub open spec fn is_audio_spec(path: ClipPathView) -> bool {
    path.extension matches Some(ext) && is_audio_extension(ext)
}

/// The name a clip gets from its path.
pub open spec fn stem_spec(path: ClipPathView) -> Seq<char> {
    match path.stem {
        Some(stem) => stem,
        None => UNNAMED@,
    }
}

proof fn first_separator_bounds(s: Seq<char>, verbatim: bool)
    ensures
        0 <= first_separator(s, verbatim) <= s.len(),
        first_separator(s, verbatim) < s.len() ==> parts_names(
            s[first_separator(s, verbatim)],
            verbatim,
        ),
        forall|i: int|
            0 <= i < first_separator(s, verbatim) ==> !parts_names(s[i], verbatim),
    decreases s.len(),
{
    if s.len() > 0 && !parts_names(s[0], verbatim) {
        let rest = s.drop_first();
        first_separator_bounds(rest, verbatim);
        assert forall|i: int| 0 <= i < first_separator(s, verbatim) implies !parts_names(
            s[i],
            verbatim,
        ) by {
            if i > 0 {
                assert(s[i] == rest[i - 1]);
            }
        }
    }
}

proof fn first_separator_is(s: Seq<char>, verbatim: bool, at: int)
    requires
        0 <= at <= s.len(),
        at < s.len() ==> parts_names(s[at], verbatim),
        forall|i: int| 0 <= i < at ==> !parts_names(s[i], verbatim),
    ensures
        first_separator(s, verbatim) == at,
{
    first_separator_bounds(s, verbatim);
    if first_separator(s, verbatim) < at {
        assert(!parts_names(s[first_separator(s, verbatim)], verbatim));
    }
}

fn separates(c: char) -> (r: bool)
    ensures
        r == is_separator(c),
{
    c == '/' || c == '\\'
}

/// Finds the first separator from `from` on; the end of the text if there is
/// none.
fn find_separator(text: &Vec<char>, from: usize, verbatim: bool) -> (r: usize)
    requires
        from <= text.len(),
    ensures
        from <= r <= text.len(),
        r == from + first_separator(text@.skip(from as int), verbatim),
{
    let mut at: usize = from;
    while at < text.len() && text[at] != '\\' && (verbatim || text[at] != '/')
        invariant
            from <= at <= text.len(),
            forall|i: int| from <= i < at ==> !parts_names(text@[i], verbatim),
        decreases text.len() - at,
    {
        at = at + 1;
    }
    proof {
        first_separator_is(text@.skip(from as int), verbatim, at - from);
    }
    at
}

/// The start of a path.
struct Start {
    kind: StartKind,
    first: String,
    second: String,
    len: usize,
}

impl View for Start {
    type V = StartView;

    closed spec fn view(&self) -> StartView {
        StartView {
            kind: self.kind,
            first: self.first@,
            second: self.second@,
            len: self.len as int,
        }
    }
}

/// The start of a path that has none.
fn no_start() -> (r: Start)
    ensures
        r@ == bare_start(),
{
    let r = Start { kind: StartKind::Bare, first: String::new(), second: String::new(), len: 0 };
    assert(r@ =~= bare_start());
    r
}

/// Whether a drive stands at `at`.
fn drive_at(text: &Vec<char>, at: usize) -> (r: bool)
    requires
        at <= text.len(),
    ensures
        r == has_drive(text@.skip(at as int)),
{
    let n: usize = text.len();
    if n - at < 2 {
        return false;
    }
    let c = text[at];
    (('A' <= c && c <= 'Z') || ('a' <= c && c <= 'z')) && text[at + 1] == ':'
}

/// The machine and the share that stand at `from`, and where the share ends; an
/// empty text where there is none.
fn machine_and_share(path: &str, text: &Vec<char>, from: usize, verbatim: bool) -> (r: (
    String,
    String,
    usize,
))
    requires
        text@ == path@,
        from <= text.len(),
    ensures
        r.0@ == up_to_separator(path@.skip(from as int), verbatim),
        r.1@ == up_to_separator(behind_separator(path@.skip(from as int), verbatim), verbatim),
        r.2 <= text.len(),
        r.2 == from + r.0@.len() + if r.1@.len() > 0 {
            1 + r.1@.len()
        } else {
            0
        },
{
    let n: usize = text.len();
    let ghost rest = path@.skip(from as int);
    let a: usize = find_separator(text, from, verbatim);
    let server = path.substring_char(from, a).to_owned();
    proof {
        first_separator_bounds(rest, verbatim);
        assert(server@ =~= up_to_separator(rest, verbatim));
    }
    if a == n {
        let none = String::new();
        assert(none@ =~= up_to_separator(behind_separator(rest, verbatim), verbatim));
        return (server, none, a);
    }
    let b: usize = find_separator(text, a + 1, verbatim);
    let share = path.substring_char(a + 1, b).to_owned();
    proof {
        assert(rest.skip(a - from + 1) =~= path@.skip(a + 1));
        first_separator_bounds(path@.skip(a + 1), verbatim);
        assert(share@ =~= up_to_separator(behind_separator(rest, verbatim), verbatim));
    }
    if b == a + 1 {
        (server, share, a)
    } else {
        (server, share, b)
    }
}

/// Reads the start of a verbatim path.
fn read_verbatim(path: &str, text: &Vec<char>) -> (r: Start)
    requires
        text@ == path@,
        is_verbatim(path@),
    ensures
        r@ == verbatim_start(path@.skip(4)),
        r@.len <= path@.len(),
{
    let n: usize = text.len();
    let ghost rest = path@.skip(4);
    if n >= 8 && text[4] == 'U' && text[5] == 'N' && text[6] == 'C' && separates(text[7]) {
        let (server, share, end) = machine_and_share(path, text, 8, true);
        assert(rest.skip(4) =~= path@.skip(8));
        return Start { kind: StartKind::VerbatimShare, first: server, second: share, len: end };
    }
    assert(!has_unc(rest));
    if drive_at(text, 4) && (n == 6 || separates(text[6])) {
        let first = path.substring_char(4, 5).to_owned();
        let r = Start { kind: StartKind::VerbatimDrive, first, second: String::new(), len: 6 };
        assert(r@ =~= verbatim_start(rest));
        return r;
    }
    let at: usize = find_separator(text, 4, true);
    let first = path.substring_char(4, at).to_owned();
    let r = Start { kind: StartKind::Verbatim, first, second: String::new(), len: at };
    proof {
        first_separator_bounds(rest, true);
        assert(r@ =~= verbatim_start(rest));
    }
    r
}

/// Reads the start of a path that begins with two separators.
fn read_network(path: &str, text: &Vec<char>) -> (r: Start)
    requires
        text@ == path@,
        path@.len() >= 2,
    ensures
        r@ == network_start(path@.skip(2)),
        0 <= r@.len <= path@.len(),
{
    let n: usize = text.len();
    let ghost rest = path@.skip(2);
    if n >= 4 && text[2] == '.' && separates(text[3]) {
        let at: usize = find_separator(text, 4, false);
        let first = path.substring_char(4, at).to_owned();
        let r = Start { kind: StartKind::Device, first, second: String::new(), len: at };
        proof {
            assert(rest.skip(2) =~= path@.skip(4));
            first_separator_bounds(path@.skip(4), false);
            assert(r@ =~= network_start(rest));
        }
        return r;
    }
    let (server, share, end) = machine_and_share(path, text, 2, false);
    if server.as_str().is_empty() || share.as_str().is_empty() {
        return no_start();
    }
    Start { kind: StartKind::Share, first: server, second: share, len: end }
}

/// Reads the start of a path.
fn read_start(path: &str, text: &Vec<char>) -> (r: Start)
    requires
        text@ == path@,
    ensures
        r@ == path_start(path@),
        0 <= r@.len <= path@.len(),
{
    let n: usize = text.len();
    if n >= 4 && text[0] == '\\' && text[1] == '\\' && text[2] == '?' && text[3] == '\\' {
        return read_verbatim(path, text);
    }
    if n >= 2 && separates(text[0]) && separates(text[1]) {
        return read_network(path, text);
    }
    assert(text@.skip(0) =~= path@);
    if drive_at(text, 0) {
        let first = path.substring_char(0, 1).to_owned();
        let r = Start { kind: StartKind::Drive, first, second: String::new(), len: 2 };
        assert(r@ =~= path_start(path@));
        return r;
    }
    no_start()
}

/// The names of a path from `start` on, which a separator or the start of the
/// path precedes. `lead` tells whether a dot at the very start counts.
fn names_from(path: &str, text: &Vec<char>, start: usize, verbatim: bool, lead: bool) -> (r: Vec<
    String,
>)
    requires
        text@ == path@,
        start <= text.len(),
        lead ==> !verbatim,
    ensures
        texts(r@) == (if lead && pieces(path@.skip(start as int), verbatim)[0] == "."@ {
            seq!["."@]
        } else {
            Seq::<Seq<char>>::empty()
        }) + pieces(path@.skip(start as int), verbatim).filter(
            |p: Seq<char>| is_name(p, verbatim),
        ),
{
    let mut out: Vec<String> = Vec::new();
    let mut from: usize = start;
    let mut first = true;
    let ghost all = pieces(path@.skip(start as int), verbatim);
    let ghost mut done: Seq<Seq<char>> = Seq::empty();
    let ghost dots: Seq<Seq<char>> = if lead && all[0] == "."@ {
        seq!["."@]
    } else {
        Seq::empty()
    };
    let ghost keep = |p: Seq<char>| is_name(p, verbatim);
    let n: usize = text.len();
    proof {
        reveal(Seq::filter);
        assert(Seq::<Seq<char>>::empty().filter(keep) =~= Seq::empty());
        assert(done + pieces(path@.skip(from as int), verbatim) =~= all);
    }
    loop
        invariant_except_break
            all == done + pieces(path@.skip(from as int), verbatim),
            first ==> done.len() == 0 && out.len() == 0,
            !first ==> done.len() > 0 && texts(out@) == dots + done.filter(keep),
        invariant
            n == text.len(),
            text@ == path@,
            from <= n,
            lead ==> !verbatim,
            all == pieces(path@.skip(start as int), verbatim),
            dots == if lead && all[0] == "."@ {
                seq!["."@]
            } else {
                Seq::<Seq<char>>::empty()
            },
            keep == |p: Seq<char>| is_name(p, verbatim),
        ensures
            texts(out@) == dots + all.filter(keep),
        decreases n - from,
    {
        let at: usize = find_separator(text, from, verbatim);
        let piece = path.substring_char(from, at);
        let dot = same_text(piece, ".");
        let ghost rest = path@.skip(from as int);
        proof {
            first_separator_bounds(rest, verbatim);
            assert(piece@ =~= rest.take(at - from));
            assert(at < n ==> rest.skip(at - from + 1) =~= path@.skip(at + 1));
            assert(at == n ==> piece@ =~= rest);
            assert(pieces(rest, verbatim)[0] == piece@);
            if first {
                assert(done =~= Seq::empty());
                assert(all[0] == piece@);
                assert(texts(out@) =~= Seq::empty());
            }
        }
        if first && lead && dot {
            out.push(".".to_owned());
        }
        let ghost before = texts(out@);
        assert(before =~= dots + done.filter(keep));
        if !piece.is_empty() && (verbatim || !dot) {
            out.push(piece.to_owned());
        }
        proof {
            done.lemma_filter_push(piece@, keep);
            assert(keep(piece@) == is_name(piece@, verbatim));
            assert(is_name(piece@, verbatim) ==> texts(out@) =~= before.push(piece@));
            assert(!is_name(piece@, verbatim) ==> texts(out@) =~= before);
            assert(texts(out@) =~= dots + done.push(piece@).filter(keep));
            done = done.push(piece@);
        }
        first = false;
        if at == n {
            assert(done =~= all);
            break;
        }
        from = at + 1;
        assert(done + pieces(path@.skip(from as int), verbatim) =~= all);
    }
    out
}

/// A path taken apart.
struct Parts {
    start: Start,
    rooted: bool,
    names: Vec<String>,
}

/// Takes a path apart.
fn take_apart(path: &str) -> (r: Parts)
    ensures
        r.start@ == path_start(path@),
        r.rooted == is_rooted(path@),
        texts(r.names@) == names(path@),
{
    let text = characters(path);
    let start = read_start(path, &text);
    let bare = match start.kind {
        StartKind::Bare => true,
        _ => false,
    };
    let open = match start.kind {
        StartKind::Share | StartKind::Device => true,
        _ => false,
    };
    let verbatim = match start.kind {
        StartKind::VerbatimDrive | StartKind::VerbatimShare | StartKind::Verbatim => true,
        _ => false,
    };
    let n: usize = text.len();
    let end: usize = start.len;
    let root = end < n && separates(text[end]);
    let from: usize = if root {
        end + 1
    } else {
        end
    };
    assert(trail(path@) =~= path@.skip(from as int));
    let names = names_from(path, &text, from, verbatim, bare && !root);
    Parts { start, rooted: open || root, names }
}

/// Whether the first `n` of a list of names are those of another, in whatever
/// case.
fn names_alike(a: &Vec<String>, b: &Vec<String>, n: usize) -> (r: bool)
    requires
        n <= a.len(),
    ensures
        r == same_names(texts(a@).take(n as int), texts(b@)),
{
    if n != b.len() {
        return false;
    }
    for i in 0..n
        invariant
            n <= a.len(),
            n == b.len(),
            forall|k: int|
                0 <= k < i ==> same_but_case(#[trigger] texts(a@).take(n as int)[k], texts(b@)[k]),
    {
        assert(texts(a@).take(n as int)[i as int] == a@[i as int]@);
        assert(texts(b@)[i as int] == b@[i as int]@);
        if !equal_but_case(a[i].as_str(), b[i].as_str()) {
            assert(!same_but_case(texts(a@).take(n as int)[i as int], texts(b@)[i as int]));
            return false;
        }
    }
    true
}

/// Whether `path` lies directly in the folder `dir`.
pub fn is_in_folder(path: &str, dir: &str) -> (r: bool)
    ensures
        r == lies_in(path@, dir@),
{
    let inner = take_apart(path);
    let outer = take_apart(dir);
    let n: usize = inner.names.len();
    assert(texts(inner.names@).len() == n);
    if n == 0 || inner.start.kind != outer.start.kind || inner.rooted != outer.rooted {
        return false;
    }
    if !equal_but_case(inner.start.first.as_str(), outer.start.first.as_str()) {
        return false;
    }
    if !equal_but_case(inner.start.second.as_str(), outer.start.second.as_str()) {
        return false;
    }
    assert(names(path@).drop_last() =~= texts(inner.names@).take(n - 1));
    names_alike(&inner.names, &outer.names, n - 1)
}

/// The file a path names, if it names one.
fn find_file_name(path: &str) -> (r: Option<String>)
    ensures
        optional_text(r) == file_name(path@),
{
    let parts = take_apart(path);
    let n: usize = parts.names.len();
    assert(texts(parts.names@).len() == n);
    if n == 0 {
        return None;
    }
    let name = parts.names[n - 1].as_str();
    assert(name@ == texts(parts.names@).last());
    if same_text(name, ".") || same_text(name, "..") {
        None
    } else {
        Some(name.to_owned())
    }
}

/// Whether `path` names a file of the given name directly in the folder `dir`.
pub fn is_file_in_folder(path: &str, dir: &str, name: &str) -> (r: bool)
    ensures
        r == (lies_in(path@, dir@) && file_name(path@) == Some(name@)),
{
    match find_file_name(path) {
        Some(found) => is_in_folder(path, dir) && same_text(found.as_str(), name),
        None => false,
    }
}

proof fn last_dot_bounds(name: Seq<char>)
    ensures
        -1 <= last_dot(name) < name.len(),
        last_dot(name) >= 0 ==> name[last_dot(name)] == '.',
        forall|i: int| last_dot(name) < i < name.len() ==> name[i] != '.',
    decreases name.len(),
{
    if name.len() > 0 && name.last() != '.' {
        last_dot_bounds(name.drop_last());
        assert forall|i: int| last_dot(name) < i < name.len() implies name[i] != '.' by {
            if i < name.len() - 1 {
                assert(name[i] == name.drop_last()[i]);
            }
        }
    }
}

/// The last dot of a name is the one that no other follows.
pub proof fn last_dot_is(name: Seq<char>, at: int)
    requires
        0 <= at < name.len(),
        name[at] == '.',
        forall|i: int| at < i < name.len() ==> name[i] != '.',
    ensures
        last_dot(name) == at,
{
    last_dot_bounds(name);
    if last_dot(name) < at {
        assert(name[at] != '.');
    }
}

/// The number of characters up to and with the last dot of a name; zero if it
/// has none.
fn find_dot(name: &str) -> (r: usize)
    ensures
        r == last_dot(name@) + 1,
{
    let text = characters(name);
    let mut at: usize = text.len();
    proof {
        last_dot_bounds(name@);
    }
    while at > 0 && text[at - 1] != '.'
        invariant
            text@ == name@,
            at <= text.len(),
            forall|i: int| at <= i < text.len() ==> text@[i] != '.',
        decreases at,
    {
        at = at - 1;
    }
    proof {
        let d = last_dot(name@);
        if d >= at {
            assert(text@[d] != '.');
        }
        if d < at - 1 {
            assert(name@[at - 1] != '.');
        }
    }
    at
}

impl ClipPath {
    /// The path of a clip as its text gives it.
    pub fn new(text: &str) -> (r: ClipPath)
        ensures
            r@ == clip_path(text@),
    {
        let order = text.as_bytes_vec();
        let found = find_file_name(text);
        let name = match &found {
            Some(name) => name.as_str(),
            None => return ClipPath { text: text.to_owned(), order, stem: None, extension: None },
        };
        let dot: usize = find_dot(name);
        proof {
            last_dot_bounds(name@);
        }
        if dot > 1 {
            let stem = name.substring_char(0, dot - 1);
            let extension = name.substring_char(dot, name.unicode_len());
            proof {
                assert(stem@ =~= name_stem(name@));
                assert(extension@ =~= name@.skip(last_dot(name@) + 1));
            }
            ClipPath {
                text: text.to_owned(),
                order,
                stem: Some(stem.to_owned()),
                extension: Some(extension.to_owned()),
            }
        } else {
            ClipPath { text: text.to_owned(), order, stem: Some(name.to_owned()), extension: None }
        }
    }
}

impl Clone for ClipPath {
    fn clone(&self) -> (r: ClipPath)
        ensures
            r@ == self@,
    {
        ClipPath {
            text: self.text.clone(),
            order: self.order.clone(),
            stem: match &self.stem {
                Some(s) => Some(s.clone()),
                None => None,
            },
            extension: match &self.extension {
                Some(s) => Some(s.clone()),
                None => None,
            },
        }
    }
}

/// The extensions hold no capital letters.
proof fn extensions_are_small()
    ensures
        forall|k: int, i: int|
            0 <= k < EXT_COUNT && 0 <= i < EXTS@[k]@.len() ==> small(#[trigger] EXTS@[k]@[i])
                == EXTS@[k]@[i],
{
    reveal_strlit("mp3");
    reveal_strlit("wav");
    reveal_strlit("ogg");
    reveal_strlit("flac");
    reveal_strlit("m4a");
    reveal_strlit("aac");
    reveal_strlit("opus");
    reveal_strlit("wma");
    assert forall|k: int, i: int|
        0 <= k < EXT_COUNT && 0 <= i < EXTS@[k]@.len() implies small(#[trigger] EXTS@[k]@[i])
        == EXTS@[k]@[i] by {
        assert(k == 0 || k == 1 || k == 2 || k == 3 || k == 4 || k == 5 || k == 6 || k == 7);
        assert(i == 0 || i == 1 || i == 2 || i == 3);
    }
}

/// An extension made small is the one on the list that differs from it at most
/// in case.
proof fn lowering_is_ignoring_case(ext: Seq<char>, k: int)
    requires
        0 <= k < EXT_COUNT,
    ensures
        same_but_case(ext, EXTS@[k]@) <==> EXTS@[k]@ == lowered(ext),
{
    extensions_are_small();
    let e = EXTS@[k]@;
    if same_but_case(ext, e) {
        assert forall|i: int| 0 <= i < e.len() implies e[i] == lowered(ext)[i] by {
            assert(small(ext[i]) == small(e[i]));
        }
        assert(e =~= lowered(ext));
    }
    if e == lowered(ext) {
        assert forall|i: int| 0 <= i < ext.len() implies small(#[trigger] ext[i]) == small(e[i]) by {
            assert(e[i] == small(ext[i]));
            assert(small(e[i]) == e[i]);
        }
    }
}

/// The path's extension in small letters, if it is that of an audio file.
pub fn audio_extension(path: &ClipPath) -> (r: Option<&'static str>)
    ensures
        match r {
            Some(e) => is_audio_spec(path@) && e@ == lowered(path@.extension->0),
            None => !is_audio_spec(path@),
        },
{
    match &path.extension {
        Some(ext) => {
            for k in 0..EXT_COUNT
                invariant
                    path@.extension == Some(ext@),
                    forall|j: int| 0 <= j < k ==> (#[trigger] EXTS@[j])@ != lowered(ext@),
            {
                proof {
                    lowering_is_ignoring_case(ext@, k as int);
                }
                if equal_but_case(ext.as_str(), EXTS[k]) {
                    return Some(EXTS[k]);
                }
            }
            None
        },
        None => None,
    }
}

/// Whether a path is that of an audio file.
pub fn is_audio(path: &ClipPath) -> (r: bool)
    ensures
        r == is_audio_spec(path@),
{
    audio_extension(path).is_some()
}

/// The name a clip gets from its path.
pub fn stem(path: &ClipPath) -> (r: String)
    ensures
        r@ == stem_spec(path@),
{
    match &path.stem {
        Some(s) => s.clone(),
        None => UNNAMED.to_owned(),
    }
}

/// Whether two paths are those of one file. Windows paths differ only in case,
/// and the same file reached two ways must not turn into two rows.
pub fn same_file(a: &str, b: &str) -> (r: bool)
    ensures
        r == same_but_case(a@, b@),
{
    equal_but_case(a, b)
}

/// No extension of an audio file holds a dot.
pub proof fn audio_extensions_hold_no_dot(ext: Seq<char>)
    requires
        is_audio_extension(ext),
    ensures
        forall|i: int| 0 <= i < ext.len() ==> ext[i] != '.',
{
    reveal_strlit("mp3");
    reveal_strlit("wav");
    reveal_strlit("ogg");
    reveal_strlit("flac");
    reveal_strlit("m4a");
    reveal_strlit("aac");
    reveal_strlit("opus");
    reveal_strlit("wma");
    let k = choose|k: int| 0 <= k < EXT_COUNT && (#[trigger] EXTS@[k])@ == lowered(ext);
    assert(k == 0 || k == 1 || k == 2 || k == 3 || k == 4 || k == 5 || k == 6 || k == 7);
    assert(lowered(ext).len() == ext.len());
    assert(EXTS@[k]@.len() <= 4);
    assert forall|i: int| 0 <= i < ext.len() implies ext[i] != '.' by {
        assert(EXTS@[k]@[i] == small(ext[i]));
        assert(i == 0 || i == 1 || i == 2 || i == 3);
    }
}

/// To be one file is an equivalence of paths.
pub proof fn same_file_is_an_equivalence(a: Seq<char>, b: Seq<char>, c: Seq<char>)
    ensures
        same_but_case(a, a),
        same_but_case(a, b) ==> same_but_case(b, a),
        same_but_case(a, b) && same_but_case(b, c) ==> same_but_case(a, c),
{
    if same_but_case(a, b) {
        assert forall|i: int| 0 <= i < b.len() implies small(#[trigger] b[i]) == small(a[i]) by {
            assert(small(a[i]) == small(b[i]));
        }
        if same_but_case(b, c) {
            assert forall|i: int| 0 <= i < a.len() implies small(#[trigger] a[i]) == small(
                c[i],
            ) by {
                assert(small(b[i]) == small(c[i]));
            }
        }
    }
}

/// A file name is its stem, and behind it, if there is one, a dot and the
/// extension. The extension holds no further dot, and the stem is not empty.
pub proof fn stem_and_extension_make_the_name(name: Seq<char>)
    ensures
        match name_extension(name) {
            Some(ext) => {
                &&& name == name_stem(name).push('.') + ext
                &&& !ext.contains('.')
                &&& name_stem(name).len() > 0
            },
            None => name == name_stem(name),
        },
{
    last_dot_bounds(name);
    if let Some(ext) = name_extension(name) {
        assert(name =~= name_stem(name).push('.') + ext);
    }
}

/// The case of an extension does not matter.
pub proof fn audio_files_are_told_in_any_case(a: Seq<char>, b: Seq<char>)
    requires
        same_but_case(a, b),
    ensures
        lowered(a) == lowered(b),
        is_audio_extension(a) == is_audio_extension(b),
{
    assert(lowered(a) =~= lowered(b)) by {
        assert forall|i: int| 0 <= i < a.len() implies lowered(a)[i] == lowered(b)[i] by {
            assert(small(a[i]) == small(b[i]));
        }
    }
}

/// A path lies in a folder exactly if it leads through one name more, every name on
/// the way is that of the folder at the same place, but for case, and both start
/// alike.
pub proof fn a_file_lies_in_a_folder_if_all_names_agree(path: Seq<char>, dir: Seq<char>)
    ensures
        lies_in(path, dir) <==> {
            &&& names(path).len() == names(dir).len() + 1
            &&& forall|i: int|
                0 <= i < names(dir).len() ==> same_but_case(
                    names(path)[i],
                    #[trigger] names(dir)[i],
                )
            &&& is_rooted(path) == is_rooted(dir)
            &&& path_start(path).kind == path_start(dir).kind
            &&& same_but_case(path_start(path).first, path_start(dir).first)
            &&& same_but_case(path_start(path).second, path_start(dir).second)
        },
{
    if names(path).len() > 0 {
        let way = names(path).drop_last();
        assert(way.len() == names(path).len() - 1);
        if names(path).len() == names(dir).len() + 1 {
            if same_names(way, names(dir)) {
                assert forall|i: int| 0 <= i < names(dir).len() implies same_but_case(
                    names(path)[i],
                    #[trigger] names(dir)[i],
                ) by {
                    assert(same_but_case(way[i], names(dir)[i]));
                }
            }
            if forall|i: int|
                0 <= i < names(dir).len() ==> same_but_case(
                    names(path)[i],
                    #[trigger] names(dir)[i],
                ) {
                assert forall|i: int| 0 <= i < way.len() implies same_but_case(
                    #[trigger] way[i],
                    names(dir)[i],
                ) by {
                    assert(same_but_case(names(path)[i], names(dir)[i]));
                }
            }
        }
    }
}

/// A path whose folders differ from those of a folder in any name, beyond case,
/// does not lie in it.
pub proof fn one_other_folder_on_the_way_is_another_folder(
    path: Seq<char>,
    dir: Seq<char>,
    i: int,
)
    requires
        0 <= i < names(dir).len(),
        names(path).len() == names(dir).len() + 1,
        !same_but_case(names(path)[i], names(dir)[i]),
    ensures
        !lies_in(path, dir),
{
    a_file_lies_in_a_folder_if_all_names_agree(path, dir);
}

/// The piece behind the last separator is the last piece.
proof fn pieces_add_up(s: Seq<char>, sep: char, piece: Seq<char>, verbatim: bool)
    requires
        parts_names(sep, verbatim),
        forall|i: int| 0 <= i < piece.len() ==> !parts_names(#[trigger] piece[i], verbatim),
    ensures
        pieces(s.push(sep) + piece, verbatim) == pieces(s, verbatim).push(piece),
        pieces(s, verbatim).len() > 0,
        pieces(s.push(sep) + piece, verbatim)[0] == pieces(s, verbatim)[0],
    decreases s.len(),
{
    let all = s.push(sep) + piece;
    let i = first_separator(s, verbatim);
    first_separator_bounds(s, verbatim);
    assert forall|k: int| 0 <= k < i implies !parts_names(all[k], verbatim) by {
        assert(all[k] == s[k]);
    }
    first_separator_is(all, verbatim, i);
    assert(all.take(i) =~= s.take(i));
    if i < s.len() {
        let rest = s.skip(i + 1);
        pieces_add_up(rest, sep, piece, verbatim);
        assert(all.skip(i + 1) =~= rest.push(sep) + piece);
        assert(pieces(all, verbatim) =~= pieces(s, verbatim).push(piece));
    } else {
        first_separator_is(piece, verbatim, piece.len() as int);
        assert(all.skip(i + 1) =~= piece);
        assert(s.take(i) =~= s);
        assert(pieces(piece, verbatim) =~= seq![piece]);
        assert(pieces(all, verbatim) =~= pieces(s, verbatim).push(piece));
    }
}

/// Where the start of a path ends, for a path that starts like a shorter one.
proof fn start_is_inside(path: Seq<char>)
    ensures
        0 <= path_start(path).len <= path.len(),
        is_verbatim_kind(path_start(path).kind) <==> is_verbatim(path),
{
    if is_verbatim(path) {
        let rest = path.skip(4);
        first_separator_bounds(rest, true);
        if has_unc(rest) {
            let tail = rest.skip(4);
            first_separator_bounds(tail, true);
            first_separator_bounds(behind_separator(tail, true), true);
        }
    } else if path.len() >= 2 && is_separator(path[0]) && is_separator(path[1]) {
        let rest = path.skip(2);
        first_separator_bounds(rest, false);
        first_separator_bounds(behind_separator(rest, false), false);
        if rest.len() >= 2 {
            first_separator_bounds(rest.skip(2), false);
        }
    }
}

/// The names behind a start of the given kind.
spec fn names_behind(kind: StartKind, body: Seq<char>) -> Seq<Seq<char>> {
    let verbatim = is_verbatim_kind(kind);
    let rooted = body.len() > 0 && is_separator(body[0]);
    let all = pieces(
        if rooted {
            body.skip(1)
        } else {
            body
        },
        verbatim,
    );
    let lead = if kind == StartKind::Bare && !rooted && all[0] == "."@ {
        seq!["."@]
    } else {
        Seq::empty()
    };
    lead + all.filter(|p: Seq<char>| is_name(p, verbatim))
}

proof fn names_are_behind_the_start(path: Seq<char>)
    ensures
        names(path) == names_behind(path_start(path).kind, body(path)),
{
}

proof fn one_piece_more_behind_the_start(
    kind: StartKind,
    body: Seq<char>,
    sep: char,
    piece: Seq<char>,
)
    requires
        parts_names(sep, is_verbatim_kind(kind)),
        forall|i: int|
            0 <= i < piece.len() ==> !parts_names(#[trigger] piece[i], is_verbatim_kind(kind)),
    ensures
        names_behind(kind, body.push(sep) + piece) == if is_name(piece, is_verbatim_kind(kind)) {
            names_behind(kind, body).push(piece)
        } else {
            names_behind(kind, body)
        },
{
    let verbatim = is_verbatim_kind(kind);
    let keep = |p: Seq<char>| is_name(p, verbatim);
    let longer = body.push(sep) + piece;
    reveal_strlit(".");
    assert(keep(piece) == is_name(piece, verbatim));
    if body.len() == 0 {
        assert(longer.skip(1) =~= piece);
        assert(longer[0] == sep);
        first_separator_is(piece, verbatim, piece.len() as int);
        let one = pieces(piece, verbatim);
        let none = pieces(body, verbatim);
        assert(one =~= seq![piece]);
        assert(none =~= seq![body]);
        reveal_with_fuel(Seq::filter, 2);
        assert(one.drop_last() =~= Seq::empty());
        assert(none.drop_last() =~= Seq::empty());
        assert(!keep(body));
        assert(names_behind(kind, body) =~= Seq::empty());
        assert(is_name(piece, verbatim) ==> names_behind(kind, longer) =~= seq![piece]);
        assert(!is_name(piece, verbatim) ==> names_behind(kind, longer) =~= Seq::empty());
    } else {
        let rooted = is_separator(body[0]);
        assert(longer[0] == body[0]);
        let s = if rooted {
            body.skip(1)
        } else {
            body
        };
        assert(if rooted {
            longer.skip(1)
        } else {
            longer
        } =~= s.push(sep) + piece);
        pieces_add_up(s, sep, piece, verbatim);
        let all = pieces(s, verbatim);
        all.lemma_filter_push(piece, keep);
        assert(is_name(piece, verbatim) ==> names_behind(kind, longer) =~= names_behind(
            kind,
            body,
        ).push(piece));
        assert(!is_name(piece, verbatim) ==> names_behind(kind, longer) =~= names_behind(
            kind,
            body,
        ));
    }
}

/// One piece more behind a separator is one name more, if it is a name: not empty,
/// and no dot unless the path is verbatim. Otherwise the names stay as they are. In
/// a verbatim path only the backslash separates.
pub proof fn one_piece_more_is_one_name_more(
    path: Seq<char>,
    sep: char,
    piece: Seq<char>,
)
    requires
        path_start(path.push(sep) + piece) == path_start(path),
        ({
            let verbatim = path.len() >= 4 && path[0] == '\\' && path[1] == '\\' && path[2] == '?'
                && path[3] == '\\';
            &&& sep == '\\' || (sep == '/' && !verbatim)
            &&& !piece.contains('\\')
            &&& verbatim || !piece.contains('/')
        }),
    ensures
        ({
            let longer = path.push(sep) + piece;
            let verbatim = path.len() >= 4 && path[0] == '\\' && path[1] == '\\' && path[2] == '?'
                && path[3] == '\\';
            names(longer) == if piece.len() > 0 && (verbatim || piece != seq!['.']) {
                names(path).push(piece)
            } else {
                names(path)
            }
        }),
{
    let longer = path.push(sep) + piece;
    let kind = path_start(path).kind;
    reveal_strlit(".");
    assert("."@ =~= seq!['.']);
    start_is_inside(path);
    assert forall|i: int| 0 <= i < piece.len() implies !parts_names(
        #[trigger] piece[i],
        is_verbatim_kind(kind),
    ) by {
        assert(piece.contains(piece[i]));
    }
    assert(body(longer) =~= body(path).push(sep) + piece);
    names_are_behind_the_start(path);
    names_are_behind_the_start(longer);
    one_piece_more_behind_the_start(kind, body(path), sep, piece);
}

/// What follows the start of a path, if no separator stands in it, is one name; a
/// dot is one only in a verbatim path or as the whole of the path.
pub proof fn what_follows_the_start_is_a_name(path: Seq<char>, piece: Seq<char>)
    requires
        piece == path.skip(path_start(path).len),
        !piece.contains('\\'),
        !piece.contains('/'),
    ensures
        names(path) == if piece.len() == 0 {
            Seq::<Seq<char>>::empty()
        } else if piece != seq!['.'] || path.len() == 1 || (path.len() >= 4 && path[0] == '\\'
            && path[1] == '\\' && path[2] == '?' && path[3] == '\\') {
            seq![piece]
        } else {
            Seq::<Seq<char>>::empty()
        },
{
    let verbatim = is_verbatim(path);
    let keep = |p: Seq<char>| is_name(p, verbatim);
    reveal_strlit(".");
    assert("."@ =~= seq!['.']);
    start_is_inside(path);
    assert forall|i: int| 0 <= i < piece.len() implies !parts_names(#[trigger] piece[i], verbatim)
        && !is_separator(piece[i]) by {
        assert(piece.contains(piece[i]));
    }
    first_separator_is(piece, verbatim, piece.len() as int);
    assert(trail(path) == piece);
    let all = pieces(piece, verbatim);
    assert(all =~= seq![piece]);
    reveal_with_fuel(Seq::filter, 2);
    assert(all.drop_last() =~= Seq::empty());
    assert(keep(piece) == is_name(piece, verbatim));
    if path_start(path).kind == StartKind::Bare {
        assert(path.skip(0) =~= path);
    }
    let lead = if path_start(path).kind == StartKind::Bare && all[0] == "."@ {
        seq!["."@]
    } else {
        Seq::empty()
    };
    assert(names(path) =~= lead + all.filter(keep));
    assert(is_name(piece, verbatim) ==> all.filter(keep) =~= seq![piece]);
    assert(!is_name(piece, verbatim) ==> all.filter(keep) =~= Seq::empty());
    if piece == seq!['.'] && path.len() == 1 {
        assert(path =~= seq!['.']);
        assert(path_start(path).kind == StartKind::Bare);
    }
    if path_start(path).kind == StartKind::Bare && piece == seq!['.'] {
        assert(path.len() == 1);
    }
    assert(names(path) =~= if piece.len() == 0 {
        Seq::<Seq<char>>::empty()
    } else if piece != seq!['.'] || path.len() == 1 || verbatim {
        seq![piece]
    } else {
        Seq::<Seq<char>>::empty()
    });
}

/// A path is rooted if a separator follows its start, and in any case on a share or
/// a device.
pub proof fn a_path_is_rooted_at_a_separator(path: Seq<char>)
    ensures
        0 <= path_start(path).len <= path.len(),
        is_rooted(path) <==> {
            ||| path_start(path).kind == StartKind::Share
            ||| path_start(path).kind == StartKind::Device
            ||| path_start(path).len < path.len() && (path[path_start(path).len] == '/'
                || path[path_start(path).len] == '\\')
        },
{
    start_is_inside(path);
}

/// A letter and a colon start a path with a drive, whatever follows.
pub proof fn a_letter_and_a_colon_are_a_drive(letter: char, rest: Seq<char>)
    requires
        65 <= letter as u32 <= 90 || 97 <= letter as u32 <= 122,
    ensures
        path_start(seq![letter, ':'] + rest) == (StartView {
            kind: StartKind::Drive,
            first: seq![letter],
            second: Seq::empty(),
            len: 2,
        }),
{
    let path = seq![letter, ':'] + rest;
    assert(path[0] == letter && path[1] == ':');
    assert(path.take(1) =~= seq![letter]);
}

/// A path that starts with neither a drive nor two separators has no start.
pub proof fn other_paths_are_bare(path: Seq<char>)
    requires
        path.len() >= 2 ==> !((path[0] == '/' || path[0] == '\\') && (path[1] == '/' || path[1]
            == '\\')),
        path.len() >= 2 && path[1] == ':' ==> !(65 <= path[0] as u32 <= 90 || 97 <= path[0] as u32
            <= 122),
    ensures
        path_start(path) == (StartView {
            kind: StartKind::Bare,
            first: Seq::empty(),
            second: Seq::empty(),
            len: 0,
        }),
{
}

/// Up to where no separator stands, and one or the end follows.
proof fn splits_at(word: Seq<char>, rest: Seq<char>, verbatim: bool)
    requires
        forall|i: int| 0 <= i < word.len() ==> !parts_names(#[trigger] word[i], verbatim),
        rest.len() > 0 ==> parts_names(rest[0], verbatim),
    ensures
        first_separator(word + rest, verbatim) == word.len(),
        up_to_separator(word + rest, verbatim) == word,
        behind_separator(word + rest, verbatim) == if rest.len() > 0 {
            rest.skip(1)
        } else {
            Seq::empty()
        },
{
    let all = word + rest;
    assert forall|i: int| 0 <= i < word.len() implies !parts_names(all[i], verbatim) by {
        assert(all[i] == word[i]);
    }
    first_separator_is(all, verbatim, word.len() as int);
    assert(all.take(word.len() as int) =~= word);
    if rest.len() > 0 {
        assert(all.skip(word.len() as int + 1) =~= rest.skip(1));
    }
}

/// Whether a word of a path is free of separators.
pub open spec fn is_word(word: Seq<char>) -> bool {
    !word.contains('/') && !word.contains('\\')
}

proof fn words_hold_no_separator(word: Seq<char>, verbatim: bool)
    requires
        is_word(word),
    ensures
        forall|i: int| 0 <= i < word.len() ==> !parts_names(#[trigger] word[i], verbatim),
        forall|i: int| 0 <= i < word.len() ==> !is_separator(#[trigger] word[i]),
{
    assert forall|i: int| 0 <= i < word.len() implies !is_separator(#[trigger] word[i]) by {
        assert(word.contains(word[i]));
    }
}

/// What a machine, a separator and a share are read as behind two separators.
proof fn a_share_behind_two_separators(
    machine: Seq<char>,
    c: char,
    share: Seq<char>,
    rest: Seq<char>,
)
    requires
        is_separator(c),
        is_word(machine) && machine.len() > 0,
        is_word(share) && share.len() > 0,
        machine != seq!['.'],
        rest.len() > 0 ==> is_separator(rest[0]),
    ensures
        network_start(machine + (seq![c] + (share + rest))) == (StartView {
            kind: StartKind::Share,
            first: machine,
            second: share,
            len: (machine.len() + share.len() + 3) as int,
        }),
{
    let tail = machine + (seq![c] + (share + rest));
    words_hold_no_separator(machine, false);
    words_hold_no_separator(share, false);
    splits_at(machine, seq![c] + (share + rest), false);
    splits_at(share, rest, false);
    assert((seq![c] + (share + rest)).skip(1) =~= share + rest);
    assert(tail[0] == machine[0]);
    if machine.len() == 1 {
        assert(machine =~= seq![machine[0]]);
    } else {
        assert(tail[1] == machine[1]);
    }
}

/// Two separators lead to a machine, unless the path is verbatim.
proof fn two_separators_lead_to_a_machine(a: char, b: char, tail: Seq<char>)
    requires
        is_separator(a),
        is_separator(b),
        !(a == '\\' && b == '\\' && tail.len() >= 2 && tail[0] == '?' && tail[1] == '\\'),
    ensures
        path_start(seq![a, b] + tail) == network_start(tail),
{
    let path = seq![a, b] + tail;
    assert(path[0] == a && path[1] == b);
    assert(path.skip(2) =~= tail);
    if tail.len() >= 2 {
        assert(path[2] == tail[0] && path[3] == tail[1]);
    }
}

/// Two separators, a machine, a separator and a share start a path with a network
/// share.
pub proof fn a_machine_and_a_share_are_a_share(
    a: char,
    b: char,
    machine: Seq<char>,
    c: char,
    share: Seq<char>,
    rest: Seq<char>,
)
    requires
        a == '/' || a == '\\',
        b == '/' || b == '\\',
        c == '/' || c == '\\',
        is_word(machine) && machine.len() > 0,
        is_word(share) && share.len() > 0,
        machine != seq!['.'],
        machine == seq!['?'] ==> a == '/' || b == '/' || c == '/',
        rest.len() > 0 ==> rest[0] == '/' || rest[0] == '\\',
    ensures
        path_start(seq![a, b] + machine + seq![c] + share + rest) == (StartView {
            kind: StartKind::Share,
            first: machine,
            second: share,
            len: (machine.len() + share.len() + 3) as int,
        }),
{
    let tail = machine + (seq![c] + (share + rest));
    assert(seq![a, b] + machine + seq![c] + share + rest =~= seq![a, b] + tail);
    assert(tail[0] == machine[0]);
    if machine.len() == 1 {
        assert(machine =~= seq![machine[0]]);
        assert(tail[1] == c);
    } else {
        assert(tail[1] == machine[1]);
        assert(machine.contains(machine[1]));
    }
    two_separators_lead_to_a_machine(a, b, tail);
    a_share_behind_two_separators(machine, c, share, rest);
}

/// Two separators without a machine and a share behind them are no start.
pub proof fn without_a_share_there_is_no_start(a: char, b: char, machine: Seq<char>, end: Seq<char>)
    requires
        a == '/' || a == '\\',
        b == '/' || b == '\\',
        is_word(machine),
        machine.len() == 0 || end.len() == 0 || (end.len() >= 1 && (end[0] == '/' || end[0]
            == '\\') && (end.len() == 1 || end[1] == '/' || end[1] == '\\')),
        machine == seq!['.'] ==> end.len() == 0,
        machine == seq!['?'] && end.len() > 0 ==> a == '/' || b == '/' || end[0] == '/',
        machine.len() == 0 ==> end.len() > 0 ==> end[0] == '/' || end[0] == '\\',
    ensures
        path_start(seq![a, b] + machine + end) == (StartView {
            kind: StartKind::Bare,
            first: Seq::empty(),
            second: Seq::empty(),
            len: 0,
        }),
{
    let path = seq![a, b] + machine + end;
    let tail = path.skip(2);
    words_hold_no_separator(machine, false);
    splits_at(machine, end, false);
    assert(tail =~= machine + end);
    assert(path[0] == a && path[1] == b);
    if tail.len() >= 1 && machine.len() >= 1 {
        assert(tail[0] == machine[0]);
        if machine.len() == 1 {
            assert(machine =~= seq![machine[0]]);
        } else {
            assert(tail[1] == machine[1] && path[3] == machine[1]);
        }
        assert(path[2] == machine[0]);
    } else if tail.len() >= 1 {
        assert(path[2] == end[0]);
        assert(tail[0] == end[0]);
    }
    assert(!is_verbatim(path));
    let more = behind_separator(tail, false);
    first_separator_bounds(more, false);
    if more.len() > 0 && machine.len() > 0 {
        assert(more[0] == end[1]);
        first_separator_is(more, false, 0);
    }
    first_separator_bounds(tail, false);
    assert(up_to_separator(tail, false).len() == 0 || up_to_separator(more, false).len() == 0);
}

/// Two separators, a dot, a separator and a name start a path with a device.
pub proof fn a_dot_behind_two_separators_is_a_device(
    a: char,
    b: char,
    c: char,
    name: Seq<char>,
    rest: Seq<char>,
)
    requires
        a == '/' || a == '\\',
        b == '/' || b == '\\',
        c == '/' || c == '\\',
        is_word(name),
        rest.len() > 0 ==> rest[0] == '/' || rest[0] == '\\',
    ensures
        path_start(seq![a, b, '.', c] + name + rest) == (StartView {
            kind: StartKind::Device,
            first: name,
            second: Seq::empty(),
            len: (name.len() + 4) as int,
        }),
{
    let path = seq![a, b, '.', c] + name + rest;
    words_hold_no_separator(name, false);
    splits_at(name, rest, false);
    assert(path.skip(2).skip(2) =~= name + rest);
    assert(path[0] == a && path[1] == b && path[2] == '.' && path[3] == c);
    assert(path.skip(2)[0] == '.' && path.skip(2)[1] == c);
}

/// A path that starts with two backslashes, a question mark and a backslash is
/// verbatim: on a drive, if a letter and a colon follow and then a separator or the
/// end.
pub proof fn a_verbatim_drive(letter: char, rest: Seq<char>)
    requires
        65 <= letter as u32 <= 90 || 97 <= letter as u32 <= 122,
        rest.len() > 0 ==> rest[0] == '/' || rest[0] == '\\',
    ensures
        path_start(seq!['\\', '\\', '?', '\\', letter, ':'] + rest) == (StartView {
            kind: StartKind::VerbatimDrive,
            first: seq![letter],
            second: Seq::empty(),
            len: 6,
        }),
{
    let path = seq!['\\', '\\', '?', '\\', letter, ':'] + rest;
    let tail = path.skip(4);
    assert(tail[0] == letter && tail[1] == ':');
    assert(tail.take(1) =~= seq![letter]);
    if rest.len() > 0 {
        assert(tail[2] == rest[0]);
    }
    assert(path[0] == '\\' && path[1] == '\\' && path[2] == '?' && path[3] == '\\');
}

/// What follows `UNC` and a separator in a verbatim path.
proof fn behind_unc(c: char, machine: Seq<char>, end: Seq<char>, share: Seq<char>)
    requires
        is_separator(c),
        !machine.contains('\\'),
        end.len() > 0 ==> end[0] == '\\',
        share == up_to_separator(
            if end.len() > 0 {
                end.skip(1)
            } else {
                Seq::empty()
            },
            true,
        ),
    ensures
        path_start(seq!['\\', '\\', '?', '\\', 'U', 'N', 'C', c] + (machine + end)) == (StartView {
            kind: StartKind::VerbatimShare,
            first: machine,
            second: share,
            len: if share.len() > 0 {
                (machine.len() + share.len() + 9) as int
            } else {
                (machine.len() + 8) as int
            },
        }),
{
    let path = seq!['\\', '\\', '?', '\\', 'U', 'N', 'C', c] + (machine + end);
    let tail = path.skip(4);
    assert forall|i: int| 0 <= i < machine.len() implies !parts_names(
        #[trigger] machine[i],
        true,
    ) by {
        assert(machine.contains(machine[i]));
    }
    splits_at(machine, end, true);
    assert(tail.skip(4) =~= machine + end);
    assert(path[0] == '\\' && path[1] == '\\' && path[2] == '?' && path[3] == '\\');
    assert(tail[0] == 'U' && tail[1] == 'N' && tail[2] == 'C' && tail[3] == c);
}

/// A verbatim path is on a share if `UNC`, a separator, a machine, a backslash and a
/// share follow.
pub proof fn a_verbatim_share(c: char, machine: Seq<char>, share: Seq<char>, rest: Seq<char>)
    requires
        c == '/' || c == '\\',
        !machine.contains('\\'),
        !share.contains('\\'),
        share.len() > 0,
        rest.len() > 0 ==> rest[0] == '\\',
    ensures
        path_start(
            seq!['\\', '\\', '?', '\\', 'U', 'N', 'C', c] + machine + seq!['\\'] + share + rest,
        ) == (StartView {
            kind: StartKind::VerbatimShare,
            first: machine,
            second: share,
            len: (machine.len() + share.len() + 9) as int,
        }),
{
    let head = seq!['\\', '\\', '?', '\\', 'U', 'N', 'C', c];
    let end = seq!['\\'] + (share + rest);
    assert forall|i: int| 0 <= i < share.len() implies !parts_names(#[trigger] share[i], true) by {
        assert(share.contains(share[i]));
    }
    splits_at(share, rest, true);
    assert(end.skip(1) =~= share + rest);
    behind_unc(c, machine, end, share);
    assert(head + machine + seq!['\\'] + share + rest =~= head + (machine + end));
}

/// Without a share, such a path starts with the machine alone.
pub proof fn a_verbatim_machine(c: char, machine: Seq<char>, rest: Seq<char>)
    requires
        c == '/' || c == '\\',
        !machine.contains('\\'),
        rest.len() > 0 ==> rest[0] == '\\',
        rest.len() > 1 ==> rest[1] == '\\',
    ensures
        path_start(seq!['\\', '\\', '?', '\\', 'U', 'N', 'C', c] + machine + rest) == (StartView {
            kind: StartKind::VerbatimShare,
            first: machine,
            second: Seq::empty(),
            len: (machine.len() + 8) as int,
        }),
{
    let head = seq!['\\', '\\', '?', '\\', 'U', 'N', 'C', c];
    let none = Seq::<char>::empty();
    let more = if rest.len() > 0 {
        rest.skip(1)
    } else {
        none
    };
    first_separator_is(more, true, 0);
    assert(up_to_separator(more, true) =~= none);
    behind_unc(c, machine, rest, none);
    assert(head + machine + rest =~= head + (machine + rest));
}

/// Any other verbatim path starts with the name that follows.
pub proof fn a_verbatim_name(name: Seq<char>, rest: Seq<char>)
    requires
        !name.contains('\\'),
        rest.len() > 0 ==> rest[0] == '\\',
        !(name.len() == 2 && name[1] == ':' && (65 <= name[0] as u32 <= 90 || 97 <= name[0] as u32
            <= 122)),
        !(name.len() >= 3 && name[1] == ':' && name[2] == '/' && (65 <= name[0] as u32 <= 90 || 97
            <= name[0] as u32 <= 122)),
        !(name.len() == 3 && rest.len() > 0 && name == seq!['U', 'N', 'C']),
        !(name.len() >= 4 && name.take(4) == seq!['U', 'N', 'C', '/']),
    ensures
        path_start(seq!['\\', '\\', '?', '\\'] + name + rest) == (StartView {
            kind: StartKind::Verbatim,
            first: name,
            second: Seq::empty(),
            len: (name.len() + 4) as int,
        }),
{
    let path = seq!['\\', '\\', '?', '\\'] + name + rest;
    let tail = path.skip(4);
    assert forall|i: int| 0 <= i < name.len() implies !parts_names(#[trigger] name[i], true) by {
        assert(name.contains(name[i]));
    }
    splits_at(name, rest, true);
    assert(tail =~= name + rest);
    assert(path[0] == '\\' && path[1] == '\\' && path[2] == '?' && path[3] == '\\');
    if has_unc(tail) {
        if name.len() >= 4 {
            assert(name.take(4) =~= seq!['U', 'N', 'C', '/']) by {
                assert(tail[0] == name[0] && tail[1] == name[1] && tail[2] == name[2] && tail[3]
                    == name[3]);
                assert(!parts_names(name[3], true));
            }
        } else if name.len() == 3 {
            assert(tail[0] == name[0] && tail[1] == name[1] && tail[2] == name[2]);
            assert(name =~= seq!['U', 'N', 'C']);
        } else {
            assert(tail[name.len() as int] == rest[0]);
        }
    }
    if has_drive(tail) {
        if name.len() >= 2 {
            assert(tail[0] == name[0] && tail[1] == name[1]);
            if name.len() >= 3 {
                assert(tail[2] == name[2]);
                assert(!parts_names(name[2], true));
            }
        } else {
            assert(tail[name.len() as int] == rest[0]);
        }
    }
}

/// A path names the file that is its last name, unless it has none or that is one
/// of the dots that lead somewhere else.
pub proof fn a_path_names_its_last_name(path: Seq<char>)
    ensures
        names(path).len() == 0 ==> file_name(path) is None,
        names(path).len() > 0 ==> {
            let last = names(path)[names(path).len() - 1];
            &&& last == seq!['.'] || last == seq!['.', '.'] ==> file_name(path) is None
            &&& last != seq!['.'] && last != seq!['.', '.'] ==> file_name(path) == Some(last)
        },
{
    reveal_strlit(".");
    reveal_strlit("..");
    assert("."@ =~= seq!['.']);
    assert(".."@ =~= seq!['.', '.']);
}

/// A clip's path keeps its text, and the bytes of it, and takes its file name apart
/// at the last dot that does not start it: what stands before it is the stem, what
/// stands behind it the extension. Without such a dot the stem is all of it.
pub proof fn a_clip_path_takes_its_file_name_apart(text: Seq<char>)
    ensures
        clip_path(text).text == text,
        clip_path(text).order == encode_utf8(text),
        match file_name(text) {
            None => clip_path(text).stem is None && clip_path(text).extension is None,
            Some(name) => clip_path(text).stem matches Some(stem) && {
                &&& clip_path(text).extension matches Some(ext) ==> {
                    &&& name == stem.push('.') + ext
                    &&& stem.len() > 0
                    &&& !ext.contains('.')
                }
                &&& clip_path(text).extension is None ==> name == stem && forall|i: int|
                    0 < i < name.len() ==> #[trigger] name[i] != '.'
            },
        },
{
    if let Some(name) = file_name(text) {
        last_dot_bounds(name);
        stem_and_extension_make_the_name(name);
    }
}

/// An extension made small has no capital letters, and differs from what it was at
/// most in case.
pub proof fn small_letters_are_all_there_is(ext: Seq<char>)
    ensures
        same_but_case(lowered(ext), ext),
        forall|i: int|
            0 <= i < lowered(ext).len() ==> !(65 <= #[trigger] lowered(ext)[i] as u32 <= 90),
{
    assert forall|i: int| 0 <= i < lowered(ext).len() implies !(65 <= #[trigger] lowered(
        ext,
    )[i] as u32 <= 90) && small(lowered(ext)[i]) == small(ext[i]) by {}
}

/// A file is audio exactly if its extension is one of the eight, in whatever case.
pub proof fn audio_is_one_of_eight_extensions(path: ClipPathView)
    ensures
        is_audio_spec(path) <==> (path.extension matches Some(ext) && (same_but_case(ext, "mp3"@)
            || same_but_case(ext, "wav"@) || same_but_case(ext, "ogg"@) || same_but_case(
            ext,
            "flac"@,
        ) || same_but_case(ext, "m4a"@) || same_but_case(ext, "aac"@) || same_but_case(
            ext,
            "opus"@,
        ) || same_but_case(ext, "wma"@))),
{
    if let Some(ext) = path.extension {
        lowering_is_ignoring_case(ext, 0);
        lowering_is_ignoring_case(ext, 1);
        lowering_is_ignoring_case(ext, 2);
        lowering_is_ignoring_case(ext, 3);
        lowering_is_ignoring_case(ext, 4);
        lowering_is_ignoring_case(ext, 5);
        lowering_is_ignoring_case(ext, 6);
        lowering_is_ignoring_case(ext, 7);
        assert(EXTS@[0]@ == "mp3"@ && EXTS@[1]@ == "wav"@ && EXTS@[2]@ == "ogg"@ && EXTS@[3]@
            == "flac"@);
        assert(EXTS@[4]@ == "m4a"@ && EXTS@[5]@ == "aac"@ && EXTS@[6]@ == "opus"@ && EXTS@[7]@
            == "wma"@);
        if is_audio_extension(ext) {
            let k = choose|k: int| 0 <= k < EXT_COUNT && (#[trigger] EXTS@[k])@ == lowered(ext);
            assert(k == 0 || k == 1 || k == 2 || k == 3 || k == 4 || k == 5 || k == 6 || k == 7);
        }
    }
}

/// A clip is named by the stem of its file, or called a sound if there is none.
pub proof fn a_clip_is_named_by_its_stem(path: ClipPathView)
    ensures
        path.stem matches Some(stem) ==> stem_spec(path) == stem,
        path.stem is None ==> stem_spec(path) == "sound"@,
{
}

} // verus!
