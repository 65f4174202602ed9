//! The file browser: moving through directories, marking and choosing files.
//!
//! Reading a directory and looking at what a path is are the caller's work;
//! the browser says when it needs either.

use vstd::prelude::*;
use crate::app::ProbeState;
use crate::ffmpeg::probe::{first_video, format_size, size_text, summary, ProbeResult};
use crate::key::{
    buffer, edit, fresh_buffer, input_value, new_input, pressed, Buffer, KeyCode, KeyEvent,
    ALL_MODIFIERS,
};
use crate::names::{lists, NameSet};
use crate::number::{dec, millionths_text, show_millionths, show_usize};
use crate::order::{
    in_order_of, is_order, keys_of, law_order_is_complete, law_order_is_unique, order_of, places,
    precedes, sorts_before,
};
use crate::path::{get_parent, parent};
use crate::text::{
    chars_of, contains_text, copy_text, has, join2, join3, lemma_has_inside, lemma_has_itself,
    lemma_rfind, lemma_rfind_bounds, lower, lowered, occurs_at, opt_text, rfind, rfind_to, same,
    slice_text, texts, to_lower,
};
use crate::ui::line::{add_line, lines_of, no_lines, Piece, Tone};

verus! {

// ---------------------------------------------------------------------------
// Entries
// ---------------------------------------------------------------------------

/// Extensions of media files, in lower case: video, audio, images, and the
/// subtitle files that go with them.
pub open spec fn media_extensions() -> Seq<Seq<char>> {
    seq![
        "mp4"@, "mkv"@, "mov"@, "avi"@, "webm"@, "m4v"@, "ts"@, "m2ts"@, "mts"@, "mpg"@, "mpeg"@,
        "wmv"@, "flv"@, "ogv"@, "3gp"@, "3g2"@, "asf"@, "rm"@, "rmvb"@, "vob"@, "dv"@, "mp3"@,
        "aac"@, "m4a"@, "opus"@, "ogg"@, "oga"@, "flac"@, "wav"@, "wma"@, "aiff"@, "aif"@, "alac"@,
        "ac3"@, "dts"@, "amr"@, "png"@, "jpg"@, "jpeg"@, "webp"@, "gif"@, "bmp"@, "tiff"@, "tif"@,
        "avif"@, "heic"@, "heif"@, "jxl"@, "pnm"@, "ppm"@, "pgm"@, "srt"@, "ass"@, "ssa"@, "vtt"@,
        "sub"@,
    ]
}

/// Lists the extensions of media files.
fn list_media_extensions() -> (r: Vec<&'static str>)
    ensures
        r@.map_values(|s: &'static str| s@) == media_extensions(),
{
    let out = vec![
        "mp4", "mkv", "mov", "avi", "webm", "m4v", "ts", "m2ts", "mts", "mpg", "mpeg",
        "wmv", "flv", "ogv", "3gp", "3g2", "asf", "rm", "rmvb", "vob", "dv", "mp3",
        "aac", "m4a", "opus", "ogg", "oga", "flac", "wav", "wma", "aiff", "aif", "alac",
        "ac3", "dts", "amr", "png", "jpg", "jpeg", "webp", "gif", "bmp", "tiff", "tif",
        "avif", "heic", "heif", "jxl", "pnm", "ppm", "pgm", "srt", "ass", "ssa", "vtt",
        "sub",
    ];
    assert(out@.map_values(|s: &'static str| s@) =~= media_extensions());
    out
}

/// Whether a file name is that of a media file: it has a dot, and what follows
/// the last one is a media extension, in upper or lower case.
pub open spec fn media_name(name: Seq<char>) -> bool {
    rfind(name, '.') >= 0 && media_extensions().contains(
        lowered(name.skip(rfind(name, '.') + 1)),
    )
}

/// Tests whether a file name is that of a media file.
#[verifier::loop_isolation(false)]
pub fn is_media_file(name: &str) -> (r: bool)
    ensures
        r == media_name(name@),
{
    let x = chars_of(name);
    assert(x@.take(x@.len() as int) =~= x@);
    let from: usize = match rfind_to(&x, x.len(), '.') {
        Some(i) => i + 1,
        None => return false,
    };
    let ext = slice_text(&x, from, x.len());
    proof {
        lemma_rfind_bounds(name@, '.');
    }
    assert(ext@ =~= name@.skip(rfind(name@, '.') + 1));
    let low = to_lower(ext.as_str());
    let all = list_media_extensions();
    let ghost v = media_extensions();
    let mut i: usize = 0;
    while i < all.len()
        invariant
            i <= all@.len(),
            v == all@.map_values(|s: &'static str| s@),
            forall|j: int| 0 <= j < i ==> (#[trigger] v[j]) != low@,
        decreases all@.len() - i,
    {
        assert(v[i as int] == all@[i as int]@);
        if same(all[i], low.as_str()) {
            assert(v.contains(low@));
            return true;
        }
        i = i + 1;
    }
    false
}

/// One row of the list.
#[derive(Debug, Clone, PartialEq, Eq)]
pub struct DirEntry {
    /// Full path.
    pub path: String,
    /// File name.
    pub name: String,
    /// Whether this is a directory.
    pub is_dir: bool,
    /// Size in bytes of a file.
    pub size: Option<u64>,
    /// Whether this is a media file.
    pub is_media: bool,
}

/// What a row says.
#[verifier::ext_equal]
pub struct Entry {
    pub path: Seq<char>,
    pub name: Seq<char>,
    pub is_dir: bool,
    pub size: Option<u64>,
    pub is_media: bool,
}

impl DirEntry {
    pub open spec fn view(&self) -> Entry {
        Entry {
            path: self.path@,
            name: self.name@,
            is_dir: self.is_dir,
            size: self.size,
            is_media: self.is_media,
        }
    }

    /// A row for a directory entry with the given name.
    pub fn new(path: String, name: String, is_dir: bool, size: Option<u64>) -> (r: Self)
        ensures
            r@ == (Entry {
                path: path@,
                name: name@,
                is_dir,
                size,
                is_media: !is_dir && media_name(name@),
            }),
    {
        let is_media = !is_dir && is_media_file(name.as_str());
        DirEntry { path, name, is_dir, size, is_media }
    }

    /// Copies a row.
    pub fn copy(&self) -> (r: Self)
        ensures
            r@ == self@,
    {
        DirEntry {
            path: copy_text(self.path.as_str()),
            name: copy_text(self.name.as_str()),
            is_dir: self.is_dir,
            size: self.size,
            is_media: self.is_media,
        }
    }
}

/// The views of rows.
pub open spec fn entries_of(v: Seq<DirEntry>) -> Seq<Entry> {
    v.map_values(|e: DirEntry| e@)
}

/// Whether a text holds ASCII characters only.
pub open spec fn ascii(s: Seq<char>) -> bool {
    forall|i: int| 0 <= i < s.len() ==> (#[trigger] s[i] as u32) < 128
}

/// Whether the lower-case form of a text is what the case rules of ASCII give,
/// where they apply.
pub open spec fn plainly_lowered(s: Seq<char>) -> bool {
    ascii(s) ==> lowercased(s) == lowered(s)
}

/// What `str::to_lowercase` makes of a text.
pub uninterp spec fn lowercased(s: Seq<char>) -> Seq<char>;

/// `str::to_lowercase` gives the lower-case form of a text by the Unicode
/// rules, which is only named here; ASCII letters become their lower-case
/// letters, and other ASCII characters stay.
#[verifier::external_body]
fn to_lowercase(s: &str) -> (r: String)
    ensures
        r@ == lowercased(s@),
        ascii(s@) ==> r@ == lowered(s@),
{
    s.to_lowercase()
}

/// The key that rows are sorted by: directories first, then the name without
/// regard to case.
pub open spec fn entry_key(e: Entry) -> Seq<char> {
    (if e.is_dir {
        seq!['0']
    } else {
        seq!['1']
    }) + lowercased(e.name)
}

/// The keys of rows.
pub open spec fn entry_keys(v: Seq<Entry>) -> Seq<Seq<char>> {
    v.map_values(|e: Entry| entry_key(e))
}

/// Rows in order. Rows with the same key keep their order.
pub open spec fn sorted_entries(v: Seq<Entry>) -> Seq<Entry> {
    in_order_of(v, choose|p: Seq<int>| is_order(entry_keys(v), p))
}

/// Sorts rows: directories first, then by name without regard to case.
pub fn sort_entries(entries: &mut Vec<DirEntry>)
    ensures
        entries_of(final(entries)@) == sorted_entries(entries_of(old(entries)@)),
        is_order(
            entry_keys(entries_of(old(entries)@)),
            choose|p: Seq<int>| is_order(entry_keys(entries_of(old(entries)@)), p),
        ),
        forall|i: int|
            0 <= i < old(entries)@.len() ==> plainly_lowered((#[trigger] old(entries)@[i])@.name),
{
    let ghost all = entries_of(entries@);
    let ghost wanted = entry_keys(all);
    let mut keys: Vec<Vec<char>> = Vec::new();
    let mut i: usize = 0;
    while i < entries.len()
        invariant
            i <= entries@.len(),
            all == entries_of(entries@),
            wanted == entry_keys(all),
            keys_of(keys@) =~= wanted.take(i as int),
            forall|j: int|
                0 <= j < i ==> plainly_lowered((#[trigger] entries@[j])@.name),
        decreases entries@.len() - i,
    {
        let ghost before = keys_of(keys@);
        let mut key: Vec<char> = Vec::new();
        key.push(
            if entries[i].is_dir {
                '0'
            } else {
                '1'
            },
        );
        let low = to_lowercase(entries[i].name.as_str());
        let mut rest = chars_of(low.as_str());
        key.append(&mut rest);
        let ghost k = key@;
        assert(k =~= entry_key(all[i as int]));
        keys.push(key);
        assert(keys_of(keys@) =~= before.push(k));
        i = i + 1;
    }
    assert(keys_of(keys@) =~= wanted);
    let order = order_of(&keys);
    let ghost p = places(order@);
    let mut out: Vec<DirEntry> = Vec::new();
    let mut j: usize = 0;
    while j < order.len()
        invariant
            j <= order@.len(),
            p == places(order@),
            all == entries_of(entries@),
            wanted == entry_keys(all),
            is_order(wanted, p),
            entries_of(out@) =~= in_order_of(all, p).take(j as int),
        decreases order@.len() - j,
    {
        let at: usize = order[j];
        assert(at == p[j as int]);
        assert(0 <= p[j as int] < wanted.len());
        let ghost before = entries_of(out@);
        let e = entries[at].copy();
        let ghost v = e@;
        out.push(e);
        assert(entries_of(out@) =~= before.push(v));
        j = j + 1;
    }
    assert(entries_of(out@) =~= in_order_of(all, p));
    proof {
        let q = choose|q: Seq<int>| is_order(wanted, q);
        law_order_is_unique(wanted, p, q);
    }
    *entries = out;
}

/// Whether the list shows a row: media files, directories, and others on
/// request, as far as their name holds the filter without regard to case.
pub open spec fn shows(e: Entry, show_all: bool, needle: Seq<char>) -> bool {
    (show_all || e.is_dir || e.is_media) && (needle.len() == 0 || has(
        lowercased(e.name),
        needle,
    ))
}

/// The rows that the list shows, in order.
pub open spec fn shown(v: Seq<Entry>, show_all: bool, needle: Seq<char>) -> Seq<Entry>
    decreases v.len(),
{
    if v.len() == 0 {
        Seq::empty()
    } else {
        let before = shown(v.drop_last(), show_all, needle);
        if shows(v.last(), show_all, needle) {
            before.push(v.last())
        } else {
            before
        }
    }
}

/// Picks the rows that the list shows.
pub fn filter_entries<'a>(all: &'a [DirEntry], show_all: bool, filter: &str) -> (r: Vec<
    &'a DirEntry,
>)
    ensures
        r@.map_values(|e: &'a DirEntry| e@) == shown(
            entries_of(all@),
            show_all,
            lowercased(filter@),
        ),
        plainly_lowered(filter@),
        forall|i: int| 0 <= i < all@.len() ==> plainly_lowered((#[trigger] all@[i])@.name),
{
    let ghost v = entries_of(all@);
    let needle = to_lowercase(filter);
    let mut out: Vec<&'a DirEntry> = Vec::new();
    let mut i: usize = 0;
    assert(out@.map_values(|e: &'a DirEntry| e@) =~= shown(v.take(0), show_all, needle@));
    while i < all.len()
        invariant
            i <= all@.len(),
            v == entries_of(all@),
            needle@ == lowercased(filter@),
            forall|j: int| 0 <= j < i ==> plainly_lowered((#[trigger] all@[j])@.name),
            out@.map_values(|e: &'a DirEntry| e@) == shown(v.take(i as int), show_all, needle@),
        decreases all@.len() - i,
    {
        let e = &all[i];
        proof {
            assert(v.take(i + 1).drop_last() =~= v.take(i as int));
            assert(v.take(i + 1).last() == e@);
        }
        let ghost before = out@.map_values(|e: &'a DirEntry| e@);
        let low = to_lowercase(e.name.as_str());
        if (show_all || e.is_dir || e.is_media) && (needle.as_str().is_empty() || contains_text(
            low.as_str(),
            needle.as_str(),
        )) {
            out.push(e);
            assert(out@.map_values(|e: &'a DirEntry| e@) =~= before.push(e@));
        }
        i = i + 1;
    }
    assert(v.take(i as int) =~= v);
    out
}

// ---------------------------------------------------------------------------
// The browser
// ---------------------------------------------------------------------------

/// The browser.
#[derive(Debug)]
pub struct BrowserState {
    /// The directory shown.
    pub cwd: String,
    /// All its entries, sorted.
    pub all: Vec<DirEntry>,
    /// The entries that the list shows.
    pub entries: Vec<DirEntry>,
    /// The highlighted row.
    pub cursor: usize,
    /// Marked files.
    pub marked: NameSet,
    /// Whether files of every kind are shown.
    pub show_all: bool,
    /// The filter typed so far.
    pub filter: String,
    /// Whether a path is being typed.
    pub path_mode: bool,
    /// The path being typed.
    pub path_input: tui_input::Input,
    /// Why the directory could not be read.
    pub last_error: Option<String>,
}

/// The browser, as mathematical values.
#[verifier::ext_equal]
pub struct Browser {
    pub cwd: Seq<char>,
    pub all: Seq<Entry>,
    pub entries: Seq<Entry>,
    pub cursor: int,
    pub marked: Set<Seq<char>>,
    pub show_all: bool,
    pub filter: Seq<char>,
    pub path_mode: bool,
    pub path: Buffer,
    pub last_error: Option<Seq<char>>,
}

/// What a key press means to the caller.
#[derive(Debug, Clone, PartialEq, Eq)]
pub enum BrowserAction {
    /// Nothing.
    Nothing,
    /// The user chose these files.
    Confirmed(Vec<String>),
    /// Say this.
    Status(String),
    /// Leave the browser.
    Back,
    /// Look at what this path is, and hand it to `on_found`.
    Look(String),
}

/// What a key press asks of the caller.
#[derive(Debug, Clone, PartialEq, Eq)]
pub struct BrowserStep {
    /// Read the directory and hand its entries to `on_listed`, first of all.
    pub list: bool,
    /// What to do.
    pub action: BrowserAction,
}

/// What a path is.
#[derive(Debug, Clone, Copy, PartialEq, Eq, Structural)]
pub enum PathKind {
    Directory,
    File,
    Missing,
}

/// The last row of a list, or the first of an empty one.
pub open spec fn last_row(n: int) -> int {
    if n > 0 {
        n - 1
    } else {
        0
    }
}

impl Browser {
    /// The list brought up to date with the filter; the highlighted row stays
    /// within it.
    pub open spec fn refiltered(self) -> Browser {
        let entries = shown(self.all, self.show_all, lowercased(self.filter));
        Browser {
            entries,
            cursor: if self.cursor <= last_row(entries.len() as int) {
                self.cursor
            } else {
                last_row(entries.len() as int)
            },
            ..self
        }
    }

    /// The browser on its way into a directory: marks and filter belonged to
    /// the one before.
    pub open spec fn entering(self, dir: Seq<char>) -> Browser {
        Browser { cwd: dir, cursor: 0, marked: Set::empty(), filter: Seq::empty(), ..self }
    }

    /// The browser with the entries of its directory, or with the reason why
    /// there are none.
    pub open spec fn listed(self, listing: Result<Seq<Entry>, Seq<char>>) -> Browser {
        match listing {
            Ok(all) => Browser { all: sorted_entries(all), last_error: None, ..self }.refiltered(),
            Err(e) => Browser { all: Seq::empty(), last_error: Some(e), ..self }.refiltered(),
        }
    }

    /// The highlighted row one up or down, round the list.
    pub open spec fn moved(self, down: bool) -> Browser {
        let n = self.entries.len() as int;
        if n == 0 {
            self
        } else if down {
            Browser {
                cursor: if self.cursor + 1 < n {
                    self.cursor + 1
                } else {
                    0
                },
                ..self
            }
        } else {
            Browser {
                cursor: if self.cursor > 0 {
                    self.cursor - 1
                } else {
                    n - 1
                },
                ..self
            }
        }
    }

    /// The highlighted row.
    pub open spec fn highlighted(self) -> Option<Entry> {
        if 0 <= self.cursor < self.entries.len() {
            Some(self.entries[self.cursor])
        } else {
            None
        }
    }

    /// Whether the highlighted row is one of the list, or the list is empty.
    pub open spec fn wf(self) -> bool {
        0 <= self.cursor && (self.cursor < self.entries.len() || self.cursor == 0)
    }
}

/// Whether a character is a control character.
pub open spec fn is_control(c: char) -> bool {
    (c as u32) < 32 || 127 <= (c as u32) < 160
}

/// Whether a key press extends the filter: a character without modifiers that
/// no other key press means. `?` and `q` are kept for help and for leaving.
pub open spec fn types_ahead(key: KeyEvent) -> bool {
    key.code matches KeyCode::Char(c) && key.modifiers == 0 && !is_control(c) && c != '?' && c
        != 'q'
}

/// What a key press makes of the browser while no path is typed, given the
/// home directory.
pub open spec fn browsed(b: Browser, key: KeyEvent, home: Option<Seq<char>>) -> Browser {
    match key.code {
        KeyCode::Up => b.moved(false),
        KeyCode::Char('k') => b.moved(false),
        KeyCode::Down => b.moved(true),
        KeyCode::Char('j') => b.moved(true),
        KeyCode::Home => Browser { cursor: 0, ..b },
        KeyCode::Char('g') => Browser { cursor: 0, ..b },
        KeyCode::End => Browser { cursor: last_row(b.entries.len() as int), ..b },
        KeyCode::Char('G') => Browser { cursor: last_row(b.entries.len() as int), ..b },
        KeyCode::Backspace => if b.filter.len() > 0 {
            Browser { filter: b.filter.drop_last(), ..b }.refiltered()
        } else {
            went_up(b)
        },
        KeyCode::Char('h') => went_up(b),
        KeyCode::Char('~') => match home {
            Some(dir) => b.entering(dir),
            None => b,
        },
        KeyCode::Char('/') => Browser {
            path_mode: true,
            path: fresh_buffer(b.cwd),
            ..b
        },
        KeyCode::Char('a') => Browser { show_all: !b.show_all, ..b }.refiltered(),
        KeyCode::Char(' ') => match b.highlighted() {
            Some(e) => if e.is_dir {
                b
            } else if b.marked.contains(e.path) {
                Browser { marked: b.marked.remove(e.path), ..b }
            } else {
                Browser { marked: b.marked.insert(e.path), ..b }
            },
            None => b,
        },
        KeyCode::Enter => match b.highlighted() {
            Some(e) => if e.is_dir {
                b.entering(e.path)
            } else {
                b
            },
            None => b,
        },
        KeyCode::Esc => if b.filter.len() > 0 {
            Browser { filter: Seq::empty(), ..b }.refiltered()
        } else {
            b
        },
        KeyCode::Char(c) => if types_ahead(key) {
            Browser { filter: b.filter.push(c), cursor: 0, ..b }.refiltered()
        } else {
            b
        },
        _ => b,
    }
}

/// The browser on its way to the parent directory, if there is one.
pub open spec fn went_up(b: Browser) -> Browser {
    match parent(b.cwd) {
        Some(dir) => b.entering(dir),
        None => b,
    }
}

/// Whether a key press enters a directory while no path is typed.
pub open spec fn enters(b: Browser, key: KeyEvent, home: Option<Seq<char>>) -> bool {
    match key.code {
        KeyCode::Backspace => b.filter.len() == 0 && parent(b.cwd) is Some,
        KeyCode::Char('h') => parent(b.cwd) is Some,
        KeyCode::Char('~') => home is Some,
        KeyCode::Enter => b.highlighted() matches Some(e) && e.is_dir,
        _ => false,
    }
}

/// Whether an action is what a key press means while no path is typed: Enter
/// chooses the marked files together with the highlighted one, in order, and
/// Esc leaves once there is no filter.
pub open spec fn browse_means(b: Browser, key: KeyEvent, action: BrowserAction) -> bool {
    match key.code {
        KeyCode::Enter => match b.highlighted() {
            Some(e) => if e.is_dir {
                action is Nothing
            } else {
                action matches BrowserAction::Confirmed(v) && lists(
                    texts(v@),
                    b.marked.insert(e.path),
                )
            },
            None => action is Nothing,
        },
        KeyCode::Esc => if b.filter.len() > 0 {
            action is Nothing
        } else {
            action is Back
        },
        _ => action is Nothing,
    }
}

/// A path with a leading `~` replaced by the home directory.
pub open spec fn untilded(raw: Seq<char>, home: Option<Seq<char>>) -> Seq<char> {
    if raw.len() > 0 && raw[0] == '~' && home is Some {
        home->0 + raw.skip(1)
    } else {
        raw
    }
}

/// Replaces a leading `~` by the home directory.
pub fn expand_tilde(raw: &str, home: Option<&str>) -> (r: String)
    ensures
        r@ == untilded(
            raw@,
            match home {
                Some(h) => Some(h@),
                None => None,
            },
        ),
{
    let x = chars_of(raw);
    if x.len() > 0 && x[0] == '~' {
        if let Some(h) = home {
            let rest = slice_text(&x, 1, x.len());
            assert(rest@ =~= raw@.skip(1));
            return join2(h, rest.as_str());
        }
    }
    copy_text(raw)
}

/// An optional text by its view.
pub open spec fn opt_str(o: Option<&str>) -> Option<Seq<char>> {
    match o {
        Some(s) => Some(s@),
        None => None,
    }
}

/// A path, once it is known what it is: a directory is entered, of a file the
/// directory is.
pub open spec fn found(b: Browser, target: Seq<char>, kind: PathKind) -> Browser {
    match kind {
        PathKind::Directory => b.entering(target),
        PathKind::File => match parent(target) {
            Some(dir) => b.entering(dir),
            None => b,
        },
        PathKind::Missing => b,
    }
}

/// What a path that was looked at means.
pub open spec fn found_means(
    b: Browser,
    target: Seq<char>,
    kind: PathKind,
    action: BrowserAction,
) -> bool {
    match kind {
        PathKind::Directory => action is Nothing,
        PathKind::File => action matches BrowserAction::Confirmed(v) && texts(v@) == seq![target],
        PathKind::Missing => action matches BrowserAction::Status(s) && s@
            == "No such file or directory: "@ + b.path.text,
    }
}

/// What a key press makes of the browser, whether a directory is to be read,
/// and what the press means.
pub open spec fn browser_keyed(
    before: Browser,
    key: KeyEvent,
    home: Option<Seq<char>>,
    after: Browser,
    list: bool,
    action: BrowserAction,
) -> bool {
    if before.path_mode {
        &&& path_typed(before, key, after)
        &&& !list
        &&& match key.code {
            KeyCode::Enter => action matches BrowserAction::Look(p) && p@ == untilded(
                before.path.text,
                home,
            ),
            _ => action is Nothing,
        }
    } else {
        &&& after == browsed(before, key, home)
        &&& list == enters(before, key, home)
        &&& browse_means(before, key, action)
    }
}

impl BrowserState {
    pub open spec fn view(&self) -> Browser {
        Browser {
            cwd: self.cwd@,
            all: entries_of(self.all@),
            entries: entries_of(self.entries@),
            cursor: self.cursor as int,
            marked: self.marked@,
            show_all: self.show_all,
            filter: self.filter@,
            path_mode: self.path_mode,
            path: buffer(self.path_input),
            last_error: opt_text(self.last_error),
        }
    }

    /// The highlighted row exists, and no file is marked twice.
    pub open spec fn wf(&self) -> bool {
        self@.wf() && self.marked.wf()
    }

    /// A browser that is to show a directory.
    pub fn open(dir: String) -> (r: Self)
        ensures
            r.wf(),
            r@ == (Browser {
                cwd: dir@,
                all: Seq::empty(),
                entries: Seq::empty(),
                cursor: 0,
                marked: Set::empty(),
                show_all: false,
                filter: Seq::empty(),
                path_mode: false,
                path: fresh_buffer(Seq::empty()),
                last_error: None,
            }),
    {
        let r = BrowserState {
            cwd: dir,
            all: Vec::new(),
            entries: Vec::new(),
            cursor: 0,
            marked: NameSet::new(),
            show_all: false,
            filter: String::new(),
            path_mode: false,
            path_input: new_input(String::new()),
            last_error: None,
        };
        assert(entries_of(r.all@) =~= Seq::<Entry>::empty());
        assert(entries_of(r.entries@) =~= Seq::<Entry>::empty());
        r
    }

    /// Whether the first directory could not be read, so that the home
    /// directory and then the root are tried.
    pub fn needs_fallback(&self) -> (r: bool)
        ensures
            r == (self@.all.len() == 0 && self@.last_error is Some),
    {
        self.all.len() == 0 && self.last_error.is_some()
    }

    /// Shows another directory in place of one that could not be read.
    pub fn fall_back(&mut self, dir: String)
        requires
            old(self).wf(),
        ensures
            final(self).wf(),
            final(self)@ == (Browser { cwd: dir@, ..old(self)@ }),
    {
        self.cwd = dir;
    }

    /// Brings the list up to date with the filter.
    fn apply_filter(&mut self)
        requires
            old(self).marked.wf(),
        ensures
            final(self).wf(),
            final(self)@ == old(self)@.refiltered(),
    {
        let picked = filter_entries(self.all.as_slice(), self.show_all, self.filter.as_str());
        let ghost want = shown(
            entries_of(self.all@),
            self.show_all,
            lowercased(self.filter@),
        );
        let mut out: Vec<DirEntry> = Vec::new();
        let mut i: usize = 0;
        while i < picked.len()
            invariant
                i <= picked@.len(),
                want == picked@.map_values(|e: &DirEntry| e@),
                entries_of(out@) =~= want.take(i as int),
            decreases picked@.len() - i,
        {
            let ghost before = entries_of(out@);
            let e = picked[i].copy();
            let ghost v = e@;
            out.push(e);
            assert(entries_of(out@) =~= before.push(v));
            i = i + 1;
        }
        assert(entries_of(out@) =~= want);
        let last: usize = if out.len() > 0 {
            out.len() - 1
        } else {
            0
        };
        self.entries = out;
        if self.cursor > last {
            self.cursor = last;
        }
    }

    /// Takes in the entries of the directory, or the reason why there are none.
    pub fn on_listed(&mut self, listing: Result<Vec<DirEntry>, String>)
        requires
            old(self).wf(),
        ensures
            final(self).wf(),
            final(self)@ == old(self)@.listed(
                match listing {
                    Ok(v) => Ok(entries_of(v@)),
                    Err(e) => Err(e@),
                },
            ),
    {
        match listing {
            Ok(v) => {
                let mut all = v;
                sort_entries(&mut all);
                self.all = all;
                self.last_error = None;
            },
            Err(e) => {
                self.all = Vec::new();
                assert(entries_of(self.all@) =~= Seq::<Entry>::empty());
                self.last_error = Some(e);
            },
        }
        self.apply_filter();
    }

    /// The highlighted row.
    pub fn highlighted(&self) -> (r: Option<&DirEntry>)
        ensures
            match r {
                Some(e) => self@.highlighted() == Some(e@),
                None => self@.highlighted() is None,
            },
    {
        if self.cursor < self.entries.len() {
            assert(entries_of(self.entries@)[self.cursor as int] == self.entries@[self.cursor as int]@);
            Some(&self.entries[self.cursor])
        } else {
            None
        }
    }

    /// Moves the highlighted row.
    fn move_cursor(&mut self, down: bool)
        requires
            old(self).wf(),
        ensures
            final(self).wf(),
            final(self)@ == old(self)@.moved(down),
    {
        let n: usize = self.entries.len();
        if n == 0 {
            return;
        }
        if down {
            self.cursor = if self.cursor < n - 1 {
                self.cursor + 1
            } else {
                0
            };
        } else {
            self.cursor = if self.cursor > 0 {
                self.cursor - 1
            } else {
                n - 1
            };
        }
    }

    /// Sets out for a directory.
    fn descend(&mut self, dir: String)
        requires
            old(self).wf(),
        ensures
            final(self).wf(),
            final(self)@ == old(self)@.entering(dir@),
    {
        self.cwd = dir;
        self.cursor = 0;
        self.marked.clear();
        self.filter = String::new();
    }

    /// Sets out for the parent directory; says whether there is one.
    fn go_up(&mut self) -> (r: bool)
        requires
            old(self).wf(),
        ensures
            final(self).wf(),
            final(self)@ == went_up(old(self)@),
            r == (parent(old(self)@.cwd) is Some),
    {
        match get_parent(self.cwd.as_str()) {
            Some(dir) => {
                self.descend(dir);
                true
            },
            None => false,
        }
    }

    /// Marks the highlighted file, or takes its mark away.
    fn toggle_mark(&mut self)
        requires
            old(self).wf(),
        ensures
            final(self).wf(),
            final(self)@ == browsed(
                old(self)@,
                (KeyEvent { code: KeyCode::Char(' '), modifiers: 0 }),
                None,
            ),
    {
        let path = match self.highlighted() {
            Some(e) => if e.is_dir {
                None
            } else {
                Some(copy_text(e.path.as_str()))
            },
            None => None,
        };
        if let Some(p) = path {
            if self.marked.contains(p.as_str()) {
                self.marked.remove(p.as_str());
            } else {
                self.marked.insert(p.as_str());
            }
        }
    }

    /// The marked files and one more, in order.
    fn chosen(&self, path: &str) -> (r: Vec<String>)
        requires
            self.marked.wf(),
        ensures
            lists(texts(r@), self.marked@.insert(path@)),
    {
        let mut all = self.marked.copy();
        all.insert(path);
        all.sorted()
    }

    /// Takes the last character off the filter.
    fn shorten_filter(&mut self)
        requires
            old(self).wf(),
            old(self)@.filter.len() > 0,
        ensures
            final(self).wf(),
            final(self)@ == (Browser {
                filter: old(self)@.filter.drop_last(),
                ..old(self)@
            }).refiltered(),
    {
        let x = chars_of(self.filter.as_str());
        let end: usize = x.len() - 1;
        let rest = slice_text(&x, 0, end);
        assert(rest@ =~= self.filter@.drop_last());
        self.filter = rest;
        self.apply_filter();
    }

    /// Takes in a key press while no path is typed.
    fn on_key_list(&mut self, key: KeyEvent, home: Option<&str>) -> (r: BrowserStep)
        requires
            old(self).wf(),
        ensures
            final(self).wf(),
            final(self)@ == browsed(old(self)@, key, opt_str(home)),
            r.list == enters(old(self)@, key, opt_str(home)),
            browse_means(old(self)@, key, r.action),
    {
        let mut list = false;
        let mut action = BrowserAction::Nothing;
        match key.code {
            KeyCode::Up | KeyCode::Char('k') => self.move_cursor(false),
            KeyCode::Down | KeyCode::Char('j') => self.move_cursor(true),
            KeyCode::Home | KeyCode::Char('g') => {
                self.cursor = 0;
            },
            KeyCode::End | KeyCode::Char('G') => {
                self.cursor = if self.entries.len() > 0 {
                    self.entries.len() - 1
                } else {
                    0
                };
            },
            KeyCode::Backspace => {
                if !self.filter.as_str().is_empty() {
                    self.shorten_filter();
                } else {
                    list = self.go_up();
                }
            },
            KeyCode::Char('h') => {
                list = self.go_up();
            },
            KeyCode::Char('~') => {
                if let Some(h) = home {
                    self.descend(copy_text(h));
                    list = true;
                }
            },
            KeyCode::Char('/') => {
                self.path_mode = true;
                self.path_input = new_input(copy_text(self.cwd.as_str()));
            },
            KeyCode::Char('a') => {
                self.show_all = !self.show_all;
                self.apply_filter();
            },
            KeyCode::Char(' ') => self.toggle_mark(),
            KeyCode::Enter => {
                let picked = match self.highlighted() {
                    Some(e) => Some((e.is_dir, copy_text(e.path.as_str()))),
                    None => None,
                };
                if let Some((is_dir, path)) = picked {
                    if is_dir {
                        self.descend(path);
                        list = true;
                    } else {
                        action = BrowserAction::Confirmed(self.chosen(path.as_str()));
                    }
                }
            },
            KeyCode::Esc => {
                if !self.filter.as_str().is_empty() {
                    self.filter = String::new();
                    self.apply_filter();
                } else {
                    action = BrowserAction::Back;
                }
            },
            KeyCode::Char(c) => {
                let control = c < ' ' || ('\u{7f}' <= c && c < '\u{a0}');
                if key.modifiers == 0 && !control && c != '?' && c != 'q' {
                    self.filter.push(c);
                    self.cursor = 0;
                    self.apply_filter();
                }
            },
            _ => {},
        }
        BrowserStep { list, action }
    }

    /// Takes in a key press while a path is typed. Enter asks what the path is.
    fn on_key_path(&mut self, key: KeyEvent, home: Option<&str>) -> (r: BrowserStep)
        requires
            old(self).wf(),
            key.modifiers <= ALL_MODIFIERS,
        ensures
            final(self).wf(),
            !r.list,
            path_typed(old(self)@, key, final(self)@),
            match key.code {
                KeyCode::Enter => r.action matches BrowserAction::Look(p) && p@ == untilded(
                    old(self)@.path.text,
                    opt_str(home),
                ),
                _ => r.action is Nothing,
            },
    {
        match key.code {
            KeyCode::Esc => {
                self.path_mode = false;
                BrowserStep { list: false, action: BrowserAction::Nothing }
            },
            KeyCode::Enter => {
                self.path_mode = false;
                let target = expand_tilde(input_value(&self.path_input), home);
                BrowserStep { list: false, action: BrowserAction::Look(target) }
            },
            _ => {
                edit(&mut self.path_input, key);
                BrowserStep { list: false, action: BrowserAction::Nothing }
            },
        }
    }

    /// Takes in a key press, given the home directory.
    pub fn on_key(&mut self, key: KeyEvent, home: Option<&str>) -> (r: BrowserStep)
        requires
            old(self).wf(),
            key.modifiers <= ALL_MODIFIERS,
        ensures
            final(self).wf(),
            browser_keyed(old(self)@, key, opt_str(home), final(self)@, r.list, r.action),
    {
        if self.path_mode {
            self.on_key_path(key, home)
        } else {
            self.on_key_list(key, home)
        }
    }

    /// Takes in what a typed path is: a directory is entered, a file is chosen,
    /// and anything else is reported as it was typed.
    pub fn on_found(&mut self, target: String, kind: PathKind) -> (r: BrowserStep)
        requires
            old(self).wf(),
        ensures
            final(self).wf(),
            final(self)@ == found(old(self)@, target@, kind),
            r.list == (kind is Directory || (kind is File && parent(target@) is Some)),
            found_means(old(self)@, target@, kind, r.action),
    {
        match kind {
            PathKind::Directory => {
                self.descend(target);
                BrowserStep { list: true, action: BrowserAction::Nothing }
            },
            PathKind::File => {
                let list = match get_parent(target.as_str()) {
                    Some(dir) => {
                        self.descend(dir);
                        true
                    },
                    None => false,
                };
                let ghost t = target@;
                let mut files: Vec<String> = Vec::new();
                files.push(target);
                assert(texts(files@) =~= seq![t]);
                BrowserStep { list, action: BrowserAction::Confirmed(files) }
            },
            PathKind::Missing => {
                let message = join2(
                    "No such file or directory: ",
                    input_value(&self.path_input),
                );
                BrowserStep { list: false, action: BrowserAction::Status(message) }
            },
        }
    }
}

/// Whether a key press changes the path being typed as it should: Esc and
/// Enter end the typing, editing keys edit the text, and nothing else changes.
pub open spec fn path_typed(before: Browser, key: KeyEvent, after: Browser) -> bool {
    match key.code {
        KeyCode::Esc => after == (Browser { path_mode: false, ..before }),
        KeyCode::Enter => after == (Browser { path_mode: false, ..before }),
        _ => {
            after == (Browser { path: pressed(before.path, key), ..before })
        },
    }
}

// ---------------------------------------------------------------------------
// What the browser shows
// ---------------------------------------------------------------------------

/// The first row shown when `rows` fit: far enough down to show the
/// highlighted one, and not past the end of the list.
pub open spec fn first_shown(cursor: int, rows: int, len: int) -> int {
    if rows == 0 {
        0
    } else {
        let least = if cursor > rows - 1 {
            cursor - (rows - 1)
        } else {
            0
        };
        let most = if len > rows {
            len - rows
        } else {
            0
        };
        if least < most {
            least
        } else {
            most
        }
    }
}

/// Works out the first row shown.
pub fn window_start(cursor: usize, rows: usize, len: usize) -> (r: usize)
    ensures
        r == first_shown(cursor as int, rows as int, len as int),
{
    if rows == 0 {
        return 0;
    }
    let least: usize = if cursor > rows - 1 {
        cursor - (rows - 1)
    } else {
        0
    };
    let most: usize = if len > rows {
        len - rows
    } else {
        0
    };
    if least < most {
        least
    } else {
        most
    }
}

/// The highlighted row is always among those shown.
pub proof fn law_highlight_is_shown(cursor: int, rows: int, len: int)
    requires
        0 <= cursor < len,
        rows > 0,
    ensures
        first_shown(cursor, rows, len) <= cursor < first_shown(cursor, rows, len) + rows,
        0 <= first_shown(cursor, rows, len),
{
}

/// The text of a row: its mark, its name, and a slash behind a directory.
pub open spec fn row_text(e: Entry, marked: bool) -> Seq<char> {
    (if marked {
        "● "@
    } else {
        "  "@
    }) + e.name + (if e.is_dir {
        "/"@
    } else {
        Seq::empty()
    })
}

/// Writes a row.
pub fn row_label(e: &DirEntry, marked: bool) -> (r: String)
    ensures
        r@ == row_text(e@, marked),
{
    let mark = if marked {
        "● "
    } else {
        "  "
    };
    let out = join2(mark, e.name.as_str());
    if e.is_dir {
        join2(out.as_str(), "/")
    } else {
        assert(out@ =~= row_text(e@, marked));
        out
    }
}

/// How a row is painted: files that are no media are muted, unless all files
/// are asked for.
pub fn row_tone(e: &DirEntry, show_all: bool) -> (r: Tone)
    ensures
        r == (if !e@.is_dir && !e@.is_media && !show_all {
            Tone::Muted
        } else {
            Tone::Plain
        }),
{
    if !e.is_dir && !e.is_media && !show_all {
        Tone::Muted
    } else {
        Tone::Plain
    }
}

/// The title of the list.
pub open spec fn list_title(shown: nat, all: nat) -> Seq<char> {
    "Files — "@ + (if shown == all {
        dec(shown)
    } else {
        dec(shown) + " of "@ + dec(all)
    }) + " entries"@
}

/// The footer: the last error, or what the application says, or the keys with
/// the marks and the filter.
pub open spec fn hint_text(b: Browser, status: Option<Seq<char>>) -> Seq<char> {
    match b.last_error {
        Some(e) => e,
        None => match status {
            Some(s) => s,
            None => "↑↓ move · Enter open/choose · Space mark"@ + (if b.marked.len() > 0 {
                " · "@ + dec(b.marked.len()) + " marked"@
            } else {
                Seq::empty()
            }) + (if b.filter.len() > 0 {
                " · filter: "@ + b.filter
            } else {
                Seq::empty()
            }),
        },
    }
}

impl BrowserState {
    /// The title of the list.
    pub fn title(&self) -> (r: String)
        ensures
            r@ == list_title(self@.entries.len(), self@.all.len()),
    {
        let n: usize = self.entries.len();
        let count = if n == self.all.len() {
            show_usize(n)
        } else {
            join3(show_usize(n).as_str(), " of ", show_usize(self.all.len()).as_str())
        };
        join3("Files — ", count.as_str(), " entries")
    }

    /// The footer.
    pub fn hints(&self, status: Option<&String>) -> (r: String)
        requires
            self.marked.wf(),
        ensures
            r@ == hint_text(
                self@,
                match status {
                    Some(s) => Some(s@),
                    None => None,
                },
            ),
    {
        if let Some(e) = &self.last_error {
            return copy_text(e.as_str());
        }
        if let Some(s) = status {
            return copy_text(s.as_str());
        }
        let mut out = copy_text("↑↓ move · Enter open/choose · Space mark");
        let n: usize = self.marked.len();
        if n > 0 {
            out.append(" · ");
            out.append(show_usize(n).as_str());
            out.append(" marked");
        }
        if !self.filter.as_str().is_empty() {
            out.append(" · filter: ");
            out.append(self.filter.as_str());
        }
        assert(out@ =~= hint_text(self@, None));
        out
    }
}

/// What the side pane says of a probe.
pub open spec fn probe_lines(probe: Option<ProbeState>) -> Seq<Seq<(Tone, Seq<char>)>> {
    match probe {
        None => seq![seq![(Tone::Footer, "…"@)]],
        Some(ProbeState::Pending) => seq![seq![(Tone::Footer, "Probing…"@)]],
        Some(ProbeState::Ready(result)) => {
            let line = seq![seq![(Tone::Command, summary(result))]];
            match turned(result) {
                Some(r) => if r != 0 {
                    line.push(
                        seq![
                            (
                                Tone::Warning,
                                "Rotated "@ + millionths_text(r)
                                    + "° — affects output orientation"@,
                            ),
                        ],
                    )
                } else {
                    line
                },
                None => line,
            }
        },
        Some(ProbeState::Failed(message)) => seq![
            seq![(Tone::Warning, "Unreadable: "@ + message@)],
        ],
    }
}

/// How the picture of a file is turned, in millionths of a degree.
pub open spec fn turned(result: ProbeResult) -> Option<int> {
    let v = result.streams@;
    if result.videoed() {
        match v[first_video(v)].rotation {
            Some(r) => Some(r as int),
            None => None,
        }
    } else {
        None
    }
}

/// The side pane: what is known of the highlighted row.
pub open spec fn pane_lines(e: Option<Entry>, probe: Option<ProbeState>) -> Seq<
    Seq<(Tone, Seq<char>)>,
> {
    match e {
        None => seq![seq![(Tone::Muted, "Empty directory"@)]],
        Some(e) => {
            let head = seq![
                seq![(Tone::Title, e.name)],
                seq![
                    (
                        Tone::Muted,
                        if e.is_dir {
                            "directory"@
                        } else {
                            "file"@
                        },
                    ),
                ],
            ];
            let sized = match e.size {
                Some(n) => head.push(seq![(Tone::Muted, size_text(n as nat))]),
                None => head,
            };
            let gap = sized.push(seq![(Tone::Plain, ""@)]);
            if e.is_dir {
                gap.push(seq![(Tone::Footer, "Enter opens this directory"@)])
            } else if !e.is_media {
                gap.push(
                    seq![(Tone::Footer, "Not a media file; showing all files is on with `a`"@)],
                )
            } else {
                gap + probe_lines(probe)
            }
        },
    }
}

/// Adds what the side pane says of a probe.
fn add_probe_lines(out: &mut Vec<Vec<Piece>>, probe: Option<&ProbeState>)
    ensures
        lines_of(final(out)@) == lines_of(old(out)@) + probe_lines(
            match probe {
                Some(p) => Some(*p),
                None => None,
            },
        ),
{
    let ghost before = lines_of(out@);
    match probe {
        None => add_line(out, Tone::Footer, "…"),
        Some(ProbeState::Pending) => add_line(out, Tone::Footer, "Probing…"),
        Some(ProbeState::Ready(result)) => {
            add_line(out, Tone::Command, result.summary_line().as_str());
            if let Some(v) = result.video_stream() {
                if let Some(r) = v.rotation {
                    if r != 0 {
                        let text = join3(
                            "Rotated ",
                            show_millionths(r).as_str(),
                            "° — affects output orientation",
                        );
                        add_line(out, Tone::Warning, text.as_str());
                    }
                }
            }
        },
        Some(ProbeState::Failed(message)) => {
            add_line(out, Tone::Warning, join2("Unreadable: ", message.as_str()).as_str());
        },
    }
    assert(lines_of(out@) =~= before + probe_lines(
        match probe {
            Some(p) => Some(*p),
            None => None,
        },
    ));
}

/// Writes the side pane.
pub fn info_lines(entry: Option<&DirEntry>, probe: Option<&ProbeState>) -> (r: Vec<Vec<Piece>>)
    ensures
        lines_of(r@) == pane_lines(
            match entry {
                Some(e) => Some(e@),
                None => None,
            },
            match probe {
                Some(p) => Some(*p),
                None => None,
            },
        ),
{
    let mut out = no_lines();
    match entry {
        None => add_line(&mut out, Tone::Muted, "Empty directory"),
        Some(e) => {
            add_line(&mut out, Tone::Title, e.name.as_str());
            let kind = if e.is_dir {
                "directory"
            } else {
                "file"
            };
            add_line(&mut out, Tone::Muted, kind);
            if let Some(n) = e.size {
                add_line(&mut out, Tone::Muted, format_size(n).as_str());
            }
            add_line(&mut out, Tone::Plain, "");
            if e.is_dir {
                add_line(&mut out, Tone::Footer, "Enter opens this directory");
            } else if !e.is_media {
                add_line(
                    &mut out,
                    Tone::Footer,
                    "Not a media file; showing all files is on with `a`",
                );
            } else {
                add_probe_lines(&mut out, probe);
            }
        },
    }
    assert(lines_of(out@) =~= pane_lines(
        match entry {
            Some(e) => Some(e@),
            None => None,
        },
        match probe {
            Some(p) => Some(*p),
            None => None,
        },
    ));
    out
}

// ---------------------------------------------------------------------------
// Laws
// ---------------------------------------------------------------------------

/// The list shows what was asked for and nothing else: media files and
/// directories, the other files on demand, and of these the ones whose names
/// hold the filter in any case of letters.
pub proof fn law_the_filter_keeps_what_matches(
    v: Seq<Entry>,
    show_all: bool,
    needle: Seq<char>,
    e: Entry,
)
    ensures
        shown(v, show_all, needle).contains(e) <==> v.contains(e) && (show_all || e.is_dir
            || e.is_media) && has(lowercased(e.name), needle),
    decreases v.len(),
{
    let r = shown(v, show_all, needle);
    assert(occurs_at(lowercased(e.name), Seq::empty(), 0)) by {
        assert(lowercased(e.name).subrange(0, 0) =~= Seq::<char>::empty());
    }
    if needle.len() == 0 {
        assert(needle =~= Seq::empty());
    }
    if v.len() > 0 {
        let w = v.drop_last();
        let x = v.last();
        law_the_filter_keeps_what_matches(w, show_all, needle, e);
        assert(v =~= w.push(x));
        assert(v.contains(e) <==> w.contains(e) || x == e) by {
            lemma_pushed(w, x, e);
        }
        lemma_pushed(shown(w, show_all, needle), x, e);
    }
}

proof fn lemma_pushed(w: Seq<Entry>, x: Entry, e: Entry)
    ensures
        w.push(x).contains(e) <==> w.contains(e) || x == e,
{
    if w.contains(e) {
        let i = choose|i: int| 0 <= i < w.len() && w[i] == e;
        assert(w.push(x)[i] == e);
    }
    assert(w.push(x)[w.len() as int] == x);
    if w.push(x).contains(e) {
        let i = choose|i: int| 0 <= i < w.push(x).len() && w.push(x)[i] == e;
        if i < w.len() {
            assert(w[i] == e);
        }
    }
}

/// The list keeps the order of the directory: the rows of two parts are the
/// rows of the first, and those of the second behind them.
pub proof fn law_the_filter_keeps_the_order(
    v: Seq<Entry>,
    w: Seq<Entry>,
    show_all: bool,
    needle: Seq<char>,
)
    ensures
        shown(v + w, show_all, needle) == shown(v, show_all, needle) + shown(
            w,
            show_all,
            needle,
        ),
    decreases w.len(),
{
    if w.len() == 0 {
        assert(v + w =~= v);
        assert(shown(v, show_all, needle) + Seq::<Entry>::empty() =~= shown(v, show_all, needle));
    } else {
        law_the_filter_keeps_the_order(v, w.drop_last(), show_all, needle);
        assert((v + w).drop_last() =~= v + w.drop_last());
        assert((v + w).last() == w.last());
        assert(shown(v + w, show_all, needle) =~= shown(v, show_all, needle) + shown(
            w,
            show_all,
            needle,
        ));
    }
}

/// A sorted directory holds every entry, directories first, and each kind by
/// its names whatever the case of their letters.
pub proof fn law_directories_come_first(v: Seq<Entry>, i: int, j: int)
    requires
        exists|p: Seq<int>| is_order(entry_keys(v), p),
        0 <= i < j < v.len(),
    ensures
        ({
            let out = sorted_entries(v);
            &&& out.len() == v.len()
            &&& out[j].is_dir ==> out[i].is_dir
            &&& out[i].is_dir == out[j].is_dir ==> lowercased(out[i].name) == lowercased(
                out[j].name,
            ) || precedes(lowercased(out[i].name), lowercased(out[j].name))
            &&& out.contains(v[i]) && out.contains(v[j])
        }),
{
    let keys = entry_keys(v);
    let p = choose|p: Seq<int>| is_order(keys, p);
    let out = sorted_entries(v);
    assert(sorts_before(keys, p[i], p[j]));
    assert(0 <= p[i] < keys.len() && 0 <= p[j] < keys.len());
    let a = out[i];
    let b = out[j];
    assert(keys[p[i]] == entry_key(a) && keys[p[j]] == entry_key(b));
    let x = entry_key(a);
    let y = entry_key(b);
    assert(x.skip(1) =~= lowercased(a.name));
    assert(y.skip(1) =~= lowercased(b.name));
    let at = law_order_is_complete(keys, p, i);
    assert(out[at] == v[i]);
    let place = law_order_is_complete(keys, p, j);
    assert(out[place] == v[j]);
}

/// Down goes to the next row and from the last to the first; up goes the same
/// way back.
pub proof fn law_rows_go_round(b: Browser, down: KeyEvent, up: KeyEvent, home: Option<Seq<char>>)
    requires
        b.wf(),
        b.entries.len() > 0,
        down.code == KeyCode::Down,
        up.code == KeyCode::Up,
    ensures
        browsed(b, down, home).cursor == (if b.cursor == b.entries.len() - 1 {
            0
        } else {
            b.cursor + 1
        }),
        browsed(browsed(b, down, home), up, home) == b,
        browsed(browsed(b, up, home), down, home) == b,
{
}

/// The space bar marks the highlighted file and no other, and takes the mark
/// off again.
pub proof fn law_marks_come_and_go(b: Browser, key: KeyEvent, home: Option<Seq<char>>)
    requires
        key.code == KeyCode::Char(' '),
        b.highlighted() is Some,
    ensures
        ({
            let e = b.highlighted()->0;
            let after = browsed(b, key, home);
            &&& forall|p: Seq<char>|
                p != e.path ==> (#[trigger] after.marked.contains(p) <==> b.marked.contains(p))
            &&& e.is_dir ==> after.marked == b.marked
            &&& !e.is_dir ==> (after.marked.contains(e.path) <==> !b.marked.contains(e.path))
            &&& browsed(after, key, home) == b
            &&& after == (Browser { marked: after.marked, ..b })
        }),
{
    let e = b.highlighted()->0;
    let after = browsed(b, key, home);
    assert(after.highlighted() == Some(e));
    if !e.is_dir {
        if b.marked.contains(e.path) {
            assert(b.marked.remove(e.path).insert(e.path) =~= b.marked);
        } else {
            assert(b.marked.insert(e.path).remove(e.path) =~= b.marked);
        }
    }
}

/// Choosing takes the highlighted file along with everything that is marked,
/// each once, and nothing else.
pub proof fn law_choosing_takes_all_that_is_marked(
    b: Browser,
    key: KeyEvent,
    home: Option<Seq<char>>,
    after: Browser,
    list: bool,
    action: BrowserAction,
)
    requires
        key.code == KeyCode::Enter,
        !b.path_mode,
        b.highlighted() matches Some(e) && !e.is_dir,
        browser_keyed(b, key, home, after, list, action),
    ensures
        after == b,
        !list,
        action matches BrowserAction::Confirmed(v) && {
            &&& texts(v@).contains(b.highlighted()->0.path)
            &&& forall|p: Seq<char>| b.marked.contains(p) ==> #[trigger] texts(v@).contains(p)
            &&& forall|p: Seq<char>| #[trigger]
                texts(v@).contains(p) ==> b.marked.contains(p) || p == b.highlighted()->0.path
        },
{
    if let BrowserAction::Confirmed(v) = action {
        let all = b.marked.insert(b.highlighted()->0.path);
        let t = texts(v@);
        assert(t.to_set() == all);
        assert forall|p: Seq<char>| #[trigger] t.contains(p) <==> all.contains(p) by {
            assert(t.to_set().contains(p) <==> t.contains(p));
        }
    }
}

/// Opening a directory goes there, at its first row, with nothing marked and
/// no filter, and has it listed. Going up goes to the parent.
pub proof fn law_directories_open(
    b: Browser,
    key: KeyEvent,
    home: Option<Seq<char>>,
    after: Browser,
    list: bool,
    action: BrowserAction,
)
    requires
        !b.path_mode,
        browser_keyed(b, key, home, after, list, action),
    ensures
        key.code == KeyCode::Enter ==> (b.highlighted() matches Some(e) ==> (e.is_dir
            ==> after.cwd == e.path && list)),
        key.code == KeyCode::Char('h') ==> (parent(b.cwd) matches Some(dir) ==> after.cwd == dir
            && list),
        key.code == KeyCode::Backspace && b.filter.len() == 0 ==> (parent(b.cwd) matches Some(dir)
            ==> after.cwd == dir && list),
        key.code == KeyCode::Char('~') ==> (home matches Some(dir) ==> after.cwd == dir && list),
        list ==> after.cursor == 0 && after.marked == Set::<Seq<char>>::empty()
            && after.filter.len() == 0,
        !list ==> after.cwd == b.cwd,
{
}

/// What is typed ahead filters the list by it, from its first row, and rubbing
/// it out brings the earlier filter back.
pub proof fn law_typing_ahead_filters(
    b: Browser,
    key: KeyEvent,
    c: char,
    rub: KeyEvent,
    home: Option<Seq<char>>,
)
    requires
        key.code == KeyCode::Char(c),
        key.modifiers == 0,
        0x20 < c as u32 <= 0x7e,
        !seq!['k', 'j', 'g', 'G', 'h', '~', '/', 'a', '?', 'q'].contains(c),
        rub.code == KeyCode::Backspace,
    ensures
        browsed(b, key, home).filter == b.filter.push(c),
        browsed(b, key, home).cursor == 0,
        forall|e: Entry| #[trigger]
            browsed(b, key, home).entries.contains(e) <==> b.all.contains(e) && (b.show_all
                || e.is_dir || e.is_media) && has(lowercased(e.name), lowercased(b.filter.push(c))),
        browsed(browsed(b, key, home), rub, home).filter == b.filter,
        browsed(browsed(b, key, home), rub, home).entries == shown(
            b.all,
            b.show_all,
            lowercased(b.filter),
        ),
        browsed(browsed(b, key, home), rub, home).cwd == b.cwd,
{
    let taken = seq!['k', 'j', 'g', 'G', 'h', '~', '/', 'a', '?', 'q'];
    assert(taken[0] == 'k' && taken[1] == 'j' && taken[2] == 'g' && taken[3] == 'G' && taken[4]
        == 'h' && taken[5] == '~' && taken[6] == '/' && taken[7] == 'a' && taken[8] == '?'
        && taken[9] == 'q');
    assert(c != ' ');
    assert(types_ahead(key));
    assert(b.filter.push(c).drop_last() =~= b.filter);
    assert forall|e: Entry| #[trigger]
        browsed(b, key, home).entries.contains(e) <==> b.all.contains(e) && (b.show_all || e.is_dir
            || e.is_media) && has(lowercased(e.name), lowercased(b.filter.push(c))) by {
        law_the_filter_keeps_what_matches(b.all, b.show_all, lowercased(b.filter.push(c)), e);
    }
}

/// A path that begins with a tilde lies in the home directory; any other is
/// taken as it is.
pub proof fn law_tildes_stand_for_home(rest: Seq<char>, home: Seq<char>)
    ensures
        untilded(seq!['~'] + rest, Some(home)) == home + rest,
        untilded(seq!['~'] + rest, None) == seq!['~'] + rest,
        rest.len() == 0 || rest[0] != '~' ==> untilded(rest, Some(home)) == rest,
{
    assert((seq!['~'] + rest).skip(1) =~= rest);
}

/// A media file is told by what stands behind the last dot of its name, in
/// either case of letters, and by nothing in front of it.
pub proof fn law_media_is_told_by_extension(a: Seq<char>, b: Seq<char>, ext: Seq<char>)
    requires
        !ext.contains('.'),
    ensures
        media_name(a + seq!['.'] + ext) == media_name(b + seq!['.'] + lowered(ext)),
        !media_name(ext),
{
    let s = a + seq!['.'] + ext;
    let t = b + seq!['.'] + lowered(ext);
    assert forall|j: int| 0 <= j < ext.len() implies ext[j] != '.' && lowered(ext)[j] != '.' by {
        assert(ext.contains(ext[j]));
        assert(lowered(ext)[j] == lower(ext[j]));
    }
    lemma_rfind(ext, '.', -1);
    assert forall|j: int| a.len() < j < s.len() implies s[j] != '.' by {
        assert(s[j] == ext[j - a.len() - 1]);
    }
    lemma_rfind(s, '.', a.len() as int);
    assert forall|j: int| b.len() < j < t.len() implies t[j] != '.' by {
        assert(t[j] == lowered(ext)[j - b.len() - 1]);
    }
    lemma_rfind(t, '.', b.len() as int);
    assert(s.skip((a.len() + 1) as int) =~= ext);
    assert(t.skip((b.len() + 1) as int) =~= lowered(ext));
    assert(lowered(lowered(ext)) =~= lowered(ext)) by {
        assert forall|j: int| 0 <= j < ext.len() implies lower(lower(#[trigger] ext[j])) == lower(
            ext[j],
        ) by {}
    }
}

/// A directory that was read is shown sorted and filtered, and one that was not
/// shows nothing but the error.
pub proof fn law_listings_are_shown(b: Browser, all: Seq<Entry>, error: Seq<char>, e: Entry)
    ensures
        b.listed(Ok(all)).all == sorted_entries(all),
        b.listed(Ok(all)).last_error is None,
        b.listed(Ok(all)).entries.contains(e) <==> sorted_entries(all).contains(e) && (b.show_all
            || e.is_dir || e.is_media) && has(lowercased(e.name), lowercased(b.filter)),
        b.listed(Ok(all)).cwd == b.cwd,
        b.listed(Err(error)).entries.len() == 0,
        b.listed(Err(error)).last_error == Some(error),
        b.listed(Ok(all)).cursor == 0 || b.listed(Ok(all)).cursor < b.listed(Ok(all)).entries.len(),
        0 <= b.cursor < b.listed(Ok(all)).entries.len() ==> b.listed(Ok(all)).cursor == b.cursor,
{
    law_the_filter_keeps_what_matches(sorted_entries(all), b.show_all, lowercased(b.filter), e);
}

/// A row shows the entry's own name, a mark exactly where it is marked, and a
/// slash exactly behind a directory.
pub proof fn law_rows_show_marks_and_slashes(e: Entry, marked: bool)
    requires
        e.name.len() > 0,
    ensures
        has(row_text(e, marked), e.name),
        row_text(e, marked)[0] == '●' <==> marked,
        e.name.last() != '/' ==> (row_text(e, marked).last() == '/' <==> e.is_dir),
{
    let front = if marked {
        "● "@
    } else {
        "  "@
    };
    let back = if e.is_dir {
        "/"@
    } else {
        Seq::empty()
    };
    let row = row_text(e, marked);
    assert(row == front + e.name + back);
    assert(has(row, e.name)) by {
        lemma_has_itself(e.name);
        lemma_has_inside(front, e.name, back, e.name);
    }
    assert(front.len() == 2 && (front[0] == '●' <==> marked)) by {
        reveal_strlit("● ");
        reveal_strlit("  ");
    }
    assert(row[0] == front[0]);
    if e.is_dir {
        assert(back.len() == 1 && back[0] == '/') by {
            reveal_strlit("/");
        }
        assert(row.last() == back[0]);
    } else {
        assert(row =~= front + e.name);
        assert(row.last() == e.name.last());
    }
}

} // verus!
