//! The attachments gallery's rules: file kinds from names, what a search
//! matches, how items sort and which are shown, and the labels around them.

use vstd::prelude::*;
use crate::list::is_text;
use crate::model::GalleryItem;
use crate::mutf7::{mutf7_decoded, decode_mutf7};
use crate::order::{compare_int, compare_text, compare_text_exec, lemma_compare_text, then};
use crate::sorting::{sort_positions, stable_sort_of, Ranking};
use crate::text::{
    chars_of, contains, contains_exec, decimal, decimal_usize, eq_ci, eq_ci_chars, lower, lower_chars,
    push_all, push_str, rfind_char, rfind_char_exec, slice_of, split_ws, string_of, trim, trim_chars,
    views, words, ends_with, ends_with_chars, join, join_exec, is_alphanumeric, unicode_alnum,
};

verus! {

// ---------------------------------------------------------------------------
// File kinds
// ---------------------------------------------------------------------------

/// What a file is, by its extension.
#[derive(Debug, Clone, Copy, PartialEq, Eq, Structural)]
pub enum FileKind {
    Pdf,
    Word,
    Text,
    Sheet,
    Slides,
    Archive,
    Audio,
    Video,
    Image,
    Calendar,
    Other,
}

pub proof fn lemma_rfind_char(s: Seq<char>, c: char, to: int)
    requires
        0 <= to <= s.len(),
    ensures
        match rfind_char(s, c, to) {
            Some(i) => 0 <= i < to && s[i] == c,
            None => true,
        },
    decreases to,
{
    if to > 0 && s[to - 1] != c {
        lemma_rfind_char(s, c, to - 1);
    }
}

/// The lower-cased extension of a file name: what follows its last dot, and
/// empty when it has none.
pub open spec fn ext(name: Seq<char>) -> Seq<char> {
    match rfind_char(name, '.', name.len() as int) {
        Some(i) => lower(name.subrange(i + 1, name.len() as int)),
        None => Seq::empty(),
    }
}

pub fn ext_of(name: &str) -> (r: String)
    ensures
        r@ == ext(name@),
{
    let v = chars_of(name);
    let e = ext_chars(&v);
    string_of(&e)
}

fn ext_chars(v: &Vec<char>) -> (r: Vec<char>)
    ensures
        r@ == ext(v@),
{
    proof {
        lemma_rfind_char(v@, '.', v@.len() as int);
    }
    match rfind_char_exec(v, '.') {
        Some(i) => {
            assert(i < v.len());
            let tail = slice_of(v, i + 1, v.len());
            lower_chars(&tail)
        },
        None => Vec::new(),
    }
}

pub open spec fn kind_of_ext(e: Seq<char>) -> FileKind {
    if e == "pdf"@ {
        FileKind::Pdf
    } else if e == "doc"@ || e == "docx"@ || e == "odt"@ || e == "rtf"@ {
        FileKind::Word
    } else if e == "txt"@ || e == "md"@ {
        FileKind::Text
    } else if e == "xls"@ || e == "xlsx"@ || e == "ods"@ || e == "csv"@ {
        FileKind::Sheet
    } else if e == "ppt"@ || e == "pptx"@ || e == "odp"@ {
        FileKind::Slides
    } else if e == "zip"@ || e == "gz"@ || e == "tar"@ || e == "7z"@ || e == "rar"@ || e == "xz"@ || e == "bz2"@ {
        FileKind::Archive
    } else if e == "mp3"@ || e == "wav"@ || e == "flac"@ || e == "ogg"@ || e == "m4a"@ || e == "aac"@ {
        FileKind::Audio
    } else if e == "mp4"@ || e == "mov"@ || e == "mkv"@ || e == "webm"@ || e == "avi"@ || e == "m4v"@ {
        FileKind::Video
    } else if e == "png"@ || e == "jpg"@ || e == "jpeg"@ || e == "gif"@ || e == "webp"@ || e == "bmp"@ || e == "heic"@ || e == "heif"@ || e == "avif"@ || e == "ico"@ {
        FileKind::Image
    } else if e == "ics"@ {
        FileKind::Calendar
    } else {
        FileKind::Other
    }
}

fn kind_of_ext_exec(e: &Vec<char>) -> (r: FileKind)
    ensures
        r == kind_of_ext(e@),
{
    if is_text(e, "pdf") {
        FileKind::Pdf
    } else if is_text(e, "doc") || is_text(e, "docx") || is_text(e, "odt") || is_text(e, "rtf") {
        FileKind::Word
    } else if is_text(e, "txt") || is_text(e, "md") {
        FileKind::Text
    } else if is_text(e, "xls") || is_text(e, "xlsx") || is_text(e, "ods") || is_text(e, "csv") {
        FileKind::Sheet
    } else if is_text(e, "ppt") || is_text(e, "pptx") || is_text(e, "odp") {
        FileKind::Slides
    } else if is_text(e, "zip") || is_text(e, "gz") || is_text(e, "tar") || is_text(e, "7z") || is_text(e, "rar") || is_text(e, "xz") || is_text(e, "bz2") {
        FileKind::Archive
    } else if is_text(e, "mp3") || is_text(e, "wav") || is_text(e, "flac") || is_text(e, "ogg") || is_text(e, "m4a") || is_text(e, "aac") {
        FileKind::Audio
    } else if is_text(e, "mp4") || is_text(e, "mov") || is_text(e, "mkv") || is_text(e, "webm") || is_text(e, "avi") || is_text(e, "m4v") {
        FileKind::Video
    } else if is_text(e, "png") || is_text(e, "jpg") || is_text(e, "jpeg") || is_text(e, "gif") || is_text(e, "webp") || is_text(e, "bmp") || is_text(e, "heic") || is_text(e, "heif") || is_text(e, "avif") || is_text(e, "ico") {
        FileKind::Image
    } else if is_text(e, "ics") {
        FileKind::Calendar
    } else {
        FileKind::Other
    }
}

pub fn file_kind(name: &str) -> (r: FileKind)
    ensures
        r == kind_of_ext(ext(name@)),
{
    let v = chars_of(name);
    let e = ext_chars(&v);
    kind_of_ext_exec(&e)
}

/// Searchable category words for a file, so a query like "image" or
/// "spreadsheet" matches even when the word is not in the name.
pub open spec fn keywords(k: FileKind) -> Seq<char> {
    match k {
        FileKind::Pdf => "pdf document"@,
        FileKind::Word => "word document"@,
        FileKind::Sheet => "excel spreadsheet"@,
        FileKind::Slides => "powerpoint presentation slides"@,
        FileKind::Archive => "archive compressed"@,
        FileKind::Audio => "audio music sound"@,
        FileKind::Video => "video movie"@,
        FileKind::Image => "image photo picture"@,
        FileKind::Calendar => "calendar event"@,
        FileKind::Text => "text document"@,
        FileKind::Other => "file"@,
    }
}

pub fn type_keywords(name: &str) -> (r: &'static str)
    ensures
        r@ == keywords(kind_of_ext(ext(name@))),
{
    match file_kind(name) {
        FileKind::Pdf => "pdf document",
        FileKind::Word => "word document",
        FileKind::Sheet => "excel spreadsheet",
        FileKind::Slides => "powerpoint presentation slides",
        FileKind::Archive => "archive compressed",
        FileKind::Audio => "audio music sound",
        FileKind::Video => "video movie",
        FileKind::Image => "image photo picture",
        FileKind::Calendar => "calendar event",
        FileKind::Text => "text document",
        FileKind::Other => "file",
    }
}

/// The footer type dropdown's row for a file: 1 images, 2 PDFs, 3
/// documents, 4 archives, 5 audio and video, 6 anything else (row 0 is
/// "All types").
pub open spec fn bucket(k: FileKind) -> u32 {
    match k {
        FileKind::Image => 1,
        FileKind::Pdf => 2,
        FileKind::Word | FileKind::Text | FileKind::Sheet | FileKind::Slides | FileKind::Calendar => 3,
        FileKind::Archive => 4,
        FileKind::Audio | FileKind::Video => 5,
        FileKind::Other => 6,
    }
}

pub fn type_bucket(name: &str) -> (r: u32)
    ensures
        r == bucket(kind_of_ext(ext(name@))),
{
    match file_kind(name) {
        FileKind::Image => 1,
        FileKind::Pdf => 2,
        FileKind::Word | FileKind::Text | FileKind::Sheet | FileKind::Slides | FileKind::Calendar => 3,
        FileKind::Archive => 4,
        FileKind::Audio | FileKind::Video => 5,
        FileKind::Other => 6,
    }
}

/// The type icon for a file.
pub open spec fn icon(k: FileKind) -> Seq<char> {
    match k {
        FileKind::Pdf | FileKind::Word | FileKind::Text => "co.hyprlab.Vireo-x-office-document-symbolic"@,
        FileKind::Sheet => "co.hyprlab.Vireo-x-office-spreadsheet-symbolic"@,
        FileKind::Slides => "co.hyprlab.Vireo-x-office-presentation-symbolic"@,
        FileKind::Archive => "co.hyprlab.Vireo-package-x-generic-symbolic"@,
        FileKind::Audio => "co.hyprlab.Vireo-audio-x-generic-symbolic"@,
        FileKind::Video => "co.hyprlab.Vireo-video-x-generic-symbolic"@,
        FileKind::Image => "co.hyprlab.Vireo-image-x-generic-symbolic"@,
        FileKind::Calendar => "co.hyprlab.Vireo-x-office-calendar-symbolic"@,
        FileKind::Other => "co.hyprlab.Vireo-text-x-generic-symbolic"@,
    }
}

pub fn icon_for(name: &str) -> (r: &'static str)
    ensures
        r@ == icon(kind_of_ext(ext(name@))),
{
    match file_kind(name) {
        FileKind::Pdf | FileKind::Word | FileKind::Text => "co.hyprlab.Vireo-x-office-document-symbolic",
        FileKind::Sheet => "co.hyprlab.Vireo-x-office-spreadsheet-symbolic",
        FileKind::Slides => "co.hyprlab.Vireo-x-office-presentation-symbolic",
        FileKind::Archive => "co.hyprlab.Vireo-package-x-generic-symbolic",
        FileKind::Audio => "co.hyprlab.Vireo-audio-x-generic-symbolic",
        FileKind::Video => "co.hyprlab.Vireo-video-x-generic-symbolic",
        FileKind::Image => "co.hyprlab.Vireo-image-x-generic-symbolic",
        FileKind::Calendar => "co.hyprlab.Vireo-x-office-calendar-symbolic",
        FileKind::Other => "co.hyprlab.Vireo-text-x-generic-symbolic",
    }
}

/// The class that tints a type icon by kind: PDFs red, Word documents blue,
/// spreadsheets green and so on; plain text and the unknown stay generic.
pub open spec fn color_class(k: FileKind) -> Seq<char> {
    match k {
        FileKind::Pdf => "ftype-pdf"@,
        FileKind::Word => "ftype-doc"@,
        FileKind::Sheet => "ftype-sheet"@,
        FileKind::Slides => "ftype-slides"@,
        FileKind::Archive => "ftype-archive"@,
        FileKind::Audio => "ftype-audio"@,
        FileKind::Video => "ftype-video"@,
        FileKind::Image => "ftype-image"@,
        FileKind::Calendar => "ftype-calendar"@,
        FileKind::Text | FileKind::Other => "ftype-generic"@,
    }
}

pub fn icon_color_class(name: &str) -> (r: &'static str)
    ensures
        r@ == color_class(kind_of_ext(ext(name@))),
{
    match file_kind(name) {
        FileKind::Pdf => "ftype-pdf",
        FileKind::Word => "ftype-doc",
        FileKind::Sheet => "ftype-sheet",
        FileKind::Slides => "ftype-slides",
        FileKind::Archive => "ftype-archive",
        FileKind::Audio => "ftype-audio",
        FileKind::Video => "ftype-video",
        FileKind::Image => "ftype-image",
        FileKind::Calendar => "ftype-calendar",
        FileKind::Text | FileKind::Other => "ftype-generic",
    }
}

/// Whether a file name names a PDF, by extension.
pub fn is_pdf_name(name: &str) -> (r: bool)
    ensures
        r == ends_with(lower(name@), ".pdf"@),
{
    let v = chars_of(name);
    let l = lower_chars(&v);
    let p = chars_of(".pdf");
    ends_with_chars(&l, &p)
}

/// Whether a file's bytes can be shown as an image, by extension.
pub fn is_image_name(name: &str) -> (r: bool)
    ensures
        r == (kind_of_ext(ext(name@)) == FileKind::Image),
{
    match file_kind(name) {
        FileKind::Image => true,
        _ => false,
    }
}

// ---------------------------------------------------------------------------
// Folders, search text and captions
// ---------------------------------------------------------------------------

/// The last position of `/` or `.` in `s[..to]`.
pub open spec fn last_separator(s: Seq<char>, to: int) -> Option<int>
    decreases to,
{
    if to <= 0 || to > s.len() {
        None
    } else if s[to - 1] == '/' || s[to - 1] == '.' {
        Some(to - 1)
    } else {
        last_separator(s, to - 1)
    }
}

/// A mailbox path's last segment.
pub open spec fn last_segment(path: Seq<char>) -> Seq<char> {
    match last_separator(path, path.len() as int) {
        Some(i) => path.subrange(i + 1, path.len() as int),
        None => path,
    }
}

/// A friendly folder name from a mailbox path: its last segment, `Inbox`
/// for the inbox whatever its case, else decoded from modified UTF-7, as
/// servers name folders.
pub open spec fn folder_name(path: Seq<char>) -> Seq<char> {
    let name = last_segment(path);
    if eq_ci(name, "inbox"@) {
        "Inbox"@
    } else {
        mutf7_decoded(name)
    }
}

fn last_segment_exec(path: &Vec<char>) -> (r: Vec<char>)
    ensures
        r@ == last_segment(path@),
{
    let mut to: usize = path.len();
    while to > 0
        invariant
            to <= path.len(),
            last_separator(path@, path@.len() as int) == last_separator(path@, to as int),
        decreases to,
    {
        if path[to - 1] == '/' || path[to - 1] == '.' {
            return slice_of(path, to, path.len());
        }
        to -= 1;
    }
    assert(path@.subrange(0, path@.len() as int) =~= path@);
    slice_of(path, 0, path.len())
}

pub fn folder_label(path: &str) -> (r: String)
    ensures
        r@ == folder_name(path@),
{
    let p = chars_of(path);
    let name = last_segment_exec(&p);
    let inbox = chars_of("inbox");
    if eq_ci_chars(&name, &inbox) {
        let s = chars_of("Inbox");
        string_of(&s)
    } else {
        let d = decode_mutf7(&name);
        string_of(&d)
    }
}

/// What a search query is matched against: file name, sender, subject,
/// folder and type words, lower-cased.
pub open spec fn haystack(item: GalleryItem) -> Seq<char> {
    lower(
        item.name@ + " "@ + item.from_name@ + " "@ + item.subject@ + " "@ + folder_name(item.folder_path@) + " "@
            + keywords(kind_of_ext(ext(item.name@))),
    )
}

fn haystack_chars(item: &GalleryItem) -> (r: Vec<char>)
    ensures
        r@ == haystack(*item),
{
    let mut out: Vec<char> = Vec::new();
    push_str(&mut out, item.name.as_str());
    push_str(&mut out, " ");
    push_str(&mut out, item.from_name.as_str());
    push_str(&mut out, " ");
    push_str(&mut out, item.subject.as_str());
    push_str(&mut out, " ");
    let f = folder_label(item.folder_path.as_str());
    push_str(&mut out, f.as_str());
    push_str(&mut out, " ");
    push_str(&mut out, type_keywords(item.name.as_str()));
    lower_chars(&out)
}

pub fn item_haystack(item: &GalleryItem) -> (r: String)
    ensures
        r@ == haystack(*item),
{
    let h = haystack_chars(item);
    string_of(&h)
}

/// A grid cell's caption: sender (or "Unknown"), subject when there is one,
/// folder, date when known, and size, separated by middle dots.
pub open spec fn caption_text(item: GalleryItem, date: Seq<char>, size: Seq<char>) -> Seq<char> {
    let who = if trim(item.from_name@).len() == 0 {
        "Unknown"@
    } else {
        trim(item.from_name@)
    };
    let subject = trim(item.subject@);
    let parts = seq![who] + (if subject.len() > 0 {
        seq![subject]
    } else {
        seq![]
    }) + seq![folder_name(item.folder_path@)] + (if date.len() > 0 {
        seq![date]
    } else {
        seq![]
    }) + seq![size];
    join(parts, " · "@)
}

/// The caption, given the item's date label and human-readable size.
pub fn caption(item: &GalleryItem, date: &str, size: &str) -> (r: String)
    ensures
        r@ == caption_text(*item, date@, size@),
{
    let mut parts: Vec<Vec<char>> = Vec::new();
    let f = chars_of(item.from_name.as_str());
    let who = trim_chars(&f);
    if who.len() == 0 {
        parts.push(chars_of("Unknown"));
    } else {
        parts.push(who);
    }
    let s = chars_of(item.subject.as_str());
    let subject = trim_chars(&s);
    if subject.len() > 0 {
        parts.push(subject);
    }
    let folder = folder_label(item.folder_path.as_str());
    parts.push(chars_of(folder.as_str()));
    let d = chars_of(date);
    if d.len() > 0 {
        parts.push(d);
    }
    parts.push(chars_of(size));
    let ghost want = {
        let who_s = if trim(item.from_name@).len() == 0 {
            "Unknown"@
        } else {
            trim(item.from_name@)
        };
        let subject_s = trim(item.subject@);
        seq![who_s] + (if subject_s.len() > 0 {
            seq![subject_s]
        } else {
            seq![]
        }) + seq![folder_name(item.folder_path@)] + (if date@.len() > 0 {
            seq![date@]
        } else {
            seq![]
        }) + seq![size@]
    };
    assert(views(parts@) =~= want);
    let j = join_exec(&parts, " · ");
    string_of(&j)
}

/// A grid cell's meta line beneath its name and subject: folder, date when
/// known, and size, separated by middle dots.
pub open spec fn cell_meta_text(item: GalleryItem, date: Seq<char>, size: Seq<char>) -> Seq<char> {
    join(
        seq![folder_name(item.folder_path@)] + (if date.len() > 0 {
            seq![date]
        } else {
            seq![]
        }) + seq![size],
        " · "@,
    )
}

/// The meta line, given the item's date label and human-readable size.
pub fn cell_meta(item: &GalleryItem, date: &str, size: &str) -> (r: String)
    ensures
        r@ == cell_meta_text(*item, date@, size@),
{
    let mut parts: Vec<Vec<char>> = Vec::new();
    let folder = folder_label(item.folder_path.as_str());
    parts.push(chars_of(folder.as_str()));
    let d = chars_of(date);
    if d.len() > 0 {
        parts.push(d);
    }
    parts.push(chars_of(size));
    let ghost want = seq![folder_name(item.folder_path@)] + (if date@.len() > 0 {
        seq![date@]
    } else {
        seq![]
    }) + seq![size@];
    assert(views(parts@) =~= want);
    let j = join_exec(&parts, " · ");
    string_of(&j)
}

/// A grid cell's tooltip: the file's name and its size.
pub fn cell_tooltip(name: &str, size: &str) -> (r: String)
    ensures
        r@ == name@ + " — "@ + size@,
{
    let mut out = chars_of(name);
    push_str(&mut out, " — ");
    push_str(&mut out, size);
    string_of(&out)
}

/// A column header's label, with the sort arrow when it is the active
/// column (`asc` and `desc` are that column's two orders).
pub open spec fn header_text(label: Seq<char>, current: SortBy, asc: SortBy, desc: SortBy) -> Seq<char> {
    if current == asc {
        label + " \u{2191}"@
    } else if current == desc {
        label + " \u{2193}"@
    } else {
        label
    }
}

pub fn column_header(label: &str, current: SortBy, asc: SortBy, desc: SortBy) -> (r: String)
    ensures
        r@ == header_text(label@, current, asc, desc),
{
    let mut out = chars_of(label);
    if current == asc {
        push_str(&mut out, " \u{2191}");
    } else if current == desc {
        push_str(&mut out, " \u{2193}");
    }
    string_of(&out)
}

/// The footer's count: "N attachments" when everything is shown, else
/// "N of M".
pub open spec fn count_words(shown: usize, total: usize) -> Seq<char> {
    if shown == total {
        decimal(total as nat) + " attachment"@ + (if total == 1 {
            seq![]
        } else {
            "s"@
        })
    } else {
        decimal(shown as nat) + " of "@ + decimal(total as nat)
    }
}

pub fn count_text(shown: usize, total: usize) -> (r: String)
    ensures
        r@ == count_words(shown, total),
{
    let mut out: Vec<char> = Vec::new();
    if shown == total {
        let t = decimal_usize(total);
        push_all(&mut out, &t);
        push_str(&mut out, " attachment");
        if total != 1 {
            push_str(&mut out, "s");
        }
        proof {
            reveal_strlit("");
        }
    } else {
        let s = decimal_usize(shown);
        push_all(&mut out, &s);
        push_str(&mut out, " of ");
        let t = decimal_usize(total);
        push_all(&mut out, &t);
    }
    string_of(&out)
}

// ---------------------------------------------------------------------------
// Sorting
// ---------------------------------------------------------------------------

/// How the gallery is ordered; the order of the variants is the sort
/// dropdown's rows.
#[derive(Debug, Clone, Copy, PartialEq, Eq, Structural)]
pub enum SortBy {
    Newest,
    Oldest,
    Name,
    NameDesc,
    Sender,
    SenderDesc,
    Largest,
    Smallest,
    Type,
    TypeDesc,
}

pub open spec fn sort_of_index(i: u32) -> SortBy {
    if i == 1 {
        SortBy::Oldest
    } else if i == 2 {
        SortBy::Name
    } else if i == 3 {
        SortBy::NameDesc
    } else if i == 4 {
        SortBy::Sender
    } else if i == 5 {
        SortBy::SenderDesc
    } else if i == 6 {
        SortBy::Largest
    } else if i == 7 {
        SortBy::Smallest
    } else if i == 8 {
        SortBy::Type
    } else if i == 9 {
        SortBy::TypeDesc
    } else {
        SortBy::Newest
    }
}

pub open spec fn index_of_sort(s: SortBy) -> u32 {
    match s {
        SortBy::Newest => 0,
        SortBy::Oldest => 1,
        SortBy::Name => 2,
        SortBy::NameDesc => 3,
        SortBy::Sender => 4,
        SortBy::SenderDesc => 5,
        SortBy::Largest => 6,
        SortBy::Smallest => 7,
        SortBy::Type => 8,
        SortBy::TypeDesc => 9,
    }
}

impl SortBy {
    /// The criterion the sort dropdown's row names; unknown rows are newest
    /// first.
    pub fn from_index(i: u32) -> (r: SortBy)
        ensures
            r == sort_of_index(i),
    {
        if i == 1 {
            SortBy::Oldest
        } else if i == 2 {
            SortBy::Name
        } else if i == 3 {
            SortBy::NameDesc
        } else if i == 4 {
            SortBy::Sender
        } else if i == 5 {
            SortBy::SenderDesc
        } else if i == 6 {
            SortBy::Largest
        } else if i == 7 {
            SortBy::Smallest
        } else if i == 8 {
            SortBy::Type
        } else if i == 9 {
            SortBy::TypeDesc
        } else {
            SortBy::Newest
        }
    }

    /// The dropdown row for a criterion.
    pub fn index(self) -> (r: u32)
        ensures
            r == index_of_sort(self),
    {
        match self {
            SortBy::Newest => 0,
            SortBy::Oldest => 1,
            SortBy::Name => 2,
            SortBy::NameDesc => 3,
            SortBy::Sender => 4,
            SortBy::SenderDesc => 5,
            SortBy::Largest => 6,
            SortBy::Smallest => 7,
            SortBy::Type => 8,
            SortBy::TypeDesc => 9,
        }
    }
}

/// The dropdown's rows and the criteria are one-to-one: a criterion's row
/// names it again, and each of the ten rows names the criterion whose row it
/// is.
pub proof fn law_sort_index_roundtrip(s: SortBy, i: u32)
    ensures
        sort_of_index(index_of_sort(s)) == s,
        i < 10 ==> index_of_sort(sort_of_index(i)) == i,
{
}

/// A table header click: sort by that column (0 name, 1 sender, 2 date,
/// 3 size, 4 type) its natural way, or flip it when it is already active.
pub open spec fn column_sort_of(col: u8, current: SortBy) -> SortBy {
    if col == 0 {
        if current == SortBy::Name {
            SortBy::NameDesc
        } else {
            SortBy::Name
        }
    } else if col == 1 {
        if current == SortBy::Sender {
            SortBy::SenderDesc
        } else {
            SortBy::Sender
        }
    } else if col == 2 {
        if current == SortBy::Newest {
            SortBy::Oldest
        } else {
            SortBy::Newest
        }
    } else if col == 3 {
        if current == SortBy::Largest {
            SortBy::Smallest
        } else {
            SortBy::Largest
        }
    } else if col == 4 {
        if current == SortBy::Type {
            SortBy::TypeDesc
        } else {
            SortBy::Type
        }
    } else {
        SortBy::Type
    }
}

pub fn column_sort(col: u8, current: SortBy) -> (r: SortBy)
    ensures
        r == column_sort_of(col, current),
{
    if col == 0 {
        if current == SortBy::Name {
            SortBy::NameDesc
        } else {
            SortBy::Name
        }
    } else if col == 1 {
        if current == SortBy::Sender {
            SortBy::SenderDesc
        } else {
            SortBy::Sender
        }
    } else if col == 2 {
        if current == SortBy::Newest {
            SortBy::Oldest
        } else {
            SortBy::Newest
        }
    } else if col == 3 {
        if current == SortBy::Largest {
            SortBy::Smallest
        } else {
            SortBy::Largest
        }
    } else if col == 4 {
        if current == SortBy::Type {
            SortBy::TypeDesc
        } else {
            SortBy::Type
        }
    } else {
        SortBy::Type
    }
}

/// Two items under a criterion: negative when `a` comes first. Names and
/// senders compare lower-cased; type is extension, then name.
pub open spec fn item_compare(sort: SortBy, a: GalleryItem, b: GalleryItem) -> int {
    let by_type = then(compare_text(ext(a.name@), ext(b.name@)), compare_text(lower(a.name@), lower(b.name@)));
    let by_type_rev = then(compare_text(ext(b.name@), ext(a.name@)), compare_text(lower(b.name@), lower(a.name@)));
    match sort {
        SortBy::Newest => compare_int(b.timestamp as int, a.timestamp as int),
        SortBy::Oldest => compare_int(a.timestamp as int, b.timestamp as int),
        SortBy::Largest => compare_int(b.size as int, a.size as int),
        SortBy::Smallest => compare_int(a.size as int, b.size as int),
        SortBy::Name => compare_text(lower(a.name@), lower(b.name@)),
        SortBy::NameDesc => compare_text(lower(b.name@), lower(a.name@)),
        SortBy::Sender => compare_text(lower(a.from_name@), lower(b.from_name@)),
        SortBy::SenderDesc => compare_text(lower(b.from_name@), lower(a.from_name@)),
        SortBy::Type => by_type,
        SortBy::TypeDesc => by_type_rev,
    }
}

/// One item's sort fields, computed once.
pub struct ItemKey {
    pub timestamp: i64,
    pub size: u64,
    pub name: Vec<char>,
    pub sender: Vec<char>,
    pub ext: Vec<char>,
}

pub open spec fn item_key_ok(k: ItemKey, item: GalleryItem) -> bool {
    &&& k.timestamp == item.timestamp
    &&& k.size == item.size
    &&& k.name@ == lower(item.name@)
    &&& k.sender@ == lower(item.from_name@)
    &&& k.ext@ == ext(item.name@)
}

fn item_key(item: &GalleryItem) -> (r: ItemKey)
    ensures
        item_key_ok(r, *item),
{
    let n = chars_of(item.name.as_str());
    let s = chars_of(item.from_name.as_str());
    ItemKey {
        timestamp: item.timestamp,
        size: item.size,
        name: lower_chars(&n),
        sender: lower_chars(&s),
        ext: ext_chars(&n),
    }
}

/// The gallery's ranking of its items under one criterion.
pub struct GalleryRanking<'a> {
    pub items: &'a [GalleryItem],
    pub keys: Vec<ItemKey>,
    pub sort: SortBy,
}

pub open spec fn ranking_ok(r: &GalleryRanking) -> bool {
    &&& r.keys@.len() == r.items@.len()
    &&& forall|i: int| 0 <= i < r.items@.len() ==> item_key_ok(#[trigger] r.keys@[i], r.items@[i])
}

impl<'a> Ranking for GalleryRanking<'a> {
    open spec fn len_spec(&self) -> nat {
        if ranking_ok(self) {
            self.items@.len()
        } else {
            0
        }
    }

    open spec fn rank(&self, a: usize, b: usize) -> int {
        item_compare(self.sort, self.items@[a as int], self.items@[b as int])
    }

    proof fn lemma_total(&self, a: usize, b: usize, c: usize) {
        let x = self.items@[a as int];
        let y = self.items@[b as int];
        let z = self.items@[c as int];
        lemma_compare_text(lower(x.name@), lower(y.name@), lower(z.name@));
        lemma_compare_text(lower(y.name@), lower(x.name@), lower(z.name@));
        lemma_compare_text(lower(z.name@), lower(y.name@), lower(x.name@));
        lemma_compare_text(lower(x.from_name@), lower(y.from_name@), lower(z.from_name@));
        lemma_compare_text(lower(z.from_name@), lower(y.from_name@), lower(x.from_name@));
        lemma_compare_text(ext(x.name@), ext(y.name@), ext(z.name@));
        lemma_compare_text(ext(z.name@), ext(y.name@), ext(x.name@));
        lemma_compare_text(lower(x.name@), lower(z.name@), lower(y.name@));
        lemma_compare_text(ext(x.name@), ext(z.name@), ext(y.name@));
        lemma_compare_text(lower(y.name@), lower(z.name@), lower(x.name@));
        lemma_compare_text(ext(y.name@), ext(z.name@), ext(x.name@));
        lemma_compare_text(lower(y.from_name@), lower(x.from_name@), lower(z.from_name@));
        lemma_compare_text(ext(y.name@), ext(x.name@), ext(z.name@));
        lemma_compare_text(lower(z.name@), lower(x.name@), lower(y.name@));
        lemma_compare_text(ext(z.name@), ext(x.name@), ext(y.name@));
    }

    fn compare_at(&self, a: usize, b: usize) -> (r: i8) {
        let x = &self.keys[a];
        let y = &self.keys[b];
        match self.sort {
            SortBy::Newest => if y.timestamp < x.timestamp {
                -1
            } else if y.timestamp > x.timestamp {
                1
            } else {
                0
            },
            SortBy::Oldest => if x.timestamp < y.timestamp {
                -1
            } else if x.timestamp > y.timestamp {
                1
            } else {
                0
            },
            SortBy::Largest => if y.size < x.size {
                -1
            } else if y.size > x.size {
                1
            } else {
                0
            },
            SortBy::Smallest => if x.size < y.size {
                -1
            } else if x.size > y.size {
                1
            } else {
                0
            },
            SortBy::Name => compare_text_exec(&x.name, &y.name),
            SortBy::NameDesc => compare_text_exec(&y.name, &x.name),
            SortBy::Sender => compare_text_exec(&x.sender, &y.sender),
            SortBy::SenderDesc => compare_text_exec(&y.sender, &x.sender),
            SortBy::Type => {
                let e = compare_text_exec(&x.ext, &y.ext);
                if e != 0 {
                    e
                } else {
                    compare_text_exec(&x.name, &y.name)
                }
            },
            SortBy::TypeDesc => {
                let e = compare_text_exec(&y.ext, &x.ext);
                if e != 0 {
                    e
                } else {
                    compare_text_exec(&y.name, &x.name)
                }
            },
        }
    }
}

/// `after` is `before` stably sorted by the criterion.
pub open spec fn items_sorted(items: Seq<GalleryItem>, sort: SortBy, before: Seq<usize>, after: Seq<usize>) -> bool {
    &&& crate::sorting::same_positions(before, after)
    &&& forall|i: int, j: int|
        0 <= i < j < after.len() ==> item_compare(sort, items[#[trigger] after[i] as int], items[#[trigger] after[j] as int])
            <= 0
    &&& forall|i: int, j: int|
        0 <= i < j < after.len() && item_compare(
            sort,
            items[#[trigger] after[i] as int],
            items[#[trigger] after[j] as int],
        ) == 0 ==> before.index_of(after[i]) < before.index_of(after[j])
}

/// The ranking of the entries of a list of positions (which may repeat), by
/// the items they point at.
pub struct EntryRanking<'a> {
    pub base: GalleryRanking<'a>,
    pub entries: Vec<usize>,
}

pub open spec fn entries_ok(r: &EntryRanking) -> bool {
    &&& ranking_ok(&r.base)
    &&& forall|i: int| 0 <= i < r.entries@.len() ==> #[trigger] r.entries@[i] < r.base.items@.len()
}

impl<'a> Ranking for EntryRanking<'a> {
    open spec fn len_spec(&self) -> nat {
        if entries_ok(self) {
            self.entries@.len()
        } else {
            0
        }
    }

    open spec fn rank(&self, a: usize, b: usize) -> int {
        self.base.rank(self.entries@[a as int], self.entries@[b as int])
    }

    proof fn lemma_total(&self, a: usize, b: usize, c: usize) {
        self.base.lemma_total(self.entries@[a as int], self.entries@[b as int], self.entries@[c as int]);
    }

    fn compare_at(&self, a: usize, b: usize) -> (r: i8) {
        self.base.compare_at(self.entries[a], self.entries[b])
    }
}

/// `after` is `before` stably sorted by the criterion, repeats and all: it
/// takes each entry of `before` once (`perm` says from where), in order of
/// the items they point at, ties in their order in `before`.
pub open spec fn stably_sorted_by(
    items: Seq<GalleryItem>,
    sort: SortBy,
    before: Seq<usize>,
    after: Seq<usize>,
    perm: Seq<usize>,
) -> bool {
    &&& crate::sorting::same_positions(Seq::new(before.len(), |i: int| i as usize), perm)
    &&& after.len() == before.len()
    &&& forall|i: int| 0 <= i < after.len() ==> #[trigger] after[i] == before[perm[i] as int]
    &&& forall|i: int, j: int|
        0 <= i < j < after.len() ==> item_compare(sort, items[#[trigger] after[i] as int], items[#[trigger] after[j] as int])
            <= 0
    &&& forall|i: int, j: int|
        0 <= i < j < after.len() && item_compare(
            sort,
            items[#[trigger] after[i] as int],
            items[#[trigger] after[j] as int],
        ) == 0 ==> perm[i] < perm[j]
}

/// Without repeats, a stable sort is a sort of the positions themselves.
proof fn lemma_stably_sorted_distinct(items: Seq<GalleryItem>, sort: SortBy, before: Seq<usize>, after: Seq<usize>, perm: Seq<usize>)
    requires
        stably_sorted_by(items, sort, before, after, perm),
        before.no_duplicates(),
        before.len() <= usize::MAX,
    ensures
        items_sorted(items, sort, before, after),
{
    let range = Seq::new(before.len(), |i: int| i as usize);
    assert forall|i: int| 0 <= i < perm.len() implies #[trigger] perm[i] < before.len() by {
        assert(perm.contains(perm[i]));
        assert(range.contains(perm[i]));
    }
    assert forall|i: int, j: int| 0 <= i < j < after.len() implies #[trigger] after[i] != #[trigger] after[j] by {
        assert(perm[i] != perm[j]);
        assert(perm[i] < before.len() && perm[j] < before.len());
    }
    assert forall|x: usize| after.contains(x) <==> before.contains(x) by {
        if after.contains(x) {
            let i = choose|i: int| 0 <= i < after.len() && after[i] == x;
            assert(perm[i] < before.len());
            assert(before[perm[i] as int] == x);
        }
        if before.contains(x) {
            let k = choose|k: int| 0 <= k < before.len() && before[k] == x;
            assert(range[k] == k as usize);
            assert(range.contains(k as usize));
            assert(perm.contains(k as usize));
            let i = choose|i: int| 0 <= i < perm.len() && perm[i] == k as usize;
            assert(after[i] == before[perm[i] as int]);
            assert(after[i] == x);
        }
    }
    assert forall|i: int| 0 <= i < after.len() implies before.index_of(#[trigger] after[i]) == perm[i] by {
        assert(perm[i] < before.len());
        assert(before[perm[i] as int] == after[i]);
        let k = before.index_of(after[i]);
        assert(0 <= k < before.len() && before[k] == after[i]);
    }
}

/// Orders the display positions (into `all`) by the chosen criterion,
/// keeping the current order among ties; positions may repeat.
pub fn sort_indices(idx: &mut Vec<usize>, all: &[GalleryItem], sort: SortBy)
    requires
        forall|i: int| 0 <= i < old(idx)@.len() ==> #[trigger] old(idx)@[i] < all@.len(),
    ensures
        exists|perm: Seq<usize>| stably_sorted_by(all@, sort, old(idx)@, final(idx)@, perm),
        old(idx)@.no_duplicates() ==> items_sorted(all@, sort, old(idx)@, final(idx)@),
{
    let mut keys: Vec<ItemKey> = Vec::new();
    let mut i: usize = 0;
    while i < all.len()
        invariant
            i <= all.len(),
            keys@.len() == i,
            forall|j: int| 0 <= j < i ==> item_key_ok(#[trigger] keys@[j], all@[j]),
        decreases all.len() - i,
    {
        keys.push(item_key(&all[i]));
        i += 1;
    }
    let base = GalleryRanking { items: all, keys, sort };
    assert(ranking_ok(&base));
    let n = idx.len();
    let mut entries: Vec<usize> = Vec::new();
    let mut perm: Vec<usize> = Vec::new();
    let mut k: usize = 0;
    while k < n
        invariant
            k <= n,
            n == idx@.len(),
            entries@ == idx@.take(k as int),
            perm@ == Seq::new(k as nat, |j: int| j as usize),
        decreases n - k,
    {
        entries.push(idx[k]);
        perm.push(k);
        assert(entries@ =~= idx@.take(k + 1));
        assert(perm@ =~= Seq::new((k + 1) as nat, |j: int| j as usize));
        k += 1;
    }
    assert(idx@.take(n as int) =~= idx@);
    let ctx = EntryRanking { base, entries };
    assert(entries_ok(&ctx));
    let ghost range = perm@;
    assert(range.no_duplicates());
    sort_positions(&mut perm, &ctx);
    let ghost before = idx@;
    let mut out: Vec<usize> = Vec::new();
    let mut j: usize = 0;
    assert forall|x: int| 0 <= x < perm@.len() implies #[trigger] perm@[x] < n by {
        assert(perm@.contains(perm@[x]));
        assert(range.contains(perm@[x]));
    }
    while j < n
        invariant
            j <= n,
            n == perm@.len(),
            before.len() == n,
            ctx.entries@ == before,
            forall|x: int| 0 <= x < perm@.len() ==> #[trigger] perm@[x] < n,
            out@.len() == j,
            forall|x: int| 0 <= x < j ==> #[trigger] out@[x] == before[perm@[x] as int],
        decreases n - j,
    {
        out.push(ctx.entries[perm[j]]);
        j += 1;
    }
    proof {
        let p = perm@;
        let o = out@;
        assert(Seq::new(before.len(), |i: int| i as usize) =~= range);
        assert forall|x: int| 0 <= x < o.len() implies #[trigger] o[x] == before[p[x] as int] by {}
        assert forall|x: int, y: int| 0 <= x < y < o.len() implies item_compare(
            sort,
            all@[#[trigger] o[x] as int],
            all@[#[trigger] o[y] as int],
        ) <= 0 by {
            assert(ctx.rank(p[x], p[y]) <= 0);
        }
        assert forall|q: int| 0 <= q < p.len() implies range.index_of(#[trigger] p[q]) == p[q] as int by {
            assert(range[p[q] as int] == p[q]);
            let z = range.index_of(p[q]);
            assert(0 <= z < range.len() && range[z] == p[q]);
        }
        assert forall|x: int, y: int| 0 <= x < y < o.len() && item_compare(
            sort,
            all@[#[trigger] o[x] as int],
            all@[#[trigger] o[y] as int],
        ) == 0 implies p[x] < p[y] by {
            assert(ctx.rank(p[x], p[y]) == 0);
            assert(range.index_of(p[x]) == p[x] as int);
            assert(range.index_of(p[y]) == p[y] as int);
        }
        assert(stably_sorted_by(all@, sort, before, o, p));
        if before.no_duplicates() {
            lemma_stably_sorted_distinct(all@, sort, before, out@, perm@);
        }
    }
    *idx = out;
}

// ---------------------------------------------------------------------------
// What is shown
// ---------------------------------------------------------------------------

/// An item passes when it is of the chosen bucket (0 is every bucket) and
/// every word of the lower-cased query is in its search text.
pub open spec fn item_passes(item: GalleryItem, tokens: Seq<Seq<char>>, type_filter: u32) -> bool {
    &&& (type_filter == 0 || bucket(kind_of_ext(ext(item.name@))) == type_filter)
    &&& forall|t: int| 0 <= t < tokens.len() ==> contains(haystack(item), #[trigger] tokens[t])
}

/// The positions among the first `n` items that pass, in order.
pub open spec fn passing(items: Seq<GalleryItem>, tokens: Seq<Seq<char>>, type_filter: u32, n: int) -> Seq<usize>
    decreases n,
{
    if n <= 0 {
        seq![]
    } else {
        let r = passing(items, tokens, type_filter, n - 1);
        if item_passes(items[n - 1], tokens, type_filter) {
            r.push((n - 1) as usize)
        } else {
            r
        }
    }
}

proof fn lemma_passing(items: Seq<GalleryItem>, tokens: Seq<Seq<char>>, type_filter: u32, n: int)
    requires
        0 <= n <= items.len(),
        items.len() <= usize::MAX,
    ensures
        forall|i: int|
            0 <= i < passing(items, tokens, type_filter, n).len() ==> #[trigger] passing(items, tokens, type_filter, n)[i]
                < n,
        forall|i: int, j: int|
            0 <= i < j < passing(items, tokens, type_filter, n).len() ==> #[trigger] passing(
                items,
                tokens,
                type_filter,
                n,
            )[i] < #[trigger] passing(items, tokens, type_filter, n)[j],
        passing(items, tokens, type_filter, n).no_duplicates(),
    decreases n,
{
    if n > 0 {
        lemma_passing(items, tokens, type_filter, n - 1);
    }
}

fn item_passes_exec(item: &GalleryItem, tokens: &Vec<Vec<char>>, type_filter: u32) -> (r: bool)
    ensures
        r == item_passes(*item, views(tokens@), type_filter),
{
    if type_filter != 0 && type_bucket(item.name.as_str()) != type_filter {
        return false;
    }
    if tokens.len() == 0 {
        return true;
    }
    let hay = haystack_chars(item);
    let mut t: usize = 0;
    while t < tokens.len()
        invariant
            t <= tokens.len(),
            hay@ == haystack(*item),
            forall|k: int| 0 <= k < t ==> contains(haystack(*item), #[trigger] views(tokens@)[k]),
        decreases tokens.len() - t,
    {
        if !contains_exec(&hay, &tokens[t]) {
            assert(views(tokens@)[t as int] == tokens@[t as int]@);
            return false;
        }
        assert(views(tokens@)[t as int] == tokens@[t as int]@);
        t += 1;
    }
    true
}

/// The displayed positions (into `all`): the items of the chosen bucket
/// whose search text holds every word of the query, stably sorted by the
/// criterion.
pub fn apply_filter(all: &[GalleryItem], query: &str, type_filter: u32, sort: SortBy) -> (r: Vec<usize>)
    ensures
        items_sorted(
            all@,
            sort,
            passing(all@, words(lower(query@)), type_filter, all@.len() as int),
            r@,
        ),
{
    let q = chars_of(query);
    let lq = lower_chars(&q);
    let tokens = split_ws(&lq);
    let mut out: Vec<usize> = Vec::new();
    let mut i: usize = 0;
    while i < all.len()
        invariant
            i <= all.len(),
            views(tokens@) == words(lower(query@)),
            out@ == passing(all@, words(lower(query@)), type_filter, i as int),
        decreases all.len() - i,
    {
        if item_passes_exec(&all[i], &tokens, type_filter) {
            out.push(i);
        }
        i += 1;
    }
    let n = all.len();
    proof {
        lemma_passing(all@, words(lower(query@)), type_filter, all@.len() as int);
    }
    sort_indices(&mut out, all, sort);
    out
}

/// The lightbox's next item, wrapping around either end.
pub open spec fn stepped(i: int, delta: int, n: int) -> int {
    (i + delta) % n
}

pub fn step(preview: usize, delta: i32, n: usize) -> (r: usize)
    requires
        0 < n <= i32::MAX,
        preview < n,
    ensures
        r == stepped(preview as int, delta as int, n as int),
        r < n,
{
    let nn = n as u64;
    let p = preview as u64;
    if delta >= 0 {
        let d = (delta as u64) % nn;
        let r = (p + d) % nn;
        proof {
            vstd::arithmetic::div_mod::lemma_add_mod_noop_right(p as int, delta as int, n as int);
        }
        r as usize
    } else {
        let neg: u64 = (-(delta as i64)) as u64;
        let d = neg % nn;
        let r = (p + nn - d) % nn;
        proof {
            let q = (neg as int) / (n as int);
            vstd::arithmetic::div_mod::lemma_fundamental_div_mod(neg as int, n as int);
            assert((n as int) * (q + 1) == (n as int) * q + (n as int)) by (nonlinear_arith);
            assert((p + nn - d) as int == (n as int) * (q + 1) + (preview + delta));
            vstd::arithmetic::div_mod::lemma_mod_multiples_vanish(q + 1, preview + delta, n as int);
        }
        r as usize
    }
}

/// Which page of the gallery's stack shows.
pub fn page(loading: bool, total: usize, shown: usize, view_table: bool) -> (r: &'static str)
    ensures
        r@ == (if loading && total == 0 {
            "loading"@
        } else if total == 0 {
            "empty"@
        } else if shown == 0 {
            "noresults"@
        } else if view_table {
            "table"@
        } else {
            "grid"@
        }),
{
    if loading && total == 0 {
        "loading"
    } else if total == 0 {
        "empty"
    } else if shown == 0 {
        "noresults"
    } else if view_table {
        "table"
    } else {
        "grid"
    }
}

/// The item at a display position, through the shown positions.
pub fn item_at(items: &Vec<usize>, total: usize, display: usize) -> (r: Option<usize>)
    ensures
        r == (if display < items@.len() && items@[display as int] < total {
            Some(items@[display as int])
        } else {
            None
        }),
{
    if display < items.len() && items[display] < total {
        Some(items[display])
    } else {
        None
    }
}

/// The grid thumbnail width the size slider asks for, kept between 140 and
/// 380 pixels.
pub fn clamp_thumb_width(w: i32) -> (r: i32)
    ensures
        r == (if w < 140 {
            140
        } else if w > 380 {
            380
        } else {
            w
        }),
{
    if w < 140 {
        140
    } else if w > 380 {
        380
    } else {
        w
    }
}

// ---------------------------------------------------------------------------
// Staging an attachment to open it
// ---------------------------------------------------------------------------

/// A character of a staged file's name: letters, digits, `.`, `-` and `_`
/// stay; anything else (a path separator above all) becomes `_`.
pub open spec fn safe_char(c: char) -> char {
    if unicode_alnum(c) || c == '.' || c == '-' || c == '_' {
        c
    } else {
        '_'
    }
}

/// The name an attachment is staged under: its own with every unsafe
/// character replaced, `attachment` when it has none.
pub open spec fn staged_base_of(name: Seq<char>) -> Seq<char> {
    if name.len() == 0 {
        "attachment"@
    } else {
        Seq::new(name.len(), |i: int| safe_char(name[i]))
    }
}

pub fn staged_base(name: &str) -> (r: String)
    ensures
        r@ == staged_base_of(name@),
{
    let c = chars_of(name);
    if c.len() == 0 {
        return String::from_str("attachment");
    }
    let mut out: Vec<char> = Vec::new();
    let mut i: usize = 0;
    while i < c.len()
        invariant
            i <= c.len(),
            c@ == name@,
            out@ == Seq::new(i as nat, |j: int| safe_char(c@[j])),
        decreases c.len() - i,
    {
        let ch = c[i];
        let keep = is_alphanumeric(ch) || ch == '.' || ch == '-' || ch == '_';
        out.push(if keep { ch } else { '_' });
        assert(out@ =~= Seq::new((i + 1) as nat, |j: int| safe_char(c@[j])));
        i += 1;
    }
    string_of(&out)
}

/// The `n`th name tried for a staged file: the base itself first, then with
/// `-n` before its extension (or at its end when it has none).
pub open spec fn staged_name_of(base: Seq<char>, n: u32) -> Seq<char> {
    if n == 0 {
        base
    } else {
        match rfind_char(base, '.', base.len() as int) {
            Some(i) => if i > 0 {
                base.subrange(0, i) + "-"@ + decimal(n as nat) + "."@ + base.subrange(i + 1, base.len() as int)
            } else {
                base + "-"@ + decimal(n as nat)
            },
            None => base + "-"@ + decimal(n as nat),
        }
    }
}

pub fn staged_name(base: &str, n: u32) -> (r: String)
    ensures
        r@ == staged_name_of(base@, n),
{
    let b = chars_of(base);
    if n == 0 {
        return string_of(&b);
    }
    let d = crate::text::decimal_chars(n);
    let mut out: Vec<char> = Vec::new();
    proof {
        lemma_rfind_char(b@, '.', b@.len() as int);
    }
    match rfind_char_exec(&b, '.') {
        Some(i) => {
            if i > 0 {
                crate::text::push_range(&mut out, &b, 0, i);
                push_str(&mut out, "-");
                push_all(&mut out, &d);
                push_str(&mut out, ".");
                crate::text::push_range(&mut out, &b, i + 1, b.len());
            } else {
                push_all(&mut out, &b);
                push_str(&mut out, "-");
                push_all(&mut out, &d);
            }
        },
        None => {
            push_all(&mut out, &b);
            push_str(&mut out, "-");
            push_all(&mut out, &d);
        },
    }
    string_of(&out)
}

} // verus!
