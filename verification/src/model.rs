//! Finder data model: the entries of a listed folder, how they are named
//! and classified, and the change-detection snapshot.
//!
//! Reading the folder is the caller's part: it hands over the raw names
//! (and metadata) in the order the file system produced them.

use vstd::prelude::*;
use crate::order::{is_stable_order, key_lt, keys_of, lemma_key_lt_total, stable_order, SortKey};
use crate::text::{lemma_seq_lt_asymmetric, lemma_seq_lt_irreflexive, seq_lt};
use crate::path::{extension_chars, file_name_chars, file_name_of, last_index_of,
    lemma_last_index_of, path_extension, rfind_char, stem_chars, stem_of, views_of};
use crate::text::{chars_eq, chars_of, contains_chars, contains_lit, contains_seq, decimal, digit_char, ends_with,
    ends_with_lit, eq_lit, extend_chars, has_char, lowercase, lowercase_chars, occurs_at, push_decimal,
    is_white_space, slice_of, string_of, trim, trim_chars, trim_end, trim_start};

verus! {

broadcast use vstd::seq_lib::group_seq_properties;

/// One entry in the icon grid.
pub struct DirEntry {
    /// File name on disk (with extension for files).
    pub name: String,
    /// True for directories, false for files.
    pub is_dir: bool,
    /// True for `.app` bundles (directory or file).
    pub is_app: bool,
    /// Lowercase extension without dot, empty for directories and
    /// extensionless files.
    pub ext: String,
}

/// One name as read from a folder, with its directory flag.
pub struct RawEntry {
    pub name: String,
    pub is_dir: bool,
}

/// File kind driving the grid preview.
#[derive(Debug, Clone, Copy, PartialEq, Eq, Structural)]
pub enum FileKind {
    Image,
    Video,
    Audio,
    Archive,
    Other,
}

// ---------------------------------------------------------------------
// Classification
// ---------------------------------------------------------------------

/// Image extensions.
pub open spec fn is_image_ext(e: Seq<char>) -> bool {
    e == "png"@ || e == "jpg"@ || e == "jpeg"@ || e == "gif"@ || e == "bmp"@ || e == "webp"@ || e
        == "svg"@ || e == "tif"@ || e == "tiff"@ || e == "avif"@ || e == "heic"@ || e == "ico"@
}

/// Video extensions.
pub open spec fn is_video_ext(e: Seq<char>) -> bool {
    e == "mp4"@ || e == "mkv"@ || e == "avi"@ || e == "mov"@ || e == "webm"@ || e == "m4v"@ || e
        == "wmv"@ || e == "flv"@ || e == "mpg"@ || e == "mpeg"@ || e == "3gp"@ || e == "ogv"@
}

/// Audio extensions.
pub open spec fn is_audio_ext(e: Seq<char>) -> bool {
    e == "mp3"@ || e == "wav"@ || e == "flac"@ || e == "ogg"@ || e == "oga"@ || e == "m4a"@ || e
        == "opus"@ || e == "aac"@ || e == "wma"@
}

/// Archive extensions.
pub open spec fn is_archive_ext(e: Seq<char>) -> bool {
    e == "zip"@ || e == "rar"@ || e == "7z"@ || e == "tar"@ || e == "gz"@ || e == "gzip"@ || e
        == "bz2"@
}

/// Kind of a (lowercase) extension; the lists are tried in the order
/// image, video, audio, archive.
pub open spec fn kind_of(e: Seq<char>) -> FileKind {
    if is_image_ext(e) {
        FileKind::Image
    } else if is_video_ext(e) {
        FileKind::Video
    } else if is_audio_ext(e) {
        FileKind::Audio
    } else if is_archive_ext(e) {
        FileKind::Archive
    } else {
        FileKind::Other
    }
}

/// Classify a lowercase extension.
pub fn file_kind(ext: &str) -> (r: FileKind)
    ensures
        r == kind_of(ext@),
{
    let e = chars_of(ext);
    if eq_lit(&e, "png") || eq_lit(&e, "jpg") || eq_lit(&e, "jpeg") || eq_lit(&e, "gif") || eq_lit(
        &e,
        "bmp",
    ) || eq_lit(&e, "webp") || eq_lit(&e, "svg") || eq_lit(&e, "tif") || eq_lit(&e, "tiff")
        || eq_lit(&e, "avif") || eq_lit(&e, "heic") || eq_lit(&e, "ico") {
        FileKind::Image
    } else if eq_lit(&e, "mp4") || eq_lit(&e, "mkv") || eq_lit(&e, "avi") || eq_lit(&e, "mov")
        || eq_lit(&e, "webm") || eq_lit(&e, "m4v") || eq_lit(&e, "wmv") || eq_lit(&e, "flv")
        || eq_lit(&e, "mpg") || eq_lit(&e, "mpeg") || eq_lit(&e, "3gp") || eq_lit(&e, "ogv") {
        FileKind::Video
    } else if eq_lit(&e, "mp3") || eq_lit(&e, "wav") || eq_lit(&e, "flac") || eq_lit(&e, "ogg")
        || eq_lit(&e, "oga") || eq_lit(&e, "m4a") || eq_lit(&e, "opus") || eq_lit(&e, "aac")
        || eq_lit(&e, "wma") {
        FileKind::Audio
    } else if eq_lit(&e, "zip") || eq_lit(&e, "rar") || eq_lit(&e, "7z") || eq_lit(&e, "tar")
        || eq_lit(&e, "gz") || eq_lit(&e, "gzip") || eq_lit(&e, "bz2") {
        FileKind::Archive
    } else {
        FileKind::Other
    }
}

/// Document icon file in `Resources/extensionicons/` for an extension,
/// `None` when no specific icon exists.
pub open spec fn doc_icon_of(e: Seq<char>) -> Option<Seq<char>> {
    if e == "css"@ || e == "scss"@ || e == "sass"@ || e == "less"@ {
        Some("css.png"@)
    } else if e == "exe"@ || e == "msi"@ {
        Some("exe.png"@)
    } else if e == "doc"@ || e == "dot"@ || e == "odt"@ || e == "rtf"@ {
        Some("doc.png"@)
    } else if e == "docx"@ || e == "docm"@ || e == "dotx"@ {
        Some("docx.png"@)
    } else if e == "html"@ || e == "htm"@ || e == "xhtml"@ || e == "mhtml"@ {
        Some("html.png"@)
    } else if e == "java"@ || e == "class"@ || e == "jar"@ {
        Some("java.png"@)
    } else if e == "js"@ || e == "jsx"@ || e == "mjs"@ || e == "cjs"@ || e == "ts"@ || e == "tsx"@
        || e == "json"@ || e == "jsonc"@ {
        Some("javascript.png"@)
    } else if e == "md"@ || e == "markdown"@ || e == "mdown"@ || e == "mkd"@ {
        Some("md.png"@)
    } else if e == "pdf"@ {
        Some("pdf.png"@)
    } else if e == "ppt"@ || e == "pptx"@ || e == "pps"@ || e == "ppsx"@ || e == "odp"@ {
        Some("ppt.png"@)
    } else if e == "py"@ || e == "pyw"@ || e == "pyc"@ {
        Some("python.png"@)
    } else if e == "rs"@ {
        Some("rust.png"@)
    } else if e == "sh"@ || e == "bash"@ || e == "zsh"@ || e == "fish"@ || e == "bat"@ || e
        == "cmd"@ || e == "ps1"@ {
        Some("sh.png"@)
    } else if e == "txt"@ || e == "text"@ || e == "log"@ || e == "ini"@ || e == "cfg"@ || e
        == "conf"@ || e == "toml"@ || e == "yaml"@ || e == "yml"@ || e == "xml"@ {
        Some("txt.png"@)
    } else if e == "xls"@ || e == "xlsx"@ || e == "xlsm"@ || e == "xlsb"@ || e == "csv"@ || e
        == "tsv"@ || e == "ods"@ {
        Some("xls.png"@)
    } else {
        None
    }
}

/// Document icon file in `Resources/extensionicons/` for an extension,
/// or `None` when no specific icon exists (caller uses `basis.png`).
pub fn document_icon(ext: &str) -> (r: Option<&'static str>)
    ensures
        match r {
            Some(icon) => doc_icon_of(ext@) == Some(icon@),
            None => doc_icon_of(ext@) is None,
        },
{
    let e = chars_of(ext);
    if eq_lit(&e, "css") || eq_lit(&e, "scss") || eq_lit(&e, "sass") || eq_lit(&e, "less") {
        Some("css.png")
    } else if eq_lit(&e, "exe") || eq_lit(&e, "msi") {
        Some("exe.png")
    } else if eq_lit(&e, "doc") || eq_lit(&e, "dot") || eq_lit(&e, "odt") || eq_lit(&e, "rtf") {
        Some("doc.png")
    } else if eq_lit(&e, "docx") || eq_lit(&e, "docm") || eq_lit(&e, "dotx") {
        Some("docx.png")
    } else if eq_lit(&e, "html") || eq_lit(&e, "htm") || eq_lit(&e, "xhtml") || eq_lit(&e, "mhtml") {
        Some("html.png")
    } else if eq_lit(&e, "java") || eq_lit(&e, "class") || eq_lit(&e, "jar") {
        Some("java.png")
    } else if eq_lit(&e, "js") || eq_lit(&e, "jsx") || eq_lit(&e, "mjs") || eq_lit(&e, "cjs")
        || eq_lit(&e, "ts") || eq_lit(&e, "tsx") || eq_lit(&e, "json") || eq_lit(&e, "jsonc") {
        Some("javascript.png")
    } else if eq_lit(&e, "md") || eq_lit(&e, "markdown") || eq_lit(&e, "mdown") || eq_lit(&e, "mkd") {
        Some("md.png")
    } else if eq_lit(&e, "pdf") {
        Some("pdf.png")
    } else if eq_lit(&e, "ppt") || eq_lit(&e, "pptx") || eq_lit(&e, "pps") || eq_lit(&e, "ppsx")
        || eq_lit(&e, "odp") {
        Some("ppt.png")
    } else if eq_lit(&e, "py") || eq_lit(&e, "pyw") || eq_lit(&e, "pyc") {
        Some("python.png")
    } else if eq_lit(&e, "rs") {
        Some("rust.png")
    } else if eq_lit(&e, "sh") || eq_lit(&e, "bash") || eq_lit(&e, "zsh") || eq_lit(&e, "fish")
        || eq_lit(&e, "bat") || eq_lit(&e, "cmd") || eq_lit(&e, "ps1") {
        Some("sh.png")
    } else if eq_lit(&e, "txt") || eq_lit(&e, "text") || eq_lit(&e, "log") || eq_lit(&e, "ini")
        || eq_lit(&e, "cfg") || eq_lit(&e, "conf") || eq_lit(&e, "toml") || eq_lit(&e, "yaml")
        || eq_lit(&e, "yml") || eq_lit(&e, "xml") {
        Some("txt.png")
    } else if eq_lit(&e, "xls") || eq_lit(&e, "xlsx") || eq_lit(&e, "xlsm") || eq_lit(&e, "xlsb")
        || eq_lit(&e, "csv") || eq_lit(&e, "tsv") || eq_lit(&e, "ods") {
        Some("xls.png")
    } else {
        None
    }
}


// ---------------------------------------------------------------------
// Names
// ---------------------------------------------------------------------

/// Shown name: directories keep their name except that a `.app` (or
/// `.APP`) suffix is dropped; files show the stem of their file name
/// (`archive.tar.gz` shows as `archive.tar`), or the whole name when the
/// path has no file name.
pub open spec fn display_of(name: Seq<char>, is_dir: bool) -> Seq<char> {
    if is_dir {
        if ends_with(name, ".app"@) {
            name.take(name.len() - ".app"@.len())
        } else if ends_with(name, ".APP"@) {
            name.take(name.len() - ".APP"@.len())
        } else {
            name
        }
    } else {
        match file_name_of(name) {
            Some(f) => stem_of(f),
            None => name,
        }
    }
}

/// Shown name of the characters `name` (see `display_of`).
pub fn display_chars(name: &Vec<char>, is_dir: bool) -> (r: Vec<char>)
    ensures
        r@ == display_of(name@, is_dir),
{
    if is_dir {
        if ends_with_lit(name, ".app") {
            let cut = chars_of(".app").len();
            slice_of(name, 0, name.len() - cut)
        } else if ends_with_lit(name, ".APP") {
            let cut = chars_of(".APP").len();
            slice_of(name, 0, name.len() - cut)
        } else {
            slice_of(name, 0, name.len())
        }
    } else {
        match file_name_chars(name) {
            Some(f) => stem_chars(&f),
            None => slice_of(name, 0, name.len()),
        }
    }
}

/// Display name: directories keep their name, `.app` bundles lose the
/// suffix, files lose the extension (`archive.tar.gz` shows as
/// `archive.tar`).
pub fn display_name(name: &str, is_dir: bool) -> (r: String)
    ensures
        r@ == display_of(name@, is_dir),
{
    let v = chars_of(name);
    string_of(&display_chars(&v, is_dir))
}

/// Character view of an optional `String`.
pub open spec fn opt_string(o: Option<String>) -> Option<Seq<char>> {
    match o {
        Some(s) => Some(s@),
        None => None,
    }
}

/// On-disk name for an inline rename of an entry (`is_dir`, `is_app`,
/// `ext`) to the typed text. The text is trimmed; empty text and text
/// holding `/`, `\` or NUL is rejected. Directories keep the text, `.app`
/// bundles get the suffix back unless the text ends in `.app` in any
/// case; files keep the text when it holds a `.` or the entry has no
/// extension, and get `.ext` appended otherwise.
pub open spec fn new_name_of(is_dir: bool, is_app: bool, ext: Seq<char>, typed: Seq<char>) -> Option<
    Seq<char>,
> {
    let text = trim(typed);
    if text.len() == 0 || text.contains('/') || text.contains('\\') || text.contains('\0') {
        None
    } else if is_dir {
        if is_app && !ends_with(lowercase(text), ".app"@) {
            Some(text + ".app"@)
        } else {
            Some(text)
        }
    } else if text.contains('.') || ext.len() == 0 {
        Some(text)
    } else {
        Some(text + seq!['.'] + ext)
    }
}

/// On-disk name for an inline rename. Rejects empty names and path
/// separators. Directories keep the typed text (`.app` bundles keep
/// their suffix); files keep their extension unless the typed text
/// already carries one.
pub fn resolve_new_name(entry: &DirEntry, typed: &str) -> (r: Option<String>)
    ensures
        opt_string(r) == new_name_of(entry.is_dir, entry.is_app, entry.ext@, typed@),
        // Committing the resolved name again gives the same name: no
        // second extension and no second `.app` suffix.
        // The name starts with the trimmed typed text.
        r matches Some(n) ==> trim(typed@).len() > 0 && n@.subrange(0, trim(typed@).len() as int)
            == trim(typed@),
        // A plain folder takes the trimmed text as it is.
        entry.is_dir && !entry.is_app ==> (r matches Some(n) ==> n@ == trim(typed@)),
        // A renamed bundle folder still ends in `.app` (in any case).
        entry.is_dir && entry.is_app ==> (r matches Some(n) ==> ends_with(lowercase(n@), ".app"@)),
        // A file with an extension keeps one: the name holds a dot.
        !entry.is_dir && entry.ext@.len() > 0 ==> (r matches Some(n) ==> n@.contains('.')),
        ext_is_plain(entry.ext@) ==> (r matches Some(n) ==> new_name_of(
            entry.is_dir,
            entry.is_app,
            entry.ext@,
            n@,
        ) == Some(n@)),
{
    let raw = chars_of(typed);
    let text = trim_chars(&raw);
    if text.len() == 0 || has_char(&text, '/') || has_char(&text, '\\') || has_char(&text, '\0') {
        return None;
    }
    if entry.is_dir {
        if entry.is_app && !ends_with_lit(&lowercase_chars(&text), ".app") {
            let mut out = slice_of(&text, 0, text.len());
            extend_chars(&mut out, &chars_of(".app"));
            let lowered = lowercase_chars(&out);
            proof {
                if ext_is_plain(entry.ext@) {
                    lemma_appended_app_is_fixed(entry.ext@, typed@, lowered@);
                }
            }
            return Some(string_of(&out));
        }
        proof {
            if ext_is_plain(entry.ext@) {
                lemma_resolved_name_is_fixed(entry.is_dir, entry.is_app, entry.ext@, typed@);
            }
        }
        return Some(string_of(&text));
    }
    let ext = chars_of(entry.ext.as_str());
    proof {
        if ext_is_plain(entry.ext@) {
            lemma_resolved_name_is_fixed(entry.is_dir, entry.is_app, entry.ext@, typed@);
        }
    }
    if has_char(&text, '.') || ext.len() == 0 {
        return Some(string_of(&text));
    }
    let mut out = slice_of(&text, 0, text.len());
    out.push('.');
    extend_chars(&mut out, &ext);
    assert(out@ =~= text@ + seq!['.'] + ext@);
    Some(string_of(&out))
}

/// A resolved name is a plain, non-empty file name: it holds no `/`, `\`
/// or NUL (provided the entry's extension holds none either).
pub proof fn lemma_new_name_is_plain(is_dir: bool, is_app: bool, ext: Seq<char>, typed: Seq<char>)
    requires
        !ext.contains('/'),
        !ext.contains('\\'),
        !ext.contains('\0'),
    ensures
        new_name_of(is_dir, is_app, ext, typed) matches Some(n) ==> n.len() > 0 && !n.contains('/')
            && !n.contains('\\') && !n.contains('\0'),
{
    reveal_strlit(".app");
    let text = trim(typed);
    let app = ".app"@;
    let dot = seq!['.'];
    assert forall|c: char| c == '/' || c == '\\' || c == '\0' implies !app.contains(c) && !dot.contains(c) by {
        if app.contains(c) {
            let k = choose|k: int| 0 <= k < app.len() && app[k] == c;
            assert(app[0] == '.' && app[1] == 'a' && app[2] == 'p' && app[3] == 'p');
        }
        if dot.contains(c) {
            assert(dot[0] == '.');
        }
    }
    assert forall|a: Seq<char>, b: Seq<char>, c: char| (a + b).contains(c) implies a.contains(c) || b.contains(c) by {
        let k = choose|k: int| 0 <= k < (a + b).len() && (a + b)[k] == c;
        if k < a.len() {
            assert(a[k] == c);
        } else {
            assert(b[k - a.len()] == c);
        }
    }
}

/// What `trim_start` leaves starts with a character that is not white
/// space.
proof fn lemma_trim_start_shape(s: Seq<char>)
    ensures
        trim_start(s).len() == 0 || !is_white_space(trim_start(s)[0]),
    decreases s.len(),
{
    if s.len() > 0 && is_white_space(s[0]) {
        lemma_trim_start_shape(s.drop_first());
    }
}

/// What `trim_end` leaves is a prefix that ends with a character that is
/// not white space.
proof fn lemma_trim_end_shape(s: Seq<char>)
    ensures
        trim_end(s).len() <= s.len(),
        trim_end(s) == s.subrange(0, trim_end(s).len() as int),
        trim_end(s).len() == 0 || !is_white_space(trim_end(s).last()),
    decreases s.len(),
{
    if s.len() > 0 && is_white_space(s.last()) {
        lemma_trim_end_shape(s.drop_last());
        assert(trim_end(s) =~= s.subrange(0, trim_end(s).len() as int));
    } else {
        assert(s =~= s.subrange(0, s.len() as int));
    }
}

/// A trimmed text neither starts nor ends with white space.
proof fn lemma_trim_shape(s: Seq<char>)
    ensures
        trim(s).len() == 0 || (!is_white_space(trim(s)[0]) && !is_white_space(trim(s).last())),
{
    lemma_trim_start_shape(s);
    lemma_trim_end_shape(trim_start(s));
}

/// A text that neither starts nor ends with white space is its own trim.
proof fn lemma_trim_fixed(s: Seq<char>)
    requires
        s.len() > 0,
        !is_white_space(s[0]),
        !is_white_space(s.last()),
    ensures
        trim(s) == s,
{
}

/// An extension as listed entries carry it: no white space and none of
/// `/`, `\` or NUL.
pub open spec fn ext_is_plain(ext: Seq<char>) -> bool {
    &&& !ext.contains('/')
    &&& !ext.contains('\\')
    &&& !ext.contains('\0')
    &&& forall|i: int| 0 <= i < ext.len() ==> !is_white_space(#[trigger] ext[i])
}

/// The resolved name is a fixed point, except for a bundle whose `.app`
/// suffix was appended (see `lemma_appended_app_is_fixed`).
proof fn lemma_resolved_name_is_fixed(is_dir: bool, is_app: bool, ext: Seq<char>, typed: Seq<char>)
    requires
        ext_is_plain(ext),
        new_name_of(is_dir, is_app, ext, typed) is Some,
        !(is_dir && is_app && !ends_with(lowercase(trim(typed)), ".app"@)),
    ensures
        new_name_of(is_dir, is_app, ext, new_name_of(is_dir, is_app, ext, typed)->0) == new_name_of(
            is_dir,
            is_app,
            ext,
            typed,
        ),
{
    let text = trim(typed);
    let r = new_name_of(is_dir, is_app, ext, typed)->0;
    lemma_trim_shape(typed);
    lemma_new_name_is_plain(is_dir, is_app, ext, typed);
    if r == text {
        lemma_trim_fixed(text);
    } else {
        assert(!is_dir);
        assert(r == text + seq!['.'] + ext);
        assert(ext.len() > 0);
        assert(r[0] == text[0]);
        assert(r.last() == ext.last());
        lemma_trim_fixed(r);
        assert(r[text.len() as int] == '.');
        assert(r.contains('.'));
    }
}

/// A bundle name with an appended `.app` suffix resolves to itself, given
/// that its lower-cased form (`lowered`) still ends in `.app`.
proof fn lemma_appended_app_is_fixed(ext: Seq<char>, typed: Seq<char>, lowered: Seq<char>)
    requires
        ext_is_plain(ext),
        new_name_of(true, true, ext, typed) is Some,
        !ends_with(lowercase(trim(typed)), ".app"@),
        lowered == lowercase(trim(typed) + ".app"@),
        ends_with(lowered, ".app"@),
    ensures
        new_name_of(true, true, ext, trim(typed) + ".app"@) == Some(trim(typed) + ".app"@),
{
    reveal_strlit(".app");
    let text = trim(typed);
    let n = text + ".app"@;
    lemma_trim_shape(typed);
    lemma_new_name_is_plain(true, true, ext, typed);
    assert(n[0] == text[0]);
    assert(n.last() == 'p');
    lemma_trim_fixed(n);
}

/// Number of items shown in the status line.
pub fn item_count(entries: &[DirEntry]) -> (r: usize)
    ensures
        r == entries@.len(),
{
    entries.len()
}


// ---------------------------------------------------------------------
// List columns and free space
// ---------------------------------------------------------------------

/// Kilobytes of `bytes`, rounded up, at least one.
pub open spec fn kilobytes(bytes: nat) -> nat {
    if bytes == 0 {
        1
    } else {
        ((bytes + 999) / 1000) as nat
    }
}

/// A value given in hundredths (`h`), with up to two decimals and
/// trailing zeros trimmed: `150` is `1.5`, `953` is `9.53`, `1000` is
/// `10`.
pub open spec fn hundredths_text(h: nat) -> Seq<char> {
    let whole = h / 100;
    let frac = h % 100;
    if frac == 0 {
        decimal(whole)
    } else if frac % 10 == 0 {
        decimal(whole) + seq!['.'] + decimal(frac / 10)
    } else {
        decimal(whole) + seq!['.'] + decimal(frac / 10) + decimal(frac % 10)
    }
}

/// `bytes` in `unit` bytes, in hundredths rounded half up.
pub open spec fn in_unit(bytes: nat, unit: nat) -> nat
    recommends
        unit > 0,
{
    ((bytes * 100 + unit / 2) / unit) as nat
}

/// Human size in decimal units: below a megabyte whole kilobytes,
/// rounded up with a one-kilobyte minimum (`1 KB`, `23 KB`); above,
/// megabytes, gigabytes or terabytes with up to two decimals, rounded
/// half up and trailing zeros trimmed (`1.5 MB`, `9.53 GB`, `10 GB`).
pub open spec fn size_text(bytes: nat) -> Seq<char> {
    if bytes < 1_000_000 {
        decimal(kilobytes(bytes)) + seq![' ', 'K', 'B']
    } else if bytes < 1_000_000_000 {
        hundredths_text(in_unit(bytes, 1_000_000)) + seq![' ', 'M', 'B']
    } else if bytes < 1_000_000_000_000 {
        hundredths_text(in_unit(bytes, 1_000_000_000)) + seq![' ', 'G', 'B']
    } else {
        hundredths_text(in_unit(bytes, 1_000_000_000_000)) + seq![' ', 'T', 'B']
    }
}

fn push_chars3(out: &mut Vec<char>, a: char, b: char, c: char)
    ensures
        final(out)@ == old(out)@ + seq![a, b, c],
{
    out.push(a);
    out.push(b);
    out.push(c);
    assert(out@ =~= old(out)@ + seq![a, b, c]);
}

/// Appends `hundredths_text(h)`.
fn push_hundredths(out: &mut Vec<char>, h: u128)
    ensures
        final(out)@ == old(out)@ + hundredths_text(h as nat),
{
    let whole = h / 100;
    let frac = h % 100;
    push_decimal(out, whole);
    if frac != 0 {
        out.push('.');
        push_decimal(out, frac / 10);
        if frac % 10 != 0 {
            push_decimal(out, frac % 10);
        }
    }
    assert(out@ =~= old(out)@ + hundredths_text(h as nat));
}

/// Human size of `bytes` (see `size_text`).
pub fn format_size(bytes: u64) -> (r: String)
    ensures
        r@ == size_text(bytes as nat),
{
    let b = bytes as u128;
    let mut out: Vec<char> = Vec::new();
    if b < 1_000_000 {
        let k: u128 = if b == 0 { 1 } else { (b + 999) / 1000 };
        push_decimal(&mut out, k);
        push_chars3(&mut out, ' ', 'K', 'B');
    } else if b < 1_000_000_000 {
        push_hundredths(&mut out, (b * 100 + 500_000) / 1_000_000);
        push_chars3(&mut out, ' ', 'M', 'B');
    } else if b < 1_000_000_000_000 {
        push_hundredths(&mut out, (b * 100 + 500_000_000) / 1_000_000_000);
        push_chars3(&mut out, ' ', 'G', 'B');
    } else {
        push_hundredths(&mut out, (b * 100 + 500_000_000_000) / 1_000_000_000_000);
        push_chars3(&mut out, ' ', 'T', 'B');
    }
    assert(out@ =~= size_text(bytes as nat));
    string_of(&out)
}

/// The Size column of a list row: empty for directories, else the human
/// size of `len`.
pub fn size_column(is_dir: bool, len: u64) -> (r: String)
    ensures
        r@ == (if is_dir {
            Seq::empty()
        } else {
            size_text(len as nat)
        }),
{
    if is_dir {
        String::new()
    } else {
        format_size(len)
    }
}

/// `s` with every `.` turned into `,` (the German decimal comma).
pub open spec fn decimal_comma(s: Seq<char>) -> Seq<char> {
    s.map_values(|c: char| if c == '.' { ',' } else { c })
}

/// Free-space text of the status line: the human size of the free bytes,
/// with a decimal comma in German; `None` when the free space is unknown
/// (the caller shows its placeholder).
pub fn free_text(free: Option<u64>, german: bool) -> (r: Option<String>)
    ensures
        opt_string(r) == match free {
            None => None,
            Some(b) => Some(
                if german {
                    decimal_comma(size_text(b as nat))
                } else {
                    size_text(b as nat)
                },
            ),
        },
{
    match free {
        None => None,
        Some(b) => {
            let text = chars_of(format_size(b).as_str());
            if !german {
                return Some(string_of(&text));
            }
            let mut out: Vec<char> = Vec::new();
            let mut i: usize = 0;
            while i < text.len()
                invariant
                    i <= text@.len(),
                    out@ == decimal_comma(text@.take(i as int)),
                decreases text@.len() - i,
            {
                let c = text[i];
                out.push(if c == '.' { ',' } else { c });
                i += 1;
                assert(out@ =~= decimal_comma(text@.take(i as int)));
            }
            assert(text@.take(text@.len() as int) =~= text@);
            Some(string_of(&out))
        },
    }
}

/// A modification time in the machine's local time zone.
pub struct LocalStamp {
    pub year: u32,
    pub month: u32,
    pub day: u32,
    pub hour: u32,
    pub minute: u32,
}

/// `n` with at least two digits (leading zero).
pub open spec fn pad2(n: nat) -> Seq<char> {
    if n < 10 {
        seq!['0'] + decimal(n)
    } else {
        decimal(n)
    }
}

/// `n` with at least four digits (leading zeros).
pub open spec fn pad4(n: nat) -> Seq<char> {
    if n < 10 {
        seq!['0', '0', '0'] + decimal(n)
    } else if n < 100 {
        seq!['0', '0'] + decimal(n)
    } else if n < 1000 {
        seq!['0'] + decimal(n)
    } else {
        decimal(n)
    }
}

/// Date column text of a local time: `12.09.2026 10:05` in German,
/// `09/12/2026 10:05` in English.
pub open spec fn stamp_text(s: LocalStamp, german: bool) -> Seq<char> {
    let time = seq![' '] + pad2(s.hour as nat) + seq![':'] + pad2(s.minute as nat);
    if german {
        pad2(s.day as nat) + seq!['.'] + pad2(s.month as nat) + seq!['.'] + pad4(s.year as nat)
            + time
    } else {
        pad2(s.month as nat) + seq!['/'] + pad2(s.day as nat) + seq!['/'] + pad4(s.year as nat)
            + time
    }
}

/// Date column text: `--` when the modification time is unknown.
pub open spec fn mtime_text(local: Option<LocalStamp>, german: bool) -> Seq<char> {
    match local {
        None => seq!['-', '-'],
        Some(s) => stamp_text(s, german),
    }
}

/// Appends `pad2(n)`.
fn push_pad2(out: &mut Vec<char>, n: u32)
    ensures
        final(out)@ == old(out)@ + pad2(n as nat),
{
    if n < 10 {
        out.push('0');
    }
    push_decimal(out, n as u128);
    assert(out@ =~= old(out)@ + pad2(n as nat));
}

/// Appends `pad4(n)`.
fn push_pad4(out: &mut Vec<char>, n: u32)
    ensures
        final(out)@ == old(out)@ + pad4(n as nat),
{
    if n < 10 {
        out.push('0');
    }
    if n < 100 {
        out.push('0');
    }
    if n < 1000 {
        out.push('0');
    }
    push_decimal(out, n as u128);
    assert(out@ =~= old(out)@ + pad4(n as nat));
}

/// Date column text of a modification time (see `mtime_text`).
pub fn format_mtime(local: Option<LocalStamp>, german: bool) -> (r: String)
    ensures
        r@ == mtime_text(local, german),
{
    let mut out: Vec<char> = Vec::new();
    match local {
        None => {
            out.push('-');
            out.push('-');
        },
        Some(s) => {
            if german {
                push_pad2(&mut out, s.day);
                out.push('.');
                push_pad2(&mut out, s.month);
                out.push('.');
            } else {
                push_pad2(&mut out, s.month);
                out.push('/');
                push_pad2(&mut out, s.day);
                out.push('/');
            }
            push_pad4(&mut out, s.year);
            out.push(' ');
            push_pad2(&mut out, s.hour);
            out.push(':');
            push_pad2(&mut out, s.minute);
        },
    }
    assert(out@ =~= mtime_text(local, german));
    string_of(&out)
}

// ---------------------------------------------------------------------
// Search
// ---------------------------------------------------------------------

/// The search filter for the text typed in the search field: trimmed and
/// lower-cased.
pub open spec fn query_of(raw: Seq<char>) -> Seq<char> {
    lowercase(trim(raw))
}

/// Normalize the search field text (see `query_of`).
pub fn normalize_query(raw: &str) -> (r: String)
    ensures
        r@ == query_of(raw@),
{
    let trimmed = trim_chars(&chars_of(raw));
    string_of(&lowercase_chars(&trimmed))
}

/// Whether an entry named `name` passes the normalized filter `query`:
/// only names are searched, case-insensitively (`.txt` matches every
/// text file); the empty filter passes every name.
pub open spec fn name_matches(name: Seq<char>, query: Seq<char>) -> bool {
    contains_seq(lowercase(name), query)
}

/// Whether the on-disk name `name` passes the filter `query` (see
/// `name_matches`).
pub fn matches_query(name: &str, query: &str) -> (r: bool)
    ensures
        r == name_matches(name@, query@),
{
    contains_chars(&lowercase_chars(&chars_of(name)), &chars_of(query))
}

/// Whether a listed entry passes the filter `query`.
pub open spec fn entry_matches(query: Seq<char>) -> spec_fn(DirEntry) -> bool {
    |e: DirEntry| name_matches(e.name@, query)
}

/// The listed entries that pass the filter `query`, in listing order.
pub fn filter_entries(entries: &Vec<DirEntry>, query: &str) -> (r: Vec<DirEntry>)
    ensures
        r@ == entries@.filter(entry_matches(query@)),
{
    let ghost pred = entry_matches(query@);
    let mut out: Vec<DirEntry> = Vec::new();
    let mut i: usize = 0;
    while i < entries.len()
        invariant
            i <= entries@.len(),
            pred == entry_matches(query@),
            out@ == entries@.take(i as int).filter(pred),
        decreases entries@.len() - i,
    {
        proof {
            assert(entries@.take(i + 1) =~= entries@.take(i as int).push(entries@[i as int]));
            entries@.take(i as int).lemma_filter_push(entries@[i as int], pred);
        }
        let e = &entries[i];
        if matches_query(e.name.as_str(), query) {
            out.push(DirEntry { name: e.name.clone(), is_dir: e.is_dir, is_app: e.is_app, ext: e.ext.clone() });
        }
        i += 1;
    }
    assert(entries@.take(entries@.len() as int) =~= entries@);
    out
}

/// The empty filter shows every listed entry, in listing order.
pub proof fn lemma_empty_query_keeps_all(entries: Seq<DirEntry>)
    ensures
        entries.filter(entry_matches(Seq::empty())) == entries,
    decreases entries.len(),
{
    let pred = entry_matches(Seq::empty());
    if entries.len() == 0 {
        reveal(Seq::filter);
    } else {
        let rest = entries.drop_last();
        let e = entries.last();
        lemma_empty_query_keeps_all(rest);
        let s = lowercase(e.name@);
        assert(s.subrange(0, 0) =~= Seq::<char>::empty());
        assert(occurs_at(s, Seq::empty(), 0));
        assert(pred(e));
        assert(rest.push(e) =~= entries);
        rest.lemma_filter_push(e, pred);
    }
}


// ---------------------------------------------------------------------
// Listing
// ---------------------------------------------------------------------

/// Windows `Zone.Identifier` download markers (`x.Zone.Identifier`, or
/// `x:Zone.Identifier` as WSL exposes them), in any case.
pub open spec fn is_zone_marker(name: Seq<char>) -> bool {
    let lower = lowercase(name);
    ends_with(lower, ".zone.identifier"@) || contains_seq(lower, ":zone.identifier"@)
}

/// The read entries that are listed: all but the `Zone.Identifier`
/// markers, in read order.
pub open spec fn kept_entries(read: Seq<RawEntry>) -> Seq<RawEntry> {
    read.filter(keeps_raw())
}

/// Whether a read entry is listed.
pub open spec fn keeps_raw() -> spec_fn(RawEntry) -> bool {
    |e: RawEntry| !is_zone_marker(e.name@)
}

/// Listed extension: empty for directories, else the lower-cased
/// extension of the name (empty when it has none).
pub open spec fn entry_ext_of(name: Seq<char>, is_dir: bool) -> Seq<char> {
    if is_dir {
        Seq::empty()
    } else {
        lowercase(
            match path_extension(name) {
                Some(e) => e,
                None => Seq::empty(),
            },
        )
    }
}

/// Sort key of a read entry: directories first, then the lower-cased
/// shown name.
pub open spec fn listing_key(e: RawEntry) -> (bool, Seq<char>) {
    (e.is_dir, lowercase(display_of(e.name@, e.is_dir)))
}

/// Sort keys of read entries.
pub open spec fn listing_keys(es: Seq<RawEntry>) -> Seq<(bool, Seq<char>)> {
    es.map_values(|e: RawEntry| listing_key(e))
}

/// `d` is the listed form of the read entry `e`.
pub open spec fn describes(d: DirEntry, e: RawEntry) -> bool {
    &&& d.name@ == e.name@
    &&& d.is_dir == e.is_dir
    &&& d.is_app == ends_with(lowercase(e.name@), ".app"@)
    &&& d.ext@ == entry_ext_of(e.name@, e.is_dir)
}

/// Lower-cased extension of a file name, empty when it has none.
fn entry_ext(name: &Vec<char>, is_dir: bool) -> (r: Vec<char>)
    ensures
        r@ == entry_ext_of(name@, is_dir),
{
    if is_dir {
        return Vec::new();
    }
    let ext = match file_name_chars(name) {
        Some(f) => match extension_chars(&f) {
            Some(e) => e,
            None => Vec::new(),
        },
        None => Vec::new(),
    };
    lowercase_chars(&ext)
}

/// Whether `name` is a `Zone.Identifier` marker.
fn zone_marker(name: &Vec<char>) -> (r: bool)
    ensures
        r == is_zone_marker(name@),
{
    let lower = lowercase_chars(name);
    ends_with_lit(&lower, ".zone.identifier") || contains_lit(&lower, ":zone.identifier")
}

/// Directory listing from the names read in one folder: directories
/// first then files, each alphabetical (case-insensitive, by shown
/// name), ties in read order. Windows `Zone.Identifier` marker files are
/// skipped (download metadata, not user files).
pub fn list_dir(read: &Vec<RawEntry>) -> (r: Vec<DirEntry>)
    ensures
        exists|perm: Seq<usize>|
            {
                &&& is_stable_order(listing_keys(kept_entries(read@)), perm)
                &&& r@.len() == perm.len()
                &&& forall|i: int|
                    0 <= i < perm.len() ==> describes(
                        #[trigger] r@[i],
                        kept_entries(read@)[perm[i] as int],
                    )
            },
        forall|i: int, j: int| 0 <= i < j < r@.len() && r@[j].is_dir ==> r@[i].is_dir,
        // No `Zone.Identifier` marker is listed, in any case.
        forall|i: int|
            0 <= i < r@.len() ==> !ends_with(lowercase(#[trigger] r@[i].name@), ".zone.identifier"@)
                && !contains_seq(lowercase(r@[i].name@), ":zone.identifier"@),
        // Within each kind, entries come in case-insensitive order of their
        // shown names (code point order of the lower-cased names).
        forall|i: int, j: int|
            0 <= i < j < r@.len() && r@[i].is_dir == r@[j].is_dir ==> !seq_lt(
                lowercase(display_of(r@[j].name@, r@[j].is_dir)),
                lowercase(display_of(r@[i].name@, r@[i].is_dir)),
            ),
{
    let ghost pred = keeps_raw();
    let mut kept: Vec<usize> = Vec::new();
    let mut keys: Vec<SortKey> = Vec::new();
    let mut i: usize = 0;
    while i < read.len()
        invariant
            i <= read@.len(),
            pred == keeps_raw(),
            kept@.len() == keys@.len(),
            forall|t: int| 0 <= t < kept@.len() ==> #[trigger] kept@[t] < i,
            read@.take(i as int).filter(pred) =~= kept@.map_values(|j: usize| read@[j as int]),
            keys_of(keys@) =~= listing_keys(read@.take(i as int).filter(pred)),
        decreases read@.len() - i,
    {
        let name = chars_of(read[i].name.as_str());
        proof {
            assert(read@.take(i + 1) =~= read@.take(i as int).push(read@[i as int]));
            read@.take(i as int).lemma_filter_push(read@[i as int], pred);
        }
        if !zone_marker(&name) {
            let shown = display_chars(&name, read[i].is_dir);
            let text = lowercase_chars(&shown);
            let ghost before = read@.take(i as int).filter(pred);
            kept.push(i);
            keys.push(SortKey { first: read[i].is_dir, text });
            assert(listing_keys(before.push(read@[i as int])) =~= listing_keys(before).push(
                listing_key(read@[i as int]),
            ));
        }
        i += 1;
    }
    assert(read@.take(read@.len() as int) =~= read@);
    let ghost kept_seq = kept_entries(read@);
    assert(kept_seq == read@.filter(pred));
    let perm = stable_order(&keys);
    let mut out: Vec<DirEntry> = Vec::new();
    let mut t: usize = 0;
    while t < perm.len()
        invariant
            t <= perm@.len(),
            kept_seq == kept_entries(read@),
            kept_seq =~= kept@.map_values(|j: usize| read@[j as int]),
            is_stable_order(listing_keys(kept_seq), perm@),
            kept@.len() == perm@.len(),
            forall|u: int| 0 <= u < kept@.len() ==> #[trigger] kept@[u] < read@.len(),
            out@.len() == t,
            forall|u: int| 0 <= u < t ==> describes(#[trigger] out@[u], kept_seq[perm@[u] as int]),
        decreases perm@.len() - t,
    {
        let k = perm[t];
        assert(k < kept@.len());
        let j = kept[k];
        let raw = &read[j];
        let name = chars_of(raw.name.as_str());
        let lower = lowercase_chars(&name);
        let is_app = ends_with_lit(&lower, ".app");
        let ext = entry_ext(&name, raw.is_dir);
        out.push(DirEntry { name: raw.name.clone(), is_dir: raw.is_dir, is_app, ext: string_of(&ext) });
        t += 1;
    }
    assert(is_stable_order(listing_keys(kept_entries(read@)), perm@));
    assert forall|a: int, b: int| 0 <= a < b < out@.len() && out@[b].is_dir implies out@[a].is_dir by {
        assert(describes(out@[a], kept_seq[perm@[a] as int]));
        assert(describes(out@[b], kept_seq[perm@[b] as int]));
        let ka = listing_keys(kept_seq)[perm@[a] as int];
        let kb = listing_keys(kept_seq)[perm@[b] as int];
        assert(!crate::order::key_lt(kb, ka));
    }
    assert forall|a: int| 0 <= a < out@.len() implies !ends_with(lowercase(#[trigger] out@[a].name@), ".zone.identifier"@)
        && !contains_seq(lowercase(out@[a].name@), ":zone.identifier"@) by {
        assert(describes(out@[a], kept_seq[perm@[a] as int]));
        read@.lemma_filter_pred(pred, perm@[a] as int);
    }
    assert forall|a: int, b: int|
        0 <= a < b < out@.len() && out@[a].is_dir == out@[b].is_dir implies !seq_lt(
            lowercase(display_of(out@[b].name@, out@[b].is_dir)),
            lowercase(display_of(out@[a].name@, out@[a].is_dir)),
        ) by {
        assert(describes(out@[a], kept_seq[perm@[a] as int]));
        assert(describes(out@[b], kept_seq[perm@[b] as int]));
        let ka = listing_keys(kept_seq)[perm@[a] as int];
        let kb = listing_keys(kept_seq)[perm@[b] as int];
        assert(!crate::order::key_lt(kb, ka));
    }
    out
}

/// Cheap metadata snapshot entry of a folder item, for change detection.
#[derive(Debug, Clone, PartialEq, Eq)]
pub struct SnapshotEntry {
    pub name: String,
    pub is_dir: bool,
    pub len: u64,
    pub mtime_secs: u64,
}

/// The read snapshot entries that are kept: all but the
/// `Zone.Identifier` markers, in read order.
pub open spec fn kept_snapshot(read: Seq<SnapshotEntry>) -> Seq<SnapshotEntry> {
    read.filter(keeps_snapshot())
}

/// Whether a read snapshot entry is kept.
pub open spec fn keeps_snapshot() -> spec_fn(SnapshotEntry) -> bool {
    |e: SnapshotEntry| !is_zone_marker(e.name@)
}

/// Snapshot entries sort by name only (code point order).
pub open spec fn snapshot_keys(es: Seq<SnapshotEntry>) -> Seq<(bool, Seq<char>)> {
    es.map_values(|e: SnapshotEntry| (false, e.name@))
}

/// `a` and `b` record the same item with the same metadata.
pub open spec fn same_snapshot_entry(a: SnapshotEntry, b: SnapshotEntry) -> bool {
    a.name@ == b.name@ && a.is_dir == b.is_dir && a.len == b.len && a.mtime_secs == b.mtime_secs
}

/// `out` is the snapshot of the folder read `read`: the kept entries
/// sorted by name, ties in read order.
pub open spec fn is_snapshot_of(read: Seq<SnapshotEntry>, out: Seq<SnapshotEntry>) -> bool {
    exists|perm: Seq<usize>|
        {
            &&& is_stable_order(snapshot_keys(kept_snapshot(read)), perm)
            &&& out.len() == perm.len()
            &&& forall|i: int|
                0 <= i < perm.len() ==> same_snapshot_entry(
                    #[trigger] out[i],
                    kept_snapshot(read)[perm[i] as int],
                )
        }
}

/// Sorted metadata snapshot of one folder read: `Zone.Identifier`
/// markers are excluded like in the listing, the rest is sorted by name
/// (ties in read order).
pub fn snapshot(read: &Vec<SnapshotEntry>) -> (r: Vec<SnapshotEntry>)
    ensures
        is_snapshot_of(read@, r@),
{
    let ghost pred = keeps_snapshot();
    let mut kept: Vec<usize> = Vec::new();
    let mut keys: Vec<SortKey> = Vec::new();
    let mut i: usize = 0;
    while i < read.len()
        invariant
            i <= read@.len(),
            pred == keeps_snapshot(),
            kept@.len() == keys@.len(),
            forall|t: int| 0 <= t < kept@.len() ==> #[trigger] kept@[t] < i,
            read@.take(i as int).filter(pred) =~= kept@.map_values(|j: usize| read@[j as int]),
            keys_of(keys@) =~= snapshot_keys(read@.take(i as int).filter(pred)),
        decreases read@.len() - i,
    {
        let name = chars_of(read[i].name.as_str());
        proof {
            assert(read@.take(i + 1) =~= read@.take(i as int).push(read@[i as int]));
            read@.take(i as int).lemma_filter_push(read@[i as int], pred);
        }
        if !zone_marker(&name) {
            let ghost before = read@.take(i as int).filter(pred);
            kept.push(i);
            keys.push(SortKey { first: false, text: name });
            assert(snapshot_keys(before.push(read@[i as int])) =~= snapshot_keys(before).push(
                (false, read@[i as int].name@),
            ));
        }
        i += 1;
    }
    assert(read@.take(read@.len() as int) =~= read@);
    let ghost kept_seq = kept_snapshot(read@);
    assert(kept_seq == read@.filter(pred));
    let perm = stable_order(&keys);
    let mut out: Vec<SnapshotEntry> = Vec::new();
    let mut t: usize = 0;
    while t < perm.len()
        invariant
            t <= perm@.len(),
            kept_seq == kept_snapshot(read@),
            kept_seq =~= kept@.map_values(|j: usize| read@[j as int]),
            is_stable_order(snapshot_keys(kept_seq), perm@),
            kept@.len() == perm@.len(),
            forall|u: int| 0 <= u < kept@.len() ==> #[trigger] kept@[u] < read@.len(),
            out@.len() == t,
            forall|u: int|
                0 <= u < t ==> same_snapshot_entry(#[trigger] out@[u], kept_seq[perm@[u] as int]),
        decreases perm@.len() - t,
    {
        let k = perm[t];
        assert(k < kept@.len());
        let j = kept[k];
        let raw = &read[j];
        out.push(
            SnapshotEntry {
                name: raw.name.clone(),
                is_dir: raw.is_dir,
                len: raw.len,
                mtime_secs: raw.mtime_secs,
            },
        );
        t += 1;
    }
    out
}


/// Mathematical value of a snapshot entry.
pub open spec fn snapshot_view(e: SnapshotEntry) -> (Seq<char>, bool, u64, u64) {
    (e.name@, e.is_dir, e.len, e.mtime_secs)
}

/// Entries strictly increasing by name.
pub open spec fn strictly_by_name(s: Seq<(Seq<char>, bool, u64, u64)>) -> bool {
    forall|i: int, j: int| 0 <= i < j < s.len() ==> seq_lt(#[trigger] s[i].0, #[trigger] s[j].0)
}

/// A sorted order of entries with distinct names is strictly increasing
/// by name.
pub proof fn lemma_distinct_names_sort_strictly(es: Seq<SnapshotEntry>, perm: Seq<usize>)
    requires
        is_stable_order(snapshot_keys(es), perm),
        forall|i: int, j: int| 0 <= i < j < es.len() ==> es[i].name@ != es[j].name@,
    ensures
        forall|i: int, j: int|
            0 <= i < j < perm.len() ==> seq_lt(
                #[trigger] es[perm[i] as int].name@,
                #[trigger] es[perm[j] as int].name@,
            ),
{
    let ks = snapshot_keys(es);
    assert forall|i: int, j: int| 0 <= i < j < perm.len() implies seq_lt(
        #[trigger] es[perm[i] as int].name@,
        #[trigger] es[perm[j] as int].name@,
    ) by {
        let a = perm[i] as int;
        let b = perm[j] as int;
        assert(ks[a] == (false, es[a].name@));
        assert(ks[b] == (false, es[b].name@));
        assert(!key_lt(ks[b], ks[a]));
        assert(a != b);
        if a < b {
            assert(es[a].name@ != es[b].name@);
        } else {
            assert(es[b].name@ != es[a].name@);
        }
        lemma_key_lt_total(ks[a], ks[b]);
    }
}

/// Two snapshots that are strictly sorted by name and hold the same
/// entries are equal: a snapshot does not depend on the order in which
/// the folder was read, only on what it holds.
pub proof fn lemma_snapshot_order_independent(
    a: Seq<(Seq<char>, bool, u64, u64)>,
    b: Seq<(Seq<char>, bool, u64, u64)>,
)
    requires
        strictly_by_name(a),
        strictly_by_name(b),
        a.to_set() == b.to_set(),
    ensures
        a == b,
    decreases a.len(),
{
    broadcast use vstd::seq_lib::group_seq_properties;
    if a.len() == 0 {
        if b.len() > 0 {
            assert(b.to_set().contains(b[0]));
        }
        assert(a =~= b);
    } else {
        assert(a.to_set().contains(a[0]));
        assert(b.len() > 0);
        assert(b.to_set().contains(b[0]));
        let j = choose|j: int| 0 <= j < a.len() && a[j] == b[0];
        let k = choose|k: int| 0 <= k < b.len() && b[k] == a[0];
        if j > 0 && k > 0 {
            assert(seq_lt(a[0].0, a[j].0));
            assert(seq_lt(b[0].0, b[k].0));
            lemma_seq_lt_asymmetric(a[0].0, b[0].0);
        }
        assert(a[0] == b[0]);
        let x = a[0];
        let a1 = a.drop_first();
        let b1 = b.drop_first();
        assert(!a1.contains(x)) by {
            if a1.contains(x) {
                let t = choose|t: int| 0 <= t < a1.len() && a1[t] == x;
                assert(seq_lt(a[0].0, a[t + 1].0));
                lemma_seq_lt_irreflexive(x.0);
            }
        }
        assert(!b1.contains(x)) by {
            if b1.contains(x) {
                let t = choose|t: int| 0 <= t < b1.len() && b1[t] == x;
                assert(seq_lt(b[0].0, b[t + 1].0));
                lemma_seq_lt_irreflexive(x.0);
            }
        }
        assert(a1.to_set() =~= a.to_set().remove(x)) by {
            assert forall|e| a1.to_set().contains(e) <==> a.to_set().remove(x).contains(e) by {
                if a1.contains(e) {
                    let t = choose|t: int| 0 <= t < a1.len() && a1[t] == e;
                    assert(a[t + 1] == e);
                }
                if a.contains(e) && e != x {
                    let t = choose|t: int| 0 <= t < a.len() && a[t] == e;
                    assert(a1[t - 1] == e);
                }
            }
        }
        assert(b1.to_set() =~= b.to_set().remove(x)) by {
            assert forall|e| b1.to_set().contains(e) <==> b.to_set().remove(x).contains(e) by {
                if b1.contains(e) {
                    let t = choose|t: int| 0 <= t < b1.len() && b1[t] == e;
                    assert(b[t + 1] == e);
                }
                if b.contains(e) && e != x {
                    let t = choose|t: int| 0 <= t < b.len() && b[t] == e;
                    assert(b1[t - 1] == e);
                }
            }
        }
        assert(strictly_by_name(a1)) by {
            assert forall|i: int, j: int| 0 <= i < j < a1.len() implies seq_lt(#[trigger] a1[i].0, #[trigger] a1[j].0) by {
                assert(a1[i] == a[i + 1] && a1[j] == a[j + 1]);
            }
        }
        assert(strictly_by_name(b1)) by {
            assert forall|i: int, j: int| 0 <= i < j < b1.len() implies seq_lt(#[trigger] b1[i].0, #[trigger] b1[j].0) by {
                assert(b1[i] == b[i + 1] && b1[j] == b[j + 1]);
            }
        }
        lemma_snapshot_order_independent(a1, b1);
        assert(a =~= b) by {
            assert forall|i: int| 0 <= i < a.len() implies a[i] == b[i] by {
                if i > 0 {
                    assert(a[i] == a1[i - 1]);
                    assert(b[i] == b1[i - 1]);
                }
            }
        }
    }
}

/// Mathematical values of snapshot entries.
pub open spec fn snapshot_views(s: Seq<SnapshotEntry>) -> Seq<(Seq<char>, bool, u64, u64)> {
    s.map_values(|e: SnapshotEntry| snapshot_view(e))
}

/// No two entries share a name, as in one folder.
pub open spec fn distinct_names(s: Seq<SnapshotEntry>) -> bool {
    forall|i: int, j: int| 0 <= i < j < s.len() ==> (#[trigger] s[i]).name@ != (#[trigger] s[j]).name@
}

/// Keeping only some entries keeps the names distinct.
proof fn lemma_filter_distinct_names(s: Seq<SnapshotEntry>, p: spec_fn(SnapshotEntry) -> bool)
    requires
        distinct_names(s),
    ensures
        distinct_names(s.filter(p)),
    decreases s.len(),
{
    reveal(Seq::filter);
    if s.len() > 0 {
        let rest = s.drop_last();
        assert(distinct_names(rest)) by {
            assert forall|i: int, j: int| 0 <= i < j < rest.len() implies (#[trigger] rest[i]).name@
                != (#[trigger] rest[j]).name@ by {
                assert(rest[i] == s[i] && rest[j] == s[j]);
            }
        }
        lemma_filter_distinct_names(rest, p);
        let f = rest.filter(p);
        if p(s.last()) {
            let g = f.push(s.last());
            assert forall|i: int, j: int| 0 <= i < j < g.len() implies (#[trigger] g[i]).name@
                != (#[trigger] g[j]).name@ by {
                if j == g.len() - 1 {
                    assert(f.contains(f[i]));
                    rest.lemma_filter_contains_rev(p, f[i]);
                    let k = choose|k: int| 0 <= k < rest.len() && rest[k] == f[i];
                    assert(s[k] == f[i]);
                    assert(s[k].name@ != s[s.len() - 1].name@);
                } else {
                    assert(g[i] == f[i] && g[j] == f[j]);
                }
            }
        }
    }
}

/// A snapshot of a read with distinct names is strictly sorted by name
/// and holds exactly the read entries that are not markers.
proof fn lemma_snapshot_shape(read: Seq<SnapshotEntry>, out: Seq<SnapshotEntry>)
    requires
        is_snapshot_of(read, out),
        distinct_names(read),
    ensures
        strictly_by_name(snapshot_views(out)),
        forall|v: (Seq<char>, bool, u64, u64)|
            snapshot_views(out).to_set().contains(v) <==> (snapshot_views(read).contains(v)
                && !is_zone_marker(v.0)),
{
    let kept = kept_snapshot(read);
    let pred = keeps_snapshot();
    let perm = choose|perm: Seq<usize>|
        {
            &&& is_stable_order(snapshot_keys(kept), perm)
            &&& out.len() == perm.len()
            &&& forall|i: int|
                0 <= i < perm.len() ==> same_snapshot_entry(#[trigger] out[i], kept[perm[i] as int])
        };
    lemma_filter_distinct_names(read, pred);
    assert forall|i: int, j: int| 0 <= i < j < kept.len() implies kept[i].name@ != kept[j].name@ by {
        assert(distinct_names(kept));
    }
    lemma_distinct_names_sort_strictly(kept, perm);
    let ov = snapshot_views(out);
    assert(strictly_by_name(ov)) by {
        assert forall|i: int, j: int| 0 <= i < j < ov.len() implies seq_lt(#[trigger] ov[i].0, #[trigger] ov[j].0) by {
            assert(same_snapshot_entry(out[i], kept[perm[i] as int]));
            assert(same_snapshot_entry(out[j], kept[perm[j] as int]));
        }
    }
    assert forall|v: (Seq<char>, bool, u64, u64)|
        ov.to_set().contains(v) <==> (snapshot_views(read).contains(v) && !is_zone_marker(v.0)) by {
        if ov.to_set().contains(v) {
            let i = choose|i: int| 0 <= i < ov.len() && ov[i] == v;
            let e = kept[perm[i] as int];
            assert(same_snapshot_entry(out[i], e));
            read.lemma_filter_pred(pred, perm[i] as int);
            assert(kept.contains(e));
            read.lemma_filter_contains_rev(pred, e);
            let k = choose|k: int| 0 <= k < read.len() && read[k] == e;
            assert(snapshot_views(read)[k] == v);
        }
        if snapshot_views(read).contains(v) && !is_zone_marker(v.0) {
            let k = choose|k: int| 0 <= k < read.len() && snapshot_views(read)[k] == v;
            let e = read[k];
            assert(pred(e));
            read.lemma_filter_contains(pred, k);
            let m = choose|m: int| 0 <= m < kept.len() && kept[m] == e;
            crate::order::lemma_stable_order_covers(snapshot_keys(kept), perm, m);
            let i = choose|i: int| 0 <= i < perm.len() && perm[i] as int == m;
            assert(same_snapshot_entry(out[i], kept[perm[i] as int]));
            assert(ov[i] == v);
            assert(ov.contains(v));
        }
    }
}

/// The snapshot changes exactly when the folder's contents do: with
/// each name once per read, as in a folder, two snapshots are equal if
/// and only if the two reads hold the same entries apart from
/// `Zone.Identifier` markers, in whatever order they were read. (With a
/// name read twice, ties keep read order and the law fails.)
pub proof fn lemma_snapshot_tracks_contents(
    read1: Seq<SnapshotEntry>,
    read2: Seq<SnapshotEntry>,
    out1: Seq<SnapshotEntry>,
    out2: Seq<SnapshotEntry>,
)
    requires
        is_snapshot_of(read1, out1),
        is_snapshot_of(read2, out2),
        distinct_names(read1),
        distinct_names(read2),
    ensures
        (snapshot_views(out1) == snapshot_views(out2)) <==> (forall|v: (Seq<char>, bool, u64, u64)|
            !is_zone_marker(v.0) ==> (snapshot_views(read1).contains(v) <==> snapshot_views(
                read2,
            ).contains(v))),
{
    lemma_snapshot_shape(read1, out1);
    lemma_snapshot_shape(read2, out2);
    let same_contents = forall|v: (Seq<char>, bool, u64, u64)|
        !is_zone_marker(v.0) ==> (snapshot_views(read1).contains(v) <==> snapshot_views(
            read2,
        ).contains(v));
    if same_contents {
        assert(snapshot_views(out1).to_set() =~= snapshot_views(out2).to_set()) by {
            assert forall|v: (Seq<char>, bool, u64, u64)|
                snapshot_views(out1).to_set().contains(v) <==> snapshot_views(out2).to_set().contains(v) by {
                if !is_zone_marker(v.0) {
                    assert(snapshot_views(read1).contains(v) <==> snapshot_views(read2).contains(v));
                }
            }
        }
        lemma_snapshot_order_independent(snapshot_views(out1), snapshot_views(out2));
    }
    if snapshot_views(out1) == snapshot_views(out2) {
        assert forall|v: (Seq<char>, bool, u64, u64)|
            !is_zone_marker(v.0) implies (snapshot_views(read1).contains(v) <==> snapshot_views(
                read2,
            ).contains(v)) by {
            assert(snapshot_views(out1).to_set().contains(v) == snapshot_views(out2).to_set().contains(v));
        }
    }
}

/// Reading the same folder twice gives equal snapshots, in whatever
/// order the entries were read (each name once, as in a folder).
pub proof fn lemma_snapshot_read_order_irrelevant(
    read1: Seq<SnapshotEntry>,
    read2: Seq<SnapshotEntry>,
    out1: Seq<SnapshotEntry>,
    out2: Seq<SnapshotEntry>,
)
    requires
        is_snapshot_of(read1, out1),
        is_snapshot_of(read2, out2),
        distinct_names(read1),
        distinct_names(read2),
        snapshot_views(read1).to_set() == snapshot_views(read2).to_set(),
    ensures
        snapshot_views(out1) == snapshot_views(out2),
{
    assert forall|v: (Seq<char>, bool, u64, u64)|
        !is_zone_marker(v.0) implies (snapshot_views(read1).contains(v) <==> snapshot_views(
            read2,
        ).contains(v)) by {
        assert(snapshot_views(read1).contains(v) <==> snapshot_views(read1).to_set().contains(v));
        assert(snapshot_views(read2).contains(v) <==> snapshot_views(read2).to_set().contains(v));
    }
    lemma_snapshot_tracks_contents(read1, read2, out1, out2);
}

/// A new entry that is not a marker changes the snapshot: the snapshot
/// after the entry appeared has one entry more.
pub proof fn lemma_snapshot_sees_new_entry(
    read: Seq<SnapshotEntry>,
    e: SnapshotEntry,
    before: Seq<SnapshotEntry>,
    after: Seq<SnapshotEntry>,
)
    requires
        is_snapshot_of(read, before),
        is_snapshot_of(read.push(e), after),
        !is_zone_marker(e.name@),
    ensures
        after.len() == before.len() + 1,
        snapshot_views(before) != snapshot_views(after),
{
    read.lemma_filter_push(e, keeps_snapshot());
    assert(snapshot_views(before).len() != snapshot_views(after).len());
}

/// Whether the folder changed between the snapshots `old` and `new`:
/// some entry differs in name, kind, size or modification time, or one
/// snapshot has more entries.
pub fn snapshot_changed(old: &Vec<SnapshotEntry>, new: &Vec<SnapshotEntry>) -> (r: bool)
    ensures
        r == (snapshot_views(old@) != snapshot_views(new@)),
{
    if old.len() != new.len() {
        assert(snapshot_views(old@).len() != snapshot_views(new@).len());
        return true;
    }
    let mut i: usize = 0;
    while i < old.len()
        invariant
            i <= old@.len(),
            old@.len() == new@.len(),
            forall|j: int| 0 <= j < i ==> snapshot_view(#[trigger] old@[j]) == snapshot_view(new@[j]),
        decreases old@.len() - i,
    {
        let a = &old[i];
        let b = &new[i];
        if !(a.name == b.name && a.is_dir == b.is_dir && a.len == b.len && a.mtime_secs == b.mtime_secs) {
            assert(snapshot_views(old@)[i as int] != snapshot_views(new@)[i as int]);
            return true;
        }
        i += 1;
    }
    assert(snapshot_views(old@) =~= snapshot_views(new@));
    false
}

// ---------------------------------------------------------------------
// Free names
// ---------------------------------------------------------------------

/// Where the counter of a numbered name goes: before the suffix (the
/// file extension with its dot, or the `.app` suffix of a bundle
/// directory), at the very end for other directories. Leading-dot names
/// never split an extension.
pub open spec fn name_parts(desired: Seq<char>, is_dir: bool) -> (Seq<char>, Seq<char>) {
    if is_dir {
        if ends_with(desired, ".app"@) {
            (desired.take(desired.len() - 4), desired.skip(desired.len() - 4))
        } else {
            (desired, Seq::empty())
        }
    } else {
        let i = last_index_of(desired, '.');
        if i <= 0 {
            (desired, Seq::empty())
        } else {
            (desired.take(i), desired.skip(i))
        }
    }
}

/// The `n`-th numbered variant `stem (n)suffix`.
pub open spec fn numbered(parts: (Seq<char>, Seq<char>), n: nat) -> Seq<char> {
    parts.0 + " ("@ + decimal(n) + ")"@ + parts.1
}

/// `r` is the free variant of `desired` among the `taken` names: `desired`
/// itself when unused, else the first numbered variant from `(2)` on
/// that is unused.
pub open spec fn is_free_variant(taken: Seq<Seq<char>>, desired: Seq<char>, is_dir: bool, r: Seq<char>) -> bool {
    if !taken.contains(desired) {
        r == desired
    } else {
        exists|n: nat|
            #![trigger numbered(name_parts(desired, is_dir), n)]
            n >= 2 && r == numbered(name_parts(desired, is_dir), n) && !taken.contains(r) && forall|m: nat|
                2 <= m < n ==> taken.contains(#[trigger] numbered(name_parts(desired, is_dir), m))
    }
}

/// A decimal representation is never empty, and has one digit exactly
/// below ten.
pub proof fn lemma_decimal_len(n: nat)
    ensures
        decimal(n).len() >= 1,
        (decimal(n).len() == 1) == (n < 10),
    decreases n,
{
    if n >= 10 {
        lemma_decimal_len(n / 10);
    }
}

/// Different numbers have different decimal representations.
pub proof fn lemma_decimal_injective(a: nat, b: nat)
    requires
        decimal(a) == decimal(b),
    ensures
        a == b,
    decreases a,
{
    lemma_decimal_len(a);
    lemma_decimal_len(b);
    if a < 10 {
        assert(decimal(a)[0] == digit_char(a));
        assert(decimal(b)[0] == digit_char(b));
        assert((a + 48) as char == (b + 48) as char);
    } else {
        assert(decimal(a).last() == digit_char(a % 10));
        assert(decimal(b).last() == digit_char(b % 10));
        assert(decimal(a).drop_last() == decimal(a / 10));
        assert(decimal(b).drop_last() == decimal(b / 10));
        assert(a % 10 == b % 10);
        lemma_decimal_injective(a / 10, b / 10);
    }
}

/// Different counters give different numbered names.
pub proof fn lemma_numbered_injective(parts: (Seq<char>, Seq<char>), a: nat, b: nat)
    requires
        numbered(parts, a) == numbered(parts, b),
    ensures
        a == b,
{
    let x = numbered(parts, a);
    let y = numbered(parts, b);
    let lo: int = (parts.0.len() + " ("@.len()) as int;
    assert(x.len() == y.len());
    assert(decimal(a).len() == decimal(b).len());
    assert(x.subrange(lo, lo + decimal(a).len() as int) =~= decimal(a));
    assert(y.subrange(lo, lo + decimal(b).len() as int) =~= decimal(b));
    lemma_decimal_injective(a, b);
}

/// The numbered names with counters in `2..n`.
pub open spec fn numbered_set(parts: (Seq<char>, Seq<char>), n: nat) -> Set<Seq<char>>
    decreases n,
{
    if n <= 2 {
        Set::empty()
    } else {
        numbered_set(parts, (n - 1) as nat).insert(numbered(parts, (n - 1) as nat))
    }
}

/// `numbered_set` is finite, holds exactly the counters `2..n`, and has
/// `n - 2` members.
pub proof fn lemma_numbered_set(parts: (Seq<char>, Seq<char>), n: nat)
    ensures
        numbered_set(parts, n).finite(),
        n >= 2 ==> numbered_set(parts, n).len() == n - 2,
        forall|m: nat| 2 <= m < n ==> numbered_set(parts, n).contains(#[trigger] numbered(parts, m)),
        forall|s: Seq<char>|
            #[trigger] numbered_set(parts, n).contains(s) ==> exists|m: nat| 2 <= m < n && s == numbered(parts, m),
    decreases n,
{
    if n > 2 {
        let k = (n - 1) as nat;
        lemma_numbered_set(parts, k);
        if numbered_set(parts, k).contains(numbered(parts, k)) {
            let m = choose|m: nat| 2 <= m < k && numbered(parts, k) == numbered(parts, m);
            lemma_numbered_injective(parts, k, m);
        }
        assert forall|s: Seq<char>| #[trigger] numbered_set(parts, n).contains(s) implies exists|m: nat|
            2 <= m < n && s == numbered(parts, m) by {
            if s != numbered(parts, k) {
                assert(numbered_set(parts, k).contains(s));
            }
        }
    }
}

/// If all counters `2..n` are taken, there are at least `n - 2` taken
/// names.
pub proof fn lemma_counters_bounded(taken: Seq<Seq<char>>, parts: (Seq<char>, Seq<char>), n: nat)
    requires
        n >= 2,
        forall|m: nat| 2 <= m < n ==> taken.contains(#[trigger] numbered(parts, m)),
    ensures
        n - 2 <= taken.len(),
{
    broadcast use vstd::seq_lib::seq_to_set_is_finite;
    lemma_numbered_set(parts, n);
    assert(numbered_set(parts, n).subset_of(taken.to_set())) by {
        assert forall|s: Seq<char>| #[trigger] numbered_set(parts, n).contains(s) implies taken.to_set().contains(s) by {
            let m = choose|m: nat| 2 <= m < n && s == numbered(parts, m);
            assert(taken.contains(numbered(parts, m)));
        }
    }
    vstd::set_lib::lemma_len_subset(numbered_set(parts, n), taken.to_set());
    taken.lemma_cardinality_of_set();
}

/// Whether `name` is among `taken`.
fn is_taken(taken: &Vec<Vec<char>>, name: &Vec<char>) -> (r: bool)
    ensures
        r == views_of(taken@).contains(name@),
{
    let mut i: usize = 0;
    while i < taken.len()
        invariant
            i <= taken@.len(),
            forall|j: int| 0 <= j < i ==> taken@[j]@ != name@,
        decreases taken@.len() - i,
    {
        if chars_eq(&taken[i], name) {
            assert(views_of(taken@)[i as int] == name@);
            return true;
        }
        i += 1;
    }
    assert forall|j: int| 0 <= j < views_of(taken@).len() implies views_of(taken@)[j] != name@ by {
        assert(views_of(taken@)[j] == taken@[j]@);
    }
    false
}

/// Counter position of `desired` (see `name_parts`).
fn split_name(desired: &Vec<char>, is_dir: bool) -> (r: (Vec<char>, Vec<char>))
    ensures
        (r.0@, r.1@) == name_parts(desired@, is_dir),
{
    if is_dir {
        if ends_with_lit(desired, ".app") {
            proof {
                reveal_strlit(".app");
            }
            let cut = desired.len() - 4;
            (slice_of(desired, 0, cut), slice_of(desired, cut, desired.len()))
        } else {
            (slice_of(desired, 0, desired.len()), Vec::new())
        }
    } else {
        proof {
            lemma_last_index_of(desired@, '.');
        }
        assert(desired@.take(desired@.len() as int) =~= desired@);
        match rfind_char(desired, desired.len(), '.') {
            Some(i) if i > 0 => (slice_of(desired, 0, i), slice_of(desired, i, desired.len())),
            _ => (slice_of(desired, 0, desired.len()), Vec::new()),
        }
    }
}

/// Free variant of a desired on-disk name among the names already in the
/// folder: `desired` when unused, else `stem (2)`, `stem (3)`, ... The
/// counter goes before the file extension (`wallpaper (2).png`), at the
/// very end for directories (`Docs (2)`), and before the `.app` suffix
/// for bundles (`Demo (2).app`).
pub fn unique_name(taken: &Vec<String>, desired: &str, is_dir: bool) -> (r: String)
    ensures
        is_free_variant(views_of_strings(taken@), desired@, is_dir, r@),
{
    let mut names: Vec<Vec<char>> = Vec::new();
    let mut i: usize = 0;
    while i < taken.len()
        invariant
            i <= taken@.len(),
            views_of(names@) =~= views_of_strings(taken@).take(i as int),
        decreases taken@.len() - i,
    {
        let ghost before = names@;
        names.push(chars_of(taken[i].as_str()));
        assert(views_of(names@) =~= views_of(before).push(taken@[i as int]@));
        i += 1;
    }
    assert(views_of_strings(taken@).take(taken@.len() as int) =~= views_of_strings(taken@));
    let ghost tk = views_of_strings(taken@);
    let want = chars_of(desired);
    if !is_taken(&names, &want) {
        return string_of(&want);
    }
    let parts = split_name(&want, is_dir);
    let ghost ps = (parts.0@, parts.1@);
    let mut n: u128 = 2;
    loop
        invariant
            views_of(names@) == tk,
            tk == views_of_strings(taken@),
            tk.len() == taken@.len(),
            taken@.len() <= usize::MAX,
            ps == name_parts(desired@, is_dir),
            (parts.0@, parts.1@) == ps,
            tk.contains(desired@),
            2 <= n,
            n - 2 <= tk.len(),
            forall|m: nat| 2 <= m < n ==> tk.contains(#[trigger] numbered(ps, m)),
        decreases tk.len() + 2 - n,
    {
        let mut cand = slice_of(&parts.0, 0, parts.0.len());
        extend_chars(&mut cand, &chars_of(" ("));
        push_decimal(&mut cand, n);
        extend_chars(&mut cand, &chars_of(")"));
        extend_chars(&mut cand, &parts.1);
        assert(cand@ =~= numbered(ps, n as nat));
        if !is_taken(&names, &cand) {
            let r = string_of(&cand);
            assert(is_free_variant(tk, desired@, is_dir, r@)) by {
                assert(tk.contains(desired@));
                assert(numbered(name_parts(desired@, is_dir), n as nat) == r@);
                assert forall|m: nat| 2 <= m < n implies tk.contains(
                    #[trigger] numbered(name_parts(desired@, is_dir), m),
                ) by {
                    assert(tk.contains(numbered(ps, m)));
                }
            }
            return r;
        }
        proof {
            lemma_counters_bounded(tk, ps, (n + 1) as nat);
        }
        n += 1;
    }
}

/// Character views of a list of strings.
pub open spec fn views_of_strings(v: Seq<String>) -> Seq<Seq<char>> {
    v.map_values(|s: String| s@)
}

/// The name `unique_name` picks is never one of the taken names.
pub proof fn lemma_free_variant_is_free(taken: Seq<Seq<char>>, desired: Seq<char>, is_dir: bool, r: Seq<char>)
    requires
        is_free_variant(taken, desired, is_dir, r),
    ensures
        !taken.contains(r),
{
}

/// Where the counter of a free name goes. The desired name itself when
/// it is free; otherwise a ` (n)` counter with `n >= 2`, placed at the
/// very end for a folder (`Docs (2)`), before the `.app` suffix for a
/// bundle folder (`Demo (2).app`), and before the last `.` of a file
/// name that has a dot past its first character (`wallpaper (2).png`,
/// else at the end: `README (2)`, `.profile (2)`).
pub proof fn lemma_free_name_shape(taken: Seq<Seq<char>>, desired: Seq<char>, is_dir: bool, r: Seq<char>)
    requires
        is_free_variant(taken, desired, is_dir, r),
    ensures
        !taken.contains(desired) ==> r == desired,
        taken.contains(desired) ==> r != desired,
        is_dir && !ends_with(desired, ".app"@) && taken.contains(desired) ==> exists|n: nat|
            n >= 2 && r == desired + seq![' ', '('] + #[trigger] decimal(n) + seq![')'],
        is_dir && ends_with(desired, ".app"@) && taken.contains(desired) ==> exists|n: nat|
            n >= 2 && r == desired.take(desired.len() - 4) + seq![' ', '('] + #[trigger] decimal(n)
                + seq![')'] + desired.skip(desired.len() - 4),
        !is_dir && taken.contains(desired) ==> exists|n: nat, k: int|
            #![trigger decimal(n), desired.take(k)]
            n >= 2 && 0 <= k <= desired.len() && r == desired.take(k) + seq![' ', '('] + decimal(n)
                + seq![')'] + desired.skip(k) && (k == desired.len() || (k > 0 && desired[k] == '.'
                && forall|j: int| k < j < desired.len() ==> desired[j] != '.')) && (k
                == desired.len() ==> forall|j: int| 0 < j < desired.len() ==> desired[j] != '.'),
{
    reveal_strlit(" (");
    reveal_strlit(")");
    lemma_free_variant_is_free(taken, desired, is_dir, r);
    if taken.contains(desired) {
        let parts = name_parts(desired, is_dir);
        let n = choose|n: nat|
            #![trigger numbered(parts, n)]
            n >= 2 && r == numbered(parts, n) && !taken.contains(r) && forall|m: nat|
                2 <= m < n ==> taken.contains(#[trigger] numbered(parts, m));
        let c = seq![' ', '('] + decimal(n) + seq![')'];
        assert(numbered(parts, n) =~= parts.0 + c + parts.1);
        if is_dir {
            if ends_with(desired, ".app"@) {
                assert(r =~= desired.take(desired.len() - 4) + seq![' ', '('] + decimal(n) + seq![')']
                    + desired.skip(desired.len() - 4));
            } else {
                assert(r =~= desired + seq![' ', '('] + decimal(n) + seq![')']);
            }
        } else {
            lemma_last_index_of(desired, '.');
            let i = last_index_of(desired, '.');
            if i <= 0 {
                let k = desired.len() as int;
                assert(desired.take(k) =~= desired);
                assert(desired.skip(k) =~= Seq::<char>::empty());
                assert(r =~= desired.take(k) + seq![' ', '('] + decimal(n) + seq![')'] + desired.skip(k));
            } else {
                assert(r =~= desired.take(i) + seq![' ', '('] + decimal(n) + seq![')'] + desired.skip(i));
            }
        }
    }
}

} // verus!
