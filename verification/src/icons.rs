//! Icon lookup for Finder: which file under `Resources/` each icon is,
//! where it is looked for, cache file names for rendered thumbnails and
//! app icons, how an app bundle's icon is found, and the rounded-corner
//! mask baked into previews.

use vstd::prelude::*;
use crate::model::opt_string;
use crate::path::{join, join_chars, join_path, path_stem, file_name_chars, stem_chars};
use crate::text::{chars_of, decimal, ends_with, ends_with_chars, extend_chars, push_decimal,
    slice_of, string_of};

verus! {

// ---------------------------------------------------------------------
// Resource files
// ---------------------------------------------------------------------

/// Character views of a list of strings.
pub open spec fn strings_view(v: Seq<String>) -> Seq<Seq<char>> {
    v.map_values(|s: String| s@)
}

/// `base` joined with each of `parts` in turn.
pub open spec fn join_all(base: Seq<char>, parts: Seq<Seq<char>>) -> Seq<char>
    decreases parts.len(),
{
    if parts.len() == 0 {
        base
    } else {
        join(join_all(base, parts.drop_last()), parts.last())
    }
}

/// Index of the first `true`, or `-1` when there is none.
pub open spec fn first_true(flags: Seq<bool>) -> int
    decreases flags.len(),
{
    if flags.len() == 0 {
        -1
    } else if flags[0] {
        0
    } else if first_true(flags.drop_first()) < 0 {
        -1
    } else {
        first_true(flags.drop_first()) + 1
    }
}

/// `first_true` is the first `true`, or there is none.
pub proof fn lemma_first_true(flags: Seq<bool>)
    ensures
        -1 <= first_true(flags) < flags.len(),
        first_true(flags) >= 0 ==> flags[first_true(flags)],
        forall|j: int| 0 <= j < flags.len() && (j < first_true(flags) || first_true(flags) < 0) ==> !flags[j],
    decreases flags.len(),
{
    if flags.len() > 0 && !flags[0] {
        lemma_first_true(flags.drop_first());
        assert forall|j: int|
            0 <= j < flags.len() && (j < first_true(flags) || first_true(flags) < 0) implies !flags[j] by {
            if j > 0 {
                assert(flags[j] == flags.drop_first()[j - 1]);
            }
        }
    }
}

/// `Resources/foldericons/<size>/<file>`, relative to a `Resources/` folder.
pub fn icon_path(size: &str, file: &str) -> (r: Vec<String>)
    ensures
        strings_view(r@) == seq!["foldericons"@, size@, file@],
{
    let mut parts: Vec<String> = Vec::new();
    parts.push("foldericons".to_owned());
    parts.push(size.to_owned());
    parts.push(file.to_owned());
    assert(strings_view(parts@) =~= seq!["foldericons"@, size@, file@]);
    parts
}

/// A full-color grid icon from `foldericons/scalable/`.
pub fn folder_icon(file: &str) -> (r: Vec<String>)
    ensures
        strings_view(r@) == seq!["foldericons"@, "scalable"@, file@],
{
    icon_path("scalable", file)
}

/// A document icon from `extensionicons/`.
pub fn extension_icon(file: &str) -> (r: Vec<String>)
    ensures
        strings_view(r@) == seq!["extensionicons"@, file@],
{
    let mut parts: Vec<String> = Vec::new();
    parts.push("extensionicons".to_owned());
    parts.push(file.to_owned());
    assert(strings_view(parts@) =~= seq!["extensionicons"@, file@]);
    parts
}

/// Themed icon for archive files (`extensionicons/zip.png`).
pub fn archive_icon() -> (r: Vec<String>)
    ensures
        strings_view(r@) == seq!["extensionicons"@, "zip.png"@],
{
    extension_icon("zip.png")
}

/// Generic file icon (`extensionicons/basis.png`) for files without a
/// specific document icon.
pub fn generic_file_icon() -> (r: Vec<String>)
    ensures
        strings_view(r@) == seq!["extensionicons"@, "basis.png"@],
{
    extension_icon("basis.png")
}

/// Themed icon for audio files (`extensionicons/audio.png`).
pub fn audio_icon() -> (r: Vec<String>)
    ensures
        strings_view(r@) == seq!["extensionicons"@, "audio.png"@],
{
    extension_icon("audio.png")
}

/// Themed fallback icon for video files without a cached thumbnail
/// (`foldericons/scalable/blue-folder-videos.svg`).
pub fn video_icon() -> (r: Vec<String>)
    ensures
        strings_view(r@) == seq!["foldericons"@, "scalable"@, "blue-folder-videos.svg"@],
{
    folder_icon("blue-folder-videos.svg")
}

/// Placeholder for photos that cannot be decoded
/// (`extensionicons/image.png`).
pub fn image_placeholder() -> (r: Vec<String>)
    ensures
        strings_view(r@) == seq!["extensionicons"@, "image.png"@],
{
    extension_icon("image.png")
}

/// Placeholder for video files without a cached thumbnail
/// (`extensionicons/video.png`).
pub fn video_placeholder() -> (r: Vec<String>)
    ensures
        strings_view(r@) == seq!["extensionicons"@, "video.png"@],
{
    extension_icon("video.png")
}

/// `base` joined with each of `parts` in turn.
fn join_all_chars(base: &Vec<char>, parts: &Vec<String>) -> (r: Vec<char>)
    ensures
        r@ == join_all(base@, strings_view(parts@)),
{
    let mut path = slice_of(base, 0, base.len());
    assert(path@ =~= base@);
    let mut i: usize = 0;
    while i < parts.len()
        invariant
            i <= parts@.len(),
            path@ == join_all(base@, strings_view(parts@).take(i as int)),
        decreases parts@.len() - i,
    {
        let ghost views = strings_view(parts@);
        assert(views.take(i + 1).drop_last() =~= views.take(i as int));
        path = join_chars(&path, &chars_of(parts[i].as_str()));
        i += 1;
    }
    assert(strings_view(parts@).take(parts@.len() as int) =~= strings_view(parts@));
    path
}

/// The places, in lookup order, where the resource `parts` may be: one
/// per candidate `Resources/` folder in `dirs`.
pub fn resource_candidates(dirs: &Vec<String>, parts: &Vec<String>) -> (r: Vec<String>)
    ensures
        r@.len() == dirs@.len(),
        forall|i: int|
            0 <= i < dirs@.len() ==> (#[trigger] r@[i])@ == join_all(dirs@[i]@, strings_view(parts@)),
{
    let mut out: Vec<String> = Vec::new();
    let mut i: usize = 0;
    while i < dirs.len()
        invariant
            i <= dirs@.len(),
            out@.len() == i,
            forall|t: int|
                0 <= t < i ==> (#[trigger] out@[t])@ == join_all(dirs@[t]@, strings_view(parts@)),
        decreases dirs@.len() - i,
    {
        let path = join_all_chars(&chars_of(dirs[i].as_str()), parts);
        out.push(string_of(&path));
        i += 1;
    }
    out
}

/// The resource `parts` resolved in the first candidate folder of
/// `dirs` where it exists: `present[i]` tells whether
/// `resource_candidates(dirs, parts)[i]` is a file. `None` when no
/// candidate holds the file.
pub fn resources_file(dirs: &Vec<String>, parts: &Vec<String>, present: &Vec<bool>) -> (r: Option<
    String,
>)
    requires
        present@.len() == dirs@.len(),
    ensures
        opt_string(r) == (if first_true(present@) < 0 {
            None
        } else {
            Some(join_all(dirs@[first_true(present@)]@, strings_view(parts@)))
        }),
{
    proof {
        lemma_first_true(present@);
    }
    let mut i: usize = 0;
    while i < present.len()
        invariant
            i <= present@.len(),
            present@.len() == dirs@.len(),
            forall|j: int| 0 <= j < i ==> !present@[j],
            -1 <= first_true(present@) < present@.len(),
            first_true(present@) >= 0 ==> present@[first_true(present@)],
            forall|j: int|
                0 <= j < present@.len() && (j < first_true(present@) || first_true(present@) < 0)
                    ==> !present@[j],
        decreases present@.len() - i,
    {
        if present[i] {
            assert(first_true(present@) == i);
            let path = join_all_chars(&chars_of(dirs[i].as_str()), parts);
            return Some(string_of(&path));
        }
        i += 1;
    }
    None
}

// ---------------------------------------------------------------------
// Cache file names
// ---------------------------------------------------------------------

/// A stem with `.`, ` ` and `-` replaced by `_`.
pub open spec fn sanitized(s: Seq<char>) -> Seq<char> {
    s.map_values(|c: char| if c == '.' || c == ' ' || c == '-' { '_' } else { c })
}

/// Cache file name `<prefix>_<stem>_<len>_<mtime>.png` (size plus mtime
/// in the key, so edited sources regenerate).
pub open spec fn cache_name_of(prefix: Seq<char>, stem: Seq<char>, len: nat, mtime: nat) -> Seq<char> {
    prefix + seq!['_'] + sanitized(stem) + seq!['_'] + decimal(len) + seq!['_'] + decimal(mtime)
        + ".png"@
}

/// Cache path in `dir` for the source `source`: `None` when the source
/// path has no file name.
pub open spec fn cache_path_of(
    dir: Seq<char>,
    prefix: Seq<char>,
    source: Seq<char>,
    len: nat,
    mtime: nat,
) -> Option<Seq<char>> {
    match path_stem(source) {
        Some(stem) => Some(join(dir, cache_name_of(prefix, stem, len, mtime))),
        None => None,
    }
}

/// Cache path in `dir` named after `source` plus its size and mtime.
fn cache_path(dir: &str, prefix: &str, source: &str, len: u64, mtime: u64) -> (r: Option<String>)
    ensures
        opt_string(r) == cache_path_of(dir@, prefix@, source@, len as nat, mtime as nat),
{
    let src = chars_of(source);
    let file = match file_name_chars(&src) {
        Some(f) => f,
        None => return None,
    };
    let stem = stem_chars(&file);
    let mut name = chars_of(prefix);
    name.push('_');
    let mut i: usize = 0;
    let ghost start = name@;
    while i < stem.len()
        invariant
            i <= stem@.len(),
            name@ == start + sanitized(stem@.take(i as int)),
        decreases stem@.len() - i,
    {
        let c = stem[i];
        let d = if c == '.' || c == ' ' || c == '-' {
            '_'
        } else {
            c
        };
        name.push(d);
        i += 1;
        assert(name@ =~= start + sanitized(stem@.take(i as int)));
    }
    assert(stem@.take(stem@.len() as int) =~= stem@);
    name.push('_');
    push_decimal(&mut name, len as u128);
    name.push('_');
    push_decimal(&mut name, mtime as u128);
    extend_chars(&mut name, &chars_of(".png"));
    assert(name@ =~= cache_name_of(prefix@, stem@, len as nat, mtime as nat));
    Some(join_path(dir, string_of(&name).as_str()))
}

/// Cache path of the extracted video frame for `source` (size `len`,
/// modified at `mtime_secs`) inside the thumbnail folder `thumb_dir`.
pub fn thumb_key(thumb_dir: &str, source: &str, len: u64, mtime_secs: u64) -> (r: Option<String>)
    ensures
        opt_string(r) == cache_path_of(thumb_dir@, "thumb"@, source@, len as nat, mtime_secs as nat),
{
    cache_path(thumb_dir, "thumb", source, len, mtime_secs)
}

/// Cache path of the rendered app icon for the `.app` entry `entry`
/// inside the temp folder `temp_dir`.
pub fn app_icon_key(temp_dir: &str, entry: &str, len: u64, mtime_secs: u64) -> (r: Option<String>)
    ensures
        opt_string(r) == cache_path_of(
            temp_dir@,
            "finder-appicon"@,
            entry@,
            len as nat,
            mtime_secs as nat,
        ),
{
    cache_path(temp_dir, "finder-appicon", entry, len, mtime_secs)
}

/// Temp path for the raw icon extracted from the `.app` archive `archive`.
pub fn archive_icon_key(temp_dir: &str, archive: &str, len: u64, mtime_secs: u64) -> (r: Option<
    String,
>)
    ensures
        opt_string(r) == cache_path_of(
            temp_dir@,
            "finder-approw"@,
            archive@,
            len as nat,
            mtime_secs as nat,
        ),
{
    cache_path(temp_dir, "finder-approw", archive, len, mtime_secs)
}

/// Side of the square grid artwork and of the cached photo previews, in
/// pixels.
pub const PREVIEW_SIZE: u32 = 48;

/// Cache path of the rounded grid preview of the photo `source` (size
/// `len`, modified at `mtime_secs`) inside the preview folder
/// `preview_dir`.
pub fn preview_key(preview_dir: &str, source: &str, len: u64, mtime_secs: u64) -> (r: Option<
    String,
>)
    ensures
        opt_string(r) == cache_path_of(
            preview_dir@,
            "preview"@,
            source@,
            len as nat,
            mtime_secs as nat,
        ),
{
    cache_path(preview_dir, "preview", source, len, mtime_secs)
}

/// A decimal representation holds digits only, never `_`.
proof fn lemma_decimal_has_no_underscore(n: nat)
    ensures
        forall|i: int| 0 <= i < decimal(n).len() ==> decimal(n)[i] != '_',
    decreases n,
{
    if n >= 10 {
        lemma_decimal_has_no_underscore(n / 10);
        assert(decimal(n) == decimal(n / 10).push(crate::text::digit_char(n % 10)));
    }
    let d = n % 10;
    assert((d + 48) as char != '_') by {
        assert(48 <= d + 48 < 58);
    }
}

/// `a_b` splits uniquely at the `_` when `a` holds no `_`.
proof fn lemma_split_at_underscore(a: Seq<char>, b: Seq<char>, c: Seq<char>, d: Seq<char>)
    requires
        forall|i: int| 0 <= i < a.len() ==> a[i] != '_',
        forall|i: int| 0 <= i < c.len() ==> c[i] != '_',
        a + seq!['_'] + b == c + seq!['_'] + d,
    ensures
        a == c,
        b == d,
{
    let x = a + seq!['_'] + b;
    let y = c + seq!['_'] + d;
    if a.len() < c.len() {
        assert(x[a.len() as int] == '_');
        assert(y[a.len() as int] == c[a.len() as int]);
    } else if c.len() < a.len() {
        assert(y[c.len() as int] == '_');
        assert(x[c.len() as int] == a[c.len() as int]);
    }
    assert(a =~= x.subrange(0, a.len() as int));
    assert(c =~= y.subrange(0, c.len() as int));
    assert(b =~= x.subrange(a.len() as int + 1, x.len() as int));
    assert(d =~= y.subrange(c.len() as int + 1, y.len() as int));
}

/// A cache path changes whenever the size or the modification time of
/// its source changes, so an edited source is rendered again instead of
/// being served from a stale cache file.
pub proof fn lemma_cache_path_tracks_edits(
    dir: Seq<char>,
    prefix: Seq<char>,
    source: Seq<char>,
    len1: nat,
    mtime1: nat,
    len2: nat,
    mtime2: nat,
)
    requires
        path_stem(source) is Some,
        prefix.len() == 0 || prefix[0] != '/',
        len1 != len2 || mtime1 != mtime2,
    ensures
        cache_path_of(dir, prefix, source, len1, mtime1) != cache_path_of(
            dir,
            prefix,
            source,
            len2,
            mtime2,
        ),
{
    reveal_strlit(".png");
    let stem = path_stem(source)->0;
    let head = prefix + seq!['_'] + sanitized(stem) + seq!['_'];
    let n1 = cache_name_of(prefix, stem, len1, mtime1);
    let n2 = cache_name_of(prefix, stem, len2, mtime2);
    let t1 = decimal(len1) + seq!['_'] + decimal(mtime1);
    let t2 = decimal(len2) + seq!['_'] + decimal(mtime2);
    assert(n1 =~= head + t1 + ".png"@);
    assert(n2 =~= head + t2 + ".png"@);
    if cache_path_of(dir, prefix, source, len1, mtime1) == cache_path_of(dir, prefix, source, len2, mtime2) {
        assert(n1[0] != '/' && n2[0] != '/') by {
            assert(n1[0] == head[0] && n2[0] == head[0]);
            if prefix.len() == 0 {
                assert(head[0] == '_');
            } else {
                assert(head[0] == prefix[0]);
            }
        }
        let j1 = join(dir, n1);
        let j2 = join(dir, n2);
        assert(j1 == j2);
        let sep = if dir.len() == 0 || dir.last() == '/' { dir } else { dir + seq!['/'] };
        assert(j1 =~= sep + n1);
        assert(j2 =~= sep + n2);
        assert(n1 =~= j1.subrange(sep.len() as int, j1.len() as int));
        assert(n2 =~= j2.subrange(sep.len() as int, j2.len() as int));
        assert(t1 =~= n1.subrange(head.len() as int, n1.len() - 4));
        assert(t2 =~= n2.subrange(head.len() as int, n2.len() - 4));
        lemma_decimal_has_no_underscore(len1);
        lemma_decimal_has_no_underscore(len2);
        lemma_split_at_underscore(decimal(len1), decimal(mtime1), decimal(len2), decimal(mtime2));
        crate::model::lemma_decimal_injective(len1, len2);
        crate::model::lemma_decimal_injective(mtime1, mtime2);
    }
}


// ---------------------------------------------------------------------
// Video frames
// ---------------------------------------------------------------------

/// `ffmpeg` arguments that extract the frame at one second of `source`,
/// scaled to 320 pixels wide, into `cached` (overwriting it, errors
/// only).
pub fn ffmpeg_frame_args(source: &str, cached: &str) -> (r: Vec<String>)
    ensures
        strings_view(r@) == seq![
            "-y"@,
            "-v"@,
            "error"@,
            "-ss"@,
            "1"@,
            "-i"@,
            source@,
            "-vframes"@,
            "1"@,
            "-vf"@,
            "scale=320:-1"@,
            cached@,
        ],
{
    let mut v: Vec<String> = Vec::new();
    v.push("-y".to_owned());
    v.push("-v".to_owned());
    v.push("error".to_owned());
    v.push("-ss".to_owned());
    v.push("1".to_owned());
    v.push("-i".to_owned());
    v.push(source.to_owned());
    v.push("-vframes".to_owned());
    v.push("1".to_owned());
    v.push("-vf".to_owned());
    v.push("scale=320:-1".to_owned());
    v.push(cached.to_owned());
    assert(strings_view(v@) =~= seq![
        "-y"@,
        "-v"@,
        "error"@,
        "-ss"@,
        "1"@,
        "-i"@,
        source@,
        "-vframes"@,
        "1"@,
        "-vf"@,
        "scale=320:-1"@,
        cached@,
    ]);
    v
}

// ---------------------------------------------------------------------
// App bundle icons
// ---------------------------------------------------------------------

/// Icon files inside a `.app` bundle, in lookup order (the bundle layout
/// puts the project icon in both `App/` and `Resources/`).
pub open spec fn app_icon_candidates() -> Seq<Seq<char>> {
    seq!["Resources/icon.png"@, "App/icon.png"@, "Resources/app_icon.png"@]
}

/// The icon candidates of `app_icon_candidates`, in order.
fn app_icon_candidate_list() -> (r: Vec<String>)
    ensures
        strings_view(r@) == app_icon_candidates(),
{
    let mut v: Vec<String> = Vec::new();
    v.push("Resources/icon.png".to_owned());
    v.push("App/icon.png".to_owned());
    v.push("Resources/app_icon.png".to_owned());
    assert(strings_view(v@) =~= app_icon_candidates());
    v
}

/// Raw icon candidates of a `.app` bundle directory, in lookup order:
/// the bundle path joined with each of `app_icon_candidates`.
pub fn bundle_icon_candidates(bundle: &str) -> (r: Vec<String>)
    ensures
        r@.len() == app_icon_candidates().len(),
        forall|i: int|
            0 <= i < r@.len() ==> (#[trigger] r@[i])@ == join(bundle@, app_icon_candidates()[i]),
{
    let cands = app_icon_candidate_list();
    let mut out: Vec<String> = Vec::new();
    let mut i: usize = 0;
    while i < cands.len()
        invariant
            i <= cands@.len(),
            strings_view(cands@) == app_icon_candidates(),
            out@.len() == i,
            forall|t: int|
                0 <= t < i ==> (#[trigger] out@[t])@ == join(bundle@, app_icon_candidates()[t]),
        decreases cands@.len() - i,
    {
        out.push(join_path(bundle, cands[i].as_str()));
        i += 1;
    }
    out
}

/// Index of the first name in `names` that ends with `suffix`, or `-1`.
pub open spec fn first_ending(names: Seq<Seq<char>>, suffix: Seq<char>) -> int
    decreases names.len(),
{
    if names.len() == 0 {
        -1
    } else if ends_with(names[0], suffix) {
        0
    } else if first_ending(names.drop_first(), suffix) < 0 {
        -1
    } else {
        first_ending(names.drop_first(), suffix) + 1
    }
}

/// `first_ending` stays in range.
pub proof fn lemma_first_ending(names: Seq<Seq<char>>, suffix: Seq<char>)
    ensures
        -1 <= first_ending(names, suffix) < names.len(),
        first_ending(names, suffix) >= 0 ==> ends_with(names[first_ending(names, suffix)], suffix),
        forall|j: int|
            0 <= j < names.len() && (j < first_ending(names, suffix) || first_ending(names, suffix)
                < 0) ==> !ends_with(#[trigger] names[j], suffix),
    decreases names.len(),
{
    if names.len() > 0 && !ends_with(names[0], suffix) {
        lemma_first_ending(names.drop_first(), suffix);
        assert forall|j: int|
            0 <= j < names.len() && (j < first_ending(names, suffix) || first_ending(names, suffix)
                < 0) implies !ends_with(#[trigger] names[j], suffix) by {
            if j > 0 {
                assert(names[j] == names.drop_first()[j - 1]);
            }
        }
    }
}

/// Entry of a `.app` archive holding its icon: for the first candidate of
/// `app_icon_candidates` that some entry name ends with (entries may sit
/// behind a top-level `<Name>.app/` prefix), the first such entry.
pub open spec fn archive_entry_of(names: Seq<Seq<char>>) -> Option<Seq<char>> {
    let c = app_icon_candidates();
    if first_ending(names, c[0]) >= 0 {
        Some(names[first_ending(names, c[0])])
    } else if first_ending(names, c[1]) >= 0 {
        Some(names[first_ending(names, c[1])])
    } else if first_ending(names, c[2]) >= 0 {
        Some(names[first_ending(names, c[2])])
    } else {
        None
    }
}

/// Index of the first name in `names` that ends with `suffix`.
fn find_ending(names: &Vec<String>, suffix: &Vec<char>) -> (r: Option<usize>)
    ensures
        match r {
            Some(i) => i < names@.len() && i as int == first_ending(strings_view(names@), suffix@),
            None => first_ending(strings_view(names@), suffix@) < 0,
        },
{
    let ghost views = strings_view(names@);
    proof {
        lemma_first_ending(views, suffix@);
    }
    let mut i: usize = 0;
    while i < names.len()
        invariant
            i <= names@.len(),
            views == strings_view(names@),
            views.len() == names@.len(),
            forall|j: int| 0 <= j < i ==> !ends_with(#[trigger] views[j], suffix@),
            -1 <= first_ending(views, suffix@) < views.len(),
            first_ending(views, suffix@) >= 0 ==> ends_with(views[first_ending(views, suffix@)], suffix@),
            forall|j: int|
                0 <= j < views.len() && (j < first_ending(views, suffix@) || first_ending(views, suffix@)
                    < 0) ==> !ends_with(#[trigger] views[j], suffix@),
        decreases names@.len() - i,
    {
        let name = chars_of(names[i].as_str());
        assert(views[i as int] == name@);
        if ends_with_chars(&name, suffix) {
            return Some(i);
        }
        i += 1;
    }
    None
}

/// The entry of a `.app` ZIP archive that holds its icon, chosen from the
/// archive's entry names (see `archive_entry_of`).
pub fn archive_icon_entry(names: &Vec<String>) -> (r: Option<String>)
    ensures
        opt_string(r) == archive_entry_of(strings_view(names@)),
{
    let cands = app_icon_candidate_list();
    assert(cands@.len() == strings_view(cands@).len());
    let mut k: usize = 0;
    while k < cands.len()
        invariant
            k <= cands@.len(),
            cands@.len() == 3,
            strings_view(cands@) == app_icon_candidates(),
            forall|t: int| 0 <= t < k ==> first_ending(strings_view(names@), #[trigger] app_icon_candidates()[t]) < 0,
        decreases cands@.len() - k,
    {
        let suffix = chars_of(cands[k].as_str());
        assert(suffix@ == app_icon_candidates()[k as int]);
        match find_ending(names, &suffix) {
            Some(i) => {
                let hit = names[i].clone();
                proof {
                    assert(strings_view(names@)[i as int] == names@[i as int]@);
                    if k >= 1 {
                        assert(first_ending(strings_view(names@), app_icon_candidates()[0]) < 0);
                    }
                    if k >= 2 {
                        assert(first_ending(strings_view(names@), app_icon_candidates()[1]) < 0);
                    }
                }
                return Some(hit);
            },
            None => {},
        }
        k += 1;
    }
    assert(first_ending(strings_view(names@), app_icon_candidates()[0]) < 0);
    assert(first_ending(strings_view(names@), app_icon_candidates()[1]) < 0);
    assert(first_ending(strings_view(names@), app_icon_candidates()[2]) < 0);
    None
}

/// What `serde_json` finds as the string field `key` of the JSON object
/// in `text`: `None` when the text does not parse, has no such field or
/// the field is not a string.
pub uninterp spec fn json_string_field(text: Seq<char>, key: Seq<char>) -> Option<Seq<char>>;

/// `serde_json::from_str::<Value>(text)`, then the string field `key`
/// (`Value::get` plus `Value::as_str`). The contract only names the
/// outcome; what parses is left to `serde_json`.
#[verifier::external_body]
fn json_str_field(text: &str, key: &str) -> (r: Option<String>)
    ensures
        opt_string(r) == json_string_field(text@, key@),
{
    let value: serde_json::Value = serde_json::from_str(text).ok()?;
    value.get(key)?.as_str().map(|s| s.to_string())
}

/// The icon named by a bundle's `tontoo.proj` (its `icon` field,
/// relative to the bundle folder), given the project file's text.
pub open spec fn proj_icon_of(bundle: Seq<char>, proj: Seq<char>) -> Option<Seq<char>> {
    match json_string_field(proj, "icon"@) {
        Some(icon) => Some(join(bundle, icon)),
        None => None,
    }
}

/// Path of the icon that the bundle project file `proj` (the text of
/// `<bundle>/tontoo.proj`) names in its `icon` field.
pub fn proj_icon_path(bundle: &str, proj: &str) -> (r: Option<String>)
    ensures
        opt_string(r) == proj_icon_of(bundle@, proj@),
{
    match json_str_field(proj, "icon") {
        Some(icon) => Some(join_path(bundle, icon.as_str())),
        None => None,
    }
}


// ---------------------------------------------------------------------
// Rounded corners
// ---------------------------------------------------------------------

/// An RGBA image: `width` x `height` pixels of four bytes each, row by
/// row.
pub struct PixelBuffer {
    width: u32,
    height: u32,
    data: Vec<u8>,
}

impl PixelBuffer {
    /// The byte count matches the dimensions (see
    /// `lemma_wf_is_byte_count`).
    pub closed spec fn wf(&self) -> bool {
        self.data@.len() == 4 * (self.width as int) * (self.height as int)
    }

    /// An image is well formed exactly when it holds four bytes per
    /// pixel.
    pub proof fn lemma_wf_is_byte_count(&self)
        ensures
            self.wf() == (self.spec_bytes().len() == 4 * (self.spec_width() as int) * (
            self.spec_height() as int)),
    {
    }

    /// Width in pixels.
    pub closed spec fn spec_width(&self) -> nat {
        self.width as nat
    }

    /// Height in pixels.
    pub closed spec fn spec_height(&self) -> nat {
        self.height as nat
    }

    /// The RGBA bytes, row by row.
    pub closed spec fn spec_bytes(&self) -> Seq<u8> {
        self.data@
    }

    /// An image of the given size with every pixel set to `pixel`.
    pub fn from_pixel(width: u32, height: u32, pixel: [u8; 4]) -> (r: Self)
        requires
            4 * (width as int) * (height as int) <= usize::MAX,
        ensures
            r.wf(),
            r.spec_width() == width,
            r.spec_height() == height,
            r.spec_bytes().len() == 4 * (width as int) * (height as int),
            forall|i: int| 0 <= i < r.spec_bytes().len() ==> #[trigger] r.spec_bytes()[i] == pixel@[i % 4],
    {
        assert((width as int) * (height as int) <= usize::MAX && 4 * ((width as int) * (
        height as int)) == 4 * (width as int) * (height as int)) by (nonlinear_arith)
            requires
                4 * (width as int) * (height as int) <= usize::MAX,
        ;
        let n: usize = (width as usize) * (height as usize);
        let mut data: Vec<u8> = Vec::new();
        let mut p: usize = 0;
        while p < n
            invariant
                p <= n,
                n as int == (width as int) * (height as int),
                4 * n <= usize::MAX,
                data@.len() == 4 * p,
                forall|i: int| 0 <= i < data@.len() ==> #[trigger] data@[i] == pixel@[i % 4],
            decreases n - p,
        {
            data.push(pixel[0]);
            data.push(pixel[1]);
            data.push(pixel[2]);
            data.push(pixel[3]);
            p += 1;
        }
        PixelBuffer { width, height, data }
    }

    /// An image from raw RGBA bytes; `None` unless there are exactly four
    /// bytes per pixel.
    pub fn from_rgba(width: u32, height: u32, data: Vec<u8>) -> (r: Option<Self>)
        ensures
            r is Some <==> data@.len() == 4 * (width as int) * (height as int),
            r matches Some(img) ==> img.wf() && img.spec_width() == width && img.spec_height()
                == height && img.spec_bytes() == data@,
    {
        let w = width as u64;
        let h = height as u64;
        assert((w as int) * (h as int) <= 0xffff_ffff_ffff_ffff && 4 * ((w as int) * (h as int))
            == 4 * (w as int) * (h as int)) by (nonlinear_arith)
            requires
                w <= 0xffff_ffff,
                h <= 0xffff_ffff,
        ;
        let wh: u64 = w * h;
        let total: u128 = 4 * (wh as u128);
        if (data.len() as u128) == total {
            Some(PixelBuffer { width, height, data })
        } else {
            None
        }
    }

    /// The RGBA bytes, row by row.
    pub fn into_rgba(self) -> (r: Vec<u8>)
        ensures
            r@ == self.spec_bytes(),
    {
        self.data
    }

    /// Width in pixels.
    pub fn width(&self) -> (r: u32)
        ensures
            r == self.spec_width(),
    {
        self.width
    }

    /// Height in pixels.
    pub fn height(&self) -> (r: u32)
        ensures
            r == self.spec_height(),
    {
        self.height
    }

    /// The RGBA bytes of pixel (`x`, `y`).
    pub fn get_pixel(&self, x: u32, y: u32) -> (r: [u8; 4])
        requires
            self.wf(),
            x < self.spec_width(),
            y < self.spec_height(),
        ensures
            forall|c: int|
                0 <= c < 4 ==> #[trigger] r@[c] == self.spec_bytes()[pixel_index(
                    self.spec_width() as int,
                    x as int,
                    y as int,
                ) + c],
    {
        let _len = self.data.len();
        let w = self.width as usize;
        proof {
            lemma_pixel_index_bounds(self.width as int, self.height as int, x as int, y as int);
            assert(4 * (self.width as int) * (self.height as int) <= usize::MAX);
            assert((y as int) * (w as int) <= (y as int) * (w as int) + (x as int));
        }
        let base: usize = 4 * ((y as usize) * w + (x as usize));
        [self.data[base], self.data[base + 1], self.data[base + 2], self.data[base + 3]]
    }
}

/// Index of the first byte of pixel (`x`, `y`) in an image `w` wide.
pub open spec fn pixel_index(w: int, x: int, y: int) -> int {
    4 * (y * w + x)
}

/// Pixel (`x`, `y`) lies inside a `w` x `h` image's byte range.
pub proof fn lemma_pixel_index_bounds(w: int, h: int, x: int, y: int)
    requires
        0 <= x < w,
        0 <= y < h,
    ensures
        0 <= y * w + x < w * h,
        pixel_index(w, x, y) + 4 <= 4 * w * h,
{
    assert(0 <= y * w + x < w * h) by (nonlinear_arith)
        requires
            0 <= x < w,
            0 <= y < h,
    ;
    assert(4 * (w * h) == 4 * w * h) by (nonlinear_arith);
}

/// Effective corner radius: `radius` capped at half the width and half
/// the height.
pub open spec fn corner_radius(w: int, h: int, radius: int) -> int {
    let r1 = if radius < w / 2 {
        radius
    } else {
        w / 2
    };
    if r1 < h / 2 {
        r1
    } else {
        h / 2
    }
}

/// Distance of `pos` into the corner band of width `r` at either end of
/// `0..len`, or `-1` in the middle.
pub open spec fn corner_offset(pos: int, len: int, r: int) -> int {
    if pos < r {
        r - 1 - pos
    } else if pos >= len - r {
        pos - (len - r)
    } else {
        -1
    }
}

/// Pixel (`x`, `y`) of a `w` x `h` image lies outside the rounded corner
/// of radius `radius` (and so becomes transparent).
pub open spec fn corner_cleared(w: int, h: int, radius: int, x: int, y: int) -> bool {
    let r = corner_radius(w, h, radius);
    let dx = corner_offset(x, w, r);
    let dy = corner_offset(y, h, r);
    r > 0 && dx >= 0 && dy >= 0 && dx * dx + dy * dy >= r * r
}

/// Byte `i` (holding `b`) after rounding: alpha bytes of cleared pixels
/// become 0, every other byte stays.
pub open spec fn rounded_byte(w: int, h: int, radius: int, i: int, b: u8) -> u8 {
    if i % 4 == 3 && corner_cleared(w, h, radius, (i / 4) % w, (i / 4) / w) {
        0
    } else {
        b
    }
}

/// The bytes of a `w` x `h` image after `round_corners` with `radius`.
pub open spec fn rounded(w: int, h: int, radius: int, bytes: Seq<u8>) -> Seq<u8> {
    Seq::new(bytes.len(), |i: int| rounded_byte(w, h, radius, i, bytes[i]))
}

/// Round the corners of an image in place (transparent outside the
/// radius). The mask is baked into the alpha channel because the GTK CSS
/// `border-radius` does not clip image content.
pub fn round_corners(img: &mut PixelBuffer, radius: u32)
    requires
        old(img).wf(),
    ensures
        final(img).wf(),
        final(img).spec_width() == old(img).spec_width(),
        final(img).spec_height() == old(img).spec_height(),
        final(img).spec_bytes().len() == 4 * (old(img).spec_width() as int) * (
        old(img).spec_height() as int),
        final(img).spec_bytes() == rounded(
            old(img).spec_width() as int,
            old(img).spec_height() as int,
            radius as int,
            old(img).spec_bytes(),
        ),
{
    let ghost old_bytes = img.data@;
    let ghost wi = img.width as int;
    let ghost hi = img.height as int;
    let w = img.width as u64;
    let h = img.height as u64;
    let half_w = w / 2;
    let half_h = h / 2;
    let r1: u64 = if (radius as u64) < half_w {
        radius as u64
    } else {
        half_w
    };
    let r: u64 = if r1 < half_h {
        r1
    } else {
        half_h
    };
    assert(r as int == corner_radius(wi, hi, radius as int));
    if r == 0 {
        assert(img.data@ =~= rounded(wi, hi, radius as int, old_bytes));
        return;
    }
    let n: usize = img.data.len() / 4;
    assert(n as int == wi * hi && old_bytes.len() == 4 * n) by (nonlinear_arith)
        requires
            old_bytes.len() == 4 * wi * hi,
            n as int == old_bytes.len() / 4,
    ;
    let mut p: usize = 0;
    let mut x: u64 = 0;
    let mut y: u64 = 0;
    while p < n
        invariant
            img.wf(),
            img.width as int == wi,
            img.height as int == hi,
            w as int == wi,
            h as int == hi,
            wi > 0,
            hi > 0,
            n as int == wi * hi,
            img.data@.len() == old_bytes.len(),
            old_bytes.len() == 4 * n,
            4 * n <= usize::MAX,
            p <= n,
            x < w,
            p as int == (y as int) * wi + (x as int),
            r as int == corner_radius(wi, hi, radius as int),
            0 < r,
            2 * r <= w,
            2 * r <= h,
            forall|i: int|
                0 <= i < img.data@.len() ==> #[trigger] img.data@[i] == (if i < 4 * p {
                    rounded_byte(wi, hi, radius as int, i, old_bytes[i])
                } else {
                    old_bytes[i]
                }),
        decreases n - p,
    {
        proof {
            vstd::arithmetic::div_mod::lemma_fundamental_div_mod_converse(
                p as int,
                wi,
                y as int,
                x as int,
            );
        }
        assert(y < h) by (nonlinear_arith)
            requires
                p < n,
                n as int == wi * hi,
                p as int == (y as int) * wi + (x as int),
                0 <= x,
                wi > 0,
                h as int == hi,
        ;
        let in_x = x < r || x >= w - r;
        let dx: u64 = if x < r {
            r - 1 - x
        } else if x >= w - r {
            x - (w - r)
        } else {
            0
        };
        let in_y = y < r || y >= h - r;
        let dy: u64 = if y < r {
            r - 1 - y
        } else if y >= h - r {
            y - (h - r)
        } else {
            0
        };
        let cleared = if in_x && in_y {
            assert(dx < r && dy < r);
            assert(dx * dx < r * r && dy * dy < r * r && dx * dx + dy * dy < 2 * r * r && r * r
                <= 0x4000_0000_0000_0000) by (nonlinear_arith)
                requires
                    dx < r,
                    dy < r,
                    2 * r <= w,
                    w <= 0xffff_ffff,
            ;
            dx * dx + dy * dy >= r * r
        } else {
            false
        };
        let idx: usize = 4 * p + 3;
        assert(idx / 4 == p && idx % 4 == 3);
        assert(cleared == corner_cleared(wi, hi, radius as int, (idx as int / 4) % wi, (idx as int / 4) / wi));
        if cleared {
            img.data[idx] = 0;
        }
        let ghost old_x = x;
        let ghost old_y = y;
        p += 1;
        x += 1;
        if x == w {
            x = 0;
            y += 1;
            assert((old_y as int + 1) * wi == (old_y as int) * wi + wi) by (nonlinear_arith);
        }
        proof {
            assert forall|i: int| 0 <= i < img.data@.len() implies #[trigger] img.data@[i] == (if i < 4 * p {
                rounded_byte(wi, hi, radius as int, i, old_bytes[i])
            } else {
                old_bytes[i]
            }) by {
                if 4 * (p - 1) <= i < 4 * p {
                    assert(i / 4 == p - 1);
                    if i % 4 != 3 {
                        assert(i != idx);
                    }
                }
            }
        }
    }
    assert(img.data@ =~= rounded(wi, hi, radius as int, old_bytes));
}

/// A zero radius leaves every byte as it was.
pub proof fn lemma_zero_radius_keeps_image(w: int, h: int, bytes: Seq<u8>)
    ensures
        rounded(w, h, 0, bytes) == bytes,
{
    assert(rounded(w, h, 0, bytes) =~= bytes);
}

/// Rounding twice with the same radius is the same as rounding once.
pub proof fn lemma_round_corners_idempotent(w: int, h: int, radius: int, bytes: Seq<u8>)
    ensures
        rounded(w, h, radius, rounded(w, h, radius, bytes)) == rounded(w, h, radius, bytes),
{
    assert(rounded(w, h, radius, rounded(w, h, radius, bytes)) =~= rounded(w, h, radius, bytes));
}

/// After rounding a `w` x `h` image, each pixel keeps its three colour
/// bytes, and its alpha byte becomes 0 when the pixel lies outside the
/// rounded corner (`corner_cleared`) and stays as it was otherwise.
pub proof fn lemma_rounded_pixel(w: int, h: int, radius: int, bytes: Seq<u8>, x: int, y: int, c: int)
    requires
        bytes.len() == 4 * w * h,
        0 <= x < w,
        0 <= y < h,
        0 <= c < 4,
    ensures
        0 <= pixel_index(w, x, y) + c < bytes.len(),
        rounded(w, h, radius, bytes)[pixel_index(w, x, y) + c] == if c == 3 && corner_cleared(
            w,
            h,
            radius,
            x,
            y,
        ) {
            0u8
        } else {
            bytes[pixel_index(w, x, y) + c]
        },
{
    lemma_pixel_index_bounds(w, h, x, y);
    let i = pixel_index(w, x, y) + c;
    let p = y * w + x;
    assert(i / 4 == p && i % 4 == c) by (nonlinear_arith)
        requires
            i == 4 * p + c,
            0 <= c < 4,
            0 <= p,
    ;
    assert(p % w == x && p / w == y) by (nonlinear_arith)
        requires
            p == y * w + x,
            0 <= x < w,
            0 <= y,
    ;
}

/// Only pixels in the four corner squares of side `r` can be cleared,
/// and rounding only ever touches alpha bytes.
pub proof fn lemma_only_corner_alpha_cleared(w: int, h: int, radius: int, bytes: Seq<u8>, i: int)
    requires
        0 <= i < bytes.len(),
        rounded(w, h, radius, bytes)[i] != bytes[i],
    ensures
        i % 4 == 3,
        ({
            let r = corner_radius(w, h, radius);
            let x = (i / 4) % w;
            let y = (i / 4) / w;
            (x < r || x >= w - r) && (y < r || y >= h - r)
        }),
{
}

} // verus!
