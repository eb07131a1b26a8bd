//! Finder window rules: folder navigation history, the refresh tick,
//! window focus flips and folder titles.

use vstd::prelude::*;
use crate::icons::{archive_icon, audio_icon, extension_icon, folder_icon, generic_file_icon,
    image_placeholder, strings_view, video_icon, video_placeholder};
use crate::model::{display_name, display_of, doc_icon_of, document_icon, file_kind,
    is_archive_ext, is_audio_ext, is_free_variant, is_image_ext, is_video_ext, kind_of, new_name_of,
    opt_string, resolve_new_name, unique_name,
    views_of_strings, DirEntry, FileKind};
use crate::path::{file_name_chars, file_name_of, join, join_path, path_eq, same_path};
use crate::prefs::ViewMode;
use crate::text::{chars_of, string_of};

verus! {

/// Navigation stacks: current folder plus back/forward history.
pub struct NavStacks {
    pub current: String,
    pub back: Vec<String>,
    pub forward: Vec<String>,
}

/// Character views of a list of strings.
pub open spec fn paths_view(v: Seq<String>) -> Seq<Seq<char>> {
    v.map_values(|p: String| p@)
}

/// Mathematical state of the stacks: current folder, back history and
/// forward history (most recent last).
pub open spec fn nav_view(s: NavStacks) -> (Seq<char>, Seq<Seq<char>>, Seq<Seq<char>>) {
    (s.current@, paths_view(s.back@), paths_view(s.forward@))
}

/// Fresh navigation to `target`: nothing happens when `target` is the
/// current folder (as a path); otherwise the current folder goes onto
/// the back history, the forward history is cleared and `target`
/// becomes current.
pub open spec fn nav_to_spec(
    s: (Seq<char>, Seq<Seq<char>>, Seq<Seq<char>>),
    target: Seq<char>,
) -> (bool, (Seq<char>, Seq<Seq<char>>, Seq<Seq<char>>)) {
    if same_path(s.0, target) {
        (false, s)
    } else {
        (true, (target, s.1.push(s.0), Seq::empty()))
    }
}

/// Back: with an empty back history nothing happens; otherwise the most
/// recent back entry becomes current and the current folder goes onto
/// the forward history.
pub open spec fn nav_back_spec(s: (Seq<char>, Seq<Seq<char>>, Seq<Seq<char>>)) -> (
    bool,
    (Seq<char>, Seq<Seq<char>>, Seq<Seq<char>>),
) {
    if s.1.len() == 0 {
        (false, s)
    } else {
        (true, (s.1.last(), s.1.drop_last(), s.2.push(s.0)))
    }
}

/// Forward: with an empty forward history nothing happens; otherwise the
/// most recent forward entry becomes current and the current folder
/// goes onto the back history.
pub open spec fn nav_forward_spec(s: (Seq<char>, Seq<Seq<char>>, Seq<Seq<char>>)) -> (
    bool,
    (Seq<char>, Seq<Seq<char>>, Seq<Seq<char>>),
) {
    if s.2.len() == 0 {
        (false, s)
    } else {
        (true, (s.2.last(), s.1.push(s.0), s.2.drop_last()))
    }
}

/// Fresh navigation (double-clicked folder): push current to back,
/// clear forward. Returns false when already there.
pub fn nav_to(stacks: &mut NavStacks, target: String) -> (moved: bool)
    ensures
        (moved, nav_view(*final(stacks))) == nav_to_spec(nav_view(*old(stacks)), target@),
{
    let cur = chars_of(stacks.current.as_str());
    let tgt = chars_of(target.as_str());
    if path_eq(&cur, &tgt) {
        return false;
    }
    let ghost old_back = stacks.back@;
    let mut previous = target;
    std::mem::swap(&mut stacks.current, &mut previous);
    stacks.back.push(previous);
    stacks.forward.clear();
    assert(paths_view(stacks.back@) =~= paths_view(old_back).push(cur@));
    assert(paths_view(stacks.forward@) =~= Seq::<Seq<char>>::empty());
    true
}

/// Back button: push current to forward, pop back. False when empty.
pub fn nav_back(stacks: &mut NavStacks) -> (moved: bool)
    ensures
        (moved, nav_view(*final(stacks))) == nav_back_spec(nav_view(*old(stacks))),
{
    let ghost old_back = stacks.back@;
    let ghost old_forward = stacks.forward@;
    match stacks.back.pop() {
        None => false,
        Some(previous) => {
            let mut current = previous;
            std::mem::swap(&mut stacks.current, &mut current);
            stacks.forward.push(current);
            assert(paths_view(stacks.back@) =~= paths_view(old_back).drop_last());
            assert(paths_view(stacks.forward@) =~= paths_view(old_forward).push(
                nav_view(*old(stacks)).0,
            ));
            true
        },
    }
}

/// Forward button: push current to back, pop forward. False when empty.
pub fn nav_forward(stacks: &mut NavStacks) -> (moved: bool)
    ensures
        (moved, nav_view(*final(stacks))) == nav_forward_spec(nav_view(*old(stacks))),
{
    let ghost old_back = stacks.back@;
    let ghost old_forward = stacks.forward@;
    match stacks.forward.pop() {
        None => false,
        Some(next) => {
            let mut current = next;
            std::mem::swap(&mut stacks.current, &mut current);
            stacks.back.push(current);
            assert(paths_view(stacks.forward@) =~= paths_view(old_forward).drop_last());
            assert(paths_view(stacks.back@) =~= paths_view(old_back).push(
                nav_view(*old(stacks)).0,
            ));
            true
        },
    }
}

/// Going back and then forward again returns to the same state.
pub proof fn lemma_back_then_forward(s: (Seq<char>, Seq<Seq<char>>, Seq<Seq<char>>))
    requires
        s.1.len() > 0,
    ensures
        nav_forward_spec(nav_back_spec(s).1) == (true, s),
{
    assert(s.1.drop_last().push(s.1.last()) =~= s.1);
    assert(s.2.push(s.0).drop_last() =~= s.2);
}

/// Going forward and then back again returns to the same state.
pub proof fn lemma_forward_then_back(s: (Seq<char>, Seq<Seq<char>>, Seq<Seq<char>>))
    requires
        s.2.len() > 0,
    ensures
        nav_back_spec(nav_forward_spec(s).1) == (true, s),
{
    assert(s.2.drop_last().push(s.2.last()) =~= s.2);
    assert(s.1.push(s.0).drop_last() =~= s.1);
}

/// After opening a different folder, Back returns to the folder that
/// was open before and offers the opened one as Forward.
pub proof fn lemma_open_then_back(
    s: (Seq<char>, Seq<Seq<char>>, Seq<Seq<char>>),
    target: Seq<char>,
)
    requires
        !same_path(s.0, target),
    ensures
        nav_back_spec(nav_to_spec(s, target).1) == (true, (s.0, s.1, seq![target])),
{
    assert(s.1.push(s.0).drop_last() =~= s.1);
    assert(Seq::<Seq<char>>::empty().push(target) =~= seq![target]);
}

/// A fresh navigation always drops the forward history.
pub proof fn lemma_open_clears_forward(
    s: (Seq<char>, Seq<Seq<char>>, Seq<Seq<char>>),
    target: Seq<char>,
)
    requires
        !same_path(s.0, target),
    ensures
        nav_to_spec(s, target).1.2.len() == 0,
        nav_forward_spec(nav_to_spec(s, target).1).0 == false,
{
}

/// Navigation never loses a folder: the current folder plus both
/// histories hold the same number of entries before and after any move.
pub proof fn lemma_back_forward_keep_count(s: (Seq<char>, Seq<Seq<char>>, Seq<Seq<char>>))
    ensures
        nav_back_spec(s).1.1.len() + nav_back_spec(s).1.2.len() == s.1.len() + s.2.len(),
        nav_forward_spec(s).1.1.len() + nav_forward_spec(s).1.2.len() == s.1.len() + s.2.len(),
{
}

/// True when a previous active state exists and differs from the
/// current one (flip in either direction). Returns false on the first
/// observation (`None`), so startup never dismisses menus.
pub fn active_flipped(prev: Option<bool>, current: bool) -> (r: bool)
    ensures
        r == (prev matches Some(p) && p != current),
{
    match prev {
        Some(p) => p != current,
        None => false,
    }
}

/// Inline rename session: the entry path currently edited.
pub struct EditSession {
    pub path: String,
}

/// Whether a watcher event may rebuild the grid: only while no inline
/// rename is open, so event bursts never destroy typed text or steal
/// focus.
pub fn watch_refresh_allowed(session: &Option<EditSession>) -> (r: bool)
    ensures
        r == session.is_none(),
{
    session.is_none()
}

/// Whether this tick rebuilds the grid. While an inline rename is open
/// (`editing`), only explicit menu/edit signals rebuild; watcher bursts
/// are dropped. Outside edits, either signal rebuilds (gated by the
/// snapshot diff at the call site).
pub fn tick_should_rebuild(editing: bool, watch_signaled: bool, menu_signaled: bool) -> (r: bool)
    ensures
        r == if editing {
            menu_signaled
        } else {
            watch_signaled || menu_signaled
        },
{
    if editing {
        menu_signaled
    } else {
        watch_signaled || menu_signaled
    }
}

/// What one refresh tick does after draining its signal channels.
#[derive(Debug, Clone, Copy, PartialEq, Eq, Structural)]
pub enum TickAction {
    /// Nothing arrived: keep waiting.
    Idle,
    /// A view switch arrived: adopt `mode` (persisting it and moving the
    /// indicator when `changed`), resync the snapshot and rebuild.
    SwitchView { mode: ViewMode, changed: bool },
    /// Back/forward moved: cancel the rename, rewatch and rebuild.
    Navigate,
    /// Signals arrived while idle: rebuild only if the folder snapshot
    /// differs from the stored one.
    RebuildIfChanged,
    /// A menu/edit signal arrived during a rename: resync the snapshot
    /// and rebuild.
    RebuildEditing,
    /// Only watcher events arrived during a rename: drop them.
    DropBurst,
}

/// The tick's decision (see `TickAction`), in priority order: no signal,
/// view switch, navigation, then watcher/menu signals by edit state.
pub open spec fn tick_action_of(
    mode: ViewMode,
    watch_signaled: bool,
    menu_signaled: bool,
    view_switch: Option<ViewMode>,
    nav_moved: bool,
    editing: bool,
) -> TickAction {
    if !watch_signaled && !menu_signaled && view_switch is None && !nav_moved {
        TickAction::Idle
    } else if view_switch is Some {
        TickAction::SwitchView { mode: view_switch->0, changed: view_switch->0 != mode }
    } else if nav_moved {
        TickAction::Navigate
    } else if !editing {
        TickAction::RebuildIfChanged
    } else if menu_signaled {
        TickAction::RebuildEditing
    } else {
        TickAction::DropBurst
    }
}

/// Decide what the refresh tick does with the signals it drained: the
/// active view `mode`, whether the folder watcher or a menu/edit action
/// signalled, the last requested view switch, whether a back/forward
/// request moved the history, and whether an inline rename is open.
pub fn tick_action(
    mode: ViewMode,
    watch_signaled: bool,
    menu_signaled: bool,
    view_switch: Option<ViewMode>,
    nav_moved: bool,
    editing: bool,
) -> (r: TickAction)
    ensures
        r == tick_action_of(mode, watch_signaled, menu_signaled, view_switch, nav_moved, editing),
{
    if !watch_signaled && !menu_signaled && view_switch.is_none() && !nav_moved {
        return TickAction::Idle;
    }
    if let Some(next) = view_switch {
        return TickAction::SwitchView { mode: next, changed: next != mode };
    }
    if nav_moved {
        return TickAction::Navigate;
    }
    if !editing {
        TickAction::RebuildIfChanged
    } else if tick_should_rebuild(true, watch_signaled, menu_signaled) {
        TickAction::RebuildEditing
    } else {
        TickAction::DropBurst
    }
}

/// How the tick answers its signals. No signal: it waits. A view switch
/// wins over everything and adopts the requested mode (changed exactly
/// when it differs from the active one). Otherwise a back/forward move
/// navigates. Otherwise it rebuilds exactly when `tick_should_rebuild`
/// says so: outside a rename on any signal (after the snapshot check),
/// during a rename only on a menu/edit signal, whatever the watcher did;
/// watcher events alone during a rename are dropped.
pub proof fn lemma_tick_answers_signals(
    mode: ViewMode,
    watch: bool,
    menu: bool,
    switch: Option<ViewMode>,
    nav: bool,
    editing: bool,
)
    ensures
        !watch && !menu && switch is None && !nav ==> tick_action_of(mode, watch, menu, switch, nav, editing)
            == TickAction::Idle,
        switch matches Some(next) ==> tick_action_of(mode, watch, menu, switch, nav, editing)
            == (TickAction::SwitchView { mode: next, changed: next != mode }),
        switch is None && nav ==> tick_action_of(mode, watch, menu, switch, nav, editing)
            == TickAction::Navigate,
        switch is None && !nav && (watch || menu) ==> {
            let a = tick_action_of(mode, watch, menu, switch, nav, editing);
            &&& (a == TickAction::RebuildIfChanged || a == TickAction::RebuildEditing)
                == (if editing { menu } else { watch || menu })
            &&& (a == TickAction::RebuildIfChanged) == !editing
            &&& (a == TickAction::RebuildEditing) == (editing && menu)
            &&& (a == TickAction::DropBurst) == (editing && !menu)
        },
{
}

/// A tick never rebuilds because of watcher events alone while an inline
/// rename is open.
pub proof fn lemma_editing_drops_watch_bursts(mode: ViewMode)
    ensures
        tick_action_of(mode, true, false, None, false, true) == TickAction::DropBurst,
{
}

/// Title of a folder: its final path component, or the whole path when
/// it has none (roots).
pub open spec fn folder_title_of(base: Seq<char>) -> Seq<char> {
    match file_name_of(base) {
        Some(name) => name,
        None => base,
    }
}

/// Display name of a folder for the title: file name, full path for roots.
pub fn folder_title(base: &str) -> (r: String)
    ensures
        r@ == folder_title_of(base@),
{
    let chars = chars_of(base);
    match file_name_chars(&chars) {
        Some(name) => string_of(&name),
        None => string_of(&chars),
    }
}


// ---------------------------------------------------------------------
// Rename
// ---------------------------------------------------------------------

/// Target name of an inline rename in a folder whose names are `taken`:
/// `None` when the typed text is rejected (the field stays open);
/// otherwise the resolved name, counted up when it is taken
/// (`Docs (2)`, `wallpaper (2).png`) instead of failing.
pub fn rename_target(taken: &Vec<String>, entry: &DirEntry, typed: &str) -> (r: Option<String>)
    ensures
        match new_name_of(entry.is_dir, entry.is_app, entry.ext@, typed@) {
            None => r is None,
            Some(name) => r matches Some(target) && is_free_variant(
                views_of_strings(taken@),
                name,
                entry.is_dir,
                target@,
            ),
        },
{
    match resolve_new_name(entry, typed) {
        None => None,
        Some(name) => Some(unique_name(taken, name.as_str(), entry.is_dir)),
    }
}

// ---------------------------------------------------------------------
// Artwork
// ---------------------------------------------------------------------

/// One source for an entry's artwork; a plan lists them in the order
/// they are tried, the first that resolves is shown.
pub enum Art {
    /// The `.app` icon rendered once for the entry.
    AppIcon,
    /// The entry itself as a rounded photo preview (cached preview, else
    /// decoded in memory, else the image placeholder).
    Photo,
    /// The cached first-second frame of the video, as a rounded preview.
    VideoThumb,
    /// A file under `Resources/`.
    Resource(Vec<String>),
    /// The CSS folder artwork (never missing).
    CssFolder,
    /// An empty square that keeps the label in place (never missing).
    Gap,
}

/// Mathematical value of an artwork source: a tag (`AppIcon` 0, `Photo`
/// 1, `VideoThumb` 2, `Resource` 3, `CssFolder` 4, `Gap` 5) and, for
/// resources, the resource path.
pub open spec fn art_view(a: Art) -> (nat, Seq<Seq<char>>) {
    match a {
        Art::AppIcon => (0, Seq::empty()),
        Art::Photo => (1, Seq::empty()),
        Art::VideoThumb => (2, Seq::empty()),
        Art::Resource(parts) => (3, strings_view(parts@)),
        Art::CssFolder => (4, Seq::empty()),
        Art::Gap => (5, Seq::empty()),
    }
}

/// Values of a plan.
pub open spec fn plan_view(v: Seq<Art>) -> Seq<(nat, Seq<Seq<char>>)> {
    v.map_values(|a: Art| art_view(a))
}

/// A resource source.
pub open spec fn res(parts: Seq<Seq<char>>) -> (nat, Seq<Seq<char>>) {
    (3, parts)
}

/// A source without a resource path.
pub open spec fn tag(t: nat) -> (nat, Seq<Seq<char>>) {
    (t, Seq::empty())
}

/// Grid artwork plan: `.app` bundles show their rendered icon,
/// directories the folder icon, images the picture itself, videos the
/// cached frame then the video placeholders, audio and archives their
/// themed icons (all falling back to the CSS folder), other files their
/// document icon, then the generic file icon, then an empty square.
pub open spec fn grid_art_of(is_dir: bool, is_app: bool, ext: Seq<char>) -> Seq<(nat, Seq<Seq<char>>)> {
    if is_app {
        seq![tag(0), tag(4)]
    } else if is_dir {
        seq![res(seq!["foldericons"@, "scalable"@, "folder.svg"@]), tag(4)]
    } else {
        match kind_of(ext) {
            FileKind::Image => seq![tag(1)],
            FileKind::Video => seq![
                tag(2),
                res(seq!["extensionicons"@, "video.png"@]),
                res(seq!["foldericons"@, "scalable"@, "blue-folder-videos.svg"@]),
                tag(4),
            ],
            FileKind::Audio => seq![res(seq!["extensionicons"@, "audio.png"@]), tag(4)],
            FileKind::Archive => seq![res(seq!["extensionicons"@, "zip.png"@]), tag(4)],
            FileKind::Other => match doc_icon_of(ext) {
                Some(doc) => seq![
                    res(seq!["extensionicons"@, doc]),
                    res(seq!["extensionicons"@, "basis.png"@]),
                    tag(5),
                ],
                None => seq![res(seq!["extensionicons"@, "basis.png"@]), tag(5)],
            },
        }
    }
}

/// List-row icon plan: like the grid, but photos and videos show their
/// placeholders (never decoded thumbnails), and every plan ends with the
/// generic file icon and then an empty square.
pub open spec fn row_art_of(is_dir: bool, is_app: bool, ext: Seq<char>) -> Seq<(nat, Seq<Seq<char>>)> {
    let generic = res(seq!["extensionicons"@, "basis.png"@]);
    if is_app {
        seq![tag(0), generic, tag(5)]
    } else if is_dir {
        seq![res(seq!["foldericons"@, "scalable"@, "folder.svg"@]), generic, tag(5)]
    } else {
        match kind_of(ext) {
            FileKind::Image => seq![res(seq!["extensionicons"@, "image.png"@]), generic, tag(5)],
            FileKind::Video => seq![
                res(seq!["extensionicons"@, "video.png"@]),
                res(seq!["foldericons"@, "scalable"@, "blue-folder-videos.svg"@]),
                generic,
                tag(5),
            ],
            FileKind::Audio => seq![res(seq!["extensionicons"@, "audio.png"@]), generic, tag(5)],
            FileKind::Archive => seq![res(seq!["extensionicons"@, "zip.png"@]), generic, tag(5)],
            FileKind::Other => match doc_icon_of(ext) {
                Some(doc) => seq![res(seq!["extensionicons"@, doc]), generic, tag(5)],
                None => seq![generic, tag(5)],
            },
        }
    }
}

/// What the grid shows first for each kind of entry, and what it falls
/// back to: `.app` bundles their rendered icon (else the CSS folder),
/// folders `folder.svg` (else the CSS folder), images the picture
/// itself, videos their cached frame, then `video.png`, then
/// `blue-folder-videos.svg`, then the CSS folder; audio files
/// `audio.png` and archives `zip.png` (else the CSS folder); other
/// files their document icon when they have one, then `basis.png`, then
/// an empty square.
pub proof fn lemma_grid_art_by_kind(is_dir: bool, is_app: bool, ext: Seq<char>)
    ensures
        ({
            let plan = grid_art_of(is_dir, is_app, ext);
            let ext_icon = |f: Seq<char>| (3nat, seq!["extensionicons"@, f]);
            &&& is_app ==> plan == seq![(0nat, Seq::<Seq<char>>::empty()), (4nat, Seq::<Seq<char>>::empty())]
            &&& !is_app && is_dir ==> plan == seq![
                (3nat, seq!["foldericons"@, "scalable"@, "folder.svg"@]),
                (4nat, Seq::<Seq<char>>::empty()),
            ]
            &&& !is_app && !is_dir && is_image_ext(ext) ==> plan == seq![(1nat, Seq::<Seq<char>>::empty())]
            &&& !is_app && !is_dir && !is_image_ext(ext) && is_video_ext(ext) ==> plan == seq![
                (2nat, Seq::<Seq<char>>::empty()),
                ext_icon("video.png"@),
                (3nat, seq!["foldericons"@, "scalable"@, "blue-folder-videos.svg"@]),
                (4nat, Seq::<Seq<char>>::empty()),
            ]
            &&& !is_app && !is_dir && !is_image_ext(ext) && !is_video_ext(ext) && is_audio_ext(ext)
                ==> plan == seq![ext_icon("audio.png"@), (4nat, Seq::<Seq<char>>::empty())]
            &&& !is_app && !is_dir && !is_image_ext(ext) && !is_video_ext(ext) && !is_audio_ext(ext)
                && is_archive_ext(ext) ==> plan == seq![ext_icon("zip.png"@), (4nat, Seq::<Seq<char>>::empty())]
            &&& !is_app && !is_dir && !is_image_ext(ext) && !is_video_ext(ext) && !is_audio_ext(ext)
                && !is_archive_ext(ext) ==> plan == match doc_icon_of(ext) {
                Some(doc) => seq![ext_icon(doc), ext_icon("basis.png"@), (5nat, Seq::<Seq<char>>::empty())],
                None => seq![ext_icon("basis.png"@), (5nat, Seq::<Seq<char>>::empty())],
            }
        }),
{
}

/// What a list row shows: like the grid but never a decoded preview
/// (images show `image.png`, videos `video.png` then
/// `blue-folder-videos.svg`), and every row falls back to `basis.png`
/// and then an empty square.
pub proof fn lemma_row_art_by_kind(is_dir: bool, is_app: bool, ext: Seq<char>)
    ensures
        ({
            let plan = row_art_of(is_dir, is_app, ext);
            let ext_icon = |f: Seq<char>| (3nat, seq!["extensionicons"@, f]);
            let tail = seq![ext_icon("basis.png"@), (5nat, Seq::<Seq<char>>::empty())];
            &&& forall|i: int| 0 <= i < plan.len() ==> plan[i].0 != 1 && plan[i].0 != 2
            &&& plan.len() >= 2 && plan.subrange(plan.len() - 2, plan.len() as int) == tail
            &&& is_app ==> plan == seq![(0nat, Seq::<Seq<char>>::empty())] + tail
            &&& !is_app && is_dir ==> plan == seq![(3nat, seq!["foldericons"@, "scalable"@, "folder.svg"@])] + tail
            &&& !is_app && !is_dir && is_image_ext(ext) ==> plan == seq![ext_icon("image.png"@)] + tail
            &&& !is_app && !is_dir && !is_image_ext(ext) && is_video_ext(ext) ==> plan == seq![
                ext_icon("video.png"@),
                (3nat, seq!["foldericons"@, "scalable"@, "blue-folder-videos.svg"@]),
            ] + tail
            &&& !is_app && !is_dir && !is_image_ext(ext) && !is_video_ext(ext) && is_audio_ext(ext)
                ==> plan == seq![ext_icon("audio.png"@)] + tail
            &&& !is_app && !is_dir && !is_image_ext(ext) && !is_video_ext(ext) && !is_audio_ext(ext)
                && is_archive_ext(ext) ==> plan == seq![ext_icon("zip.png"@)] + tail
            &&& !is_app && !is_dir && !is_image_ext(ext) && !is_video_ext(ext) && !is_audio_ext(ext)
                && !is_archive_ext(ext) ==> plan == match doc_icon_of(ext) {
                Some(doc) => seq![ext_icon(doc)] + tail,
                None => tail,
            }
        }),
{
    let plan = row_art_of(is_dir, is_app, ext);
    let ext_icon = |f: Seq<char>| (3nat, seq!["extensionicons"@, f]);
    let tail = seq![ext_icon("basis.png"@), (5nat, Seq::<Seq<char>>::empty())];
    assert(plan.subrange(plan.len() - 2, plan.len() as int) =~= tail);
    if is_app {
        assert(plan =~= seq![(0nat, Seq::<Seq<char>>::empty())] + tail);
    } else if is_dir {
        assert(plan =~= seq![(3nat, seq!["foldericons"@, "scalable"@, "folder.svg"@])] + tail);
    } else {
        match kind_of(ext) {
            FileKind::Image => assert(plan =~= seq![ext_icon("image.png"@)] + tail),
            FileKind::Video => assert(plan =~= seq![
                ext_icon("video.png"@),
                (3nat, seq!["foldericons"@, "scalable"@, "blue-folder-videos.svg"@]),
            ] + tail),
            FileKind::Audio => assert(plan =~= seq![ext_icon("audio.png"@)] + tail),
            FileKind::Archive => assert(plan =~= seq![ext_icon("zip.png"@)] + tail),
            FileKind::Other => match doc_icon_of(ext) {
                Some(doc) => assert(plan =~= seq![ext_icon(doc)] + tail),
                None => assert(plan =~= tail),
            },
        }
    }
}

/// Grid artwork for one entry, as the ordered sources to try (see
/// `grid_art_of`).
pub fn folder_artwork(entry: &DirEntry) -> (r: Vec<Art>)
    ensures
        plan_view(r@) == grid_art_of(entry.is_dir, entry.is_app, entry.ext@),
{
    let mut plan: Vec<Art> = Vec::new();
    if entry.is_app {
        plan.push(Art::AppIcon);
        plan.push(Art::CssFolder);
    } else if entry.is_dir {
        plan.push(Art::Resource(folder_icon("folder.svg")));
        plan.push(Art::CssFolder);
    } else {
        match file_kind(entry.ext.as_str()) {
            FileKind::Image => {
                plan.push(Art::Photo);
            },
            FileKind::Video => {
                plan.push(Art::VideoThumb);
                plan.push(Art::Resource(video_placeholder()));
                plan.push(Art::Resource(video_icon()));
                plan.push(Art::CssFolder);
            },
            FileKind::Audio => {
                plan.push(Art::Resource(audio_icon()));
                plan.push(Art::CssFolder);
            },
            FileKind::Archive => {
                plan.push(Art::Resource(archive_icon()));
                plan.push(Art::CssFolder);
            },
            FileKind::Other => {
                match document_icon(entry.ext.as_str()) {
                    Some(doc) => {
                        plan.push(Art::Resource(extension_icon(doc)));
                    },
                    None => {},
                }
                plan.push(Art::Resource(generic_file_icon()));
                plan.push(Art::Gap);
            },
        }
    }
    assert(plan_view(plan@) =~= grid_art_of(entry.is_dir, entry.is_app, entry.ext@));
    plan
}

/// Small type icon at the far left of a list row, as the ordered
/// sources to try (see `row_art_of`).
pub fn row_icon(entry: &DirEntry) -> (r: Vec<Art>)
    ensures
        plan_view(r@) == row_art_of(entry.is_dir, entry.is_app, entry.ext@),
{
    let mut plan: Vec<Art> = Vec::new();
    if entry.is_app {
        plan.push(Art::AppIcon);
    } else if entry.is_dir {
        plan.push(Art::Resource(folder_icon("folder.svg")));
    } else {
        match file_kind(entry.ext.as_str()) {
            FileKind::Image => {
                plan.push(Art::Resource(image_placeholder()));
            },
            FileKind::Video => {
                plan.push(Art::Resource(video_placeholder()));
                plan.push(Art::Resource(video_icon()));
            },
            FileKind::Audio => {
                plan.push(Art::Resource(audio_icon()));
            },
            FileKind::Archive => {
                plan.push(Art::Resource(archive_icon()));
            },
            FileKind::Other => {
                match document_icon(entry.ext.as_str()) {
                    Some(doc) => {
                        plan.push(Art::Resource(extension_icon(doc)));
                    },
                    None => {},
                }
            },
        }
    }
    plan.push(Art::Resource(generic_file_icon()));
    plan.push(Art::Gap);
    assert(plan_view(plan@) =~= row_art_of(entry.is_dir, entry.is_app, entry.ext@));
    plan
}


// ---------------------------------------------------------------------
// Context menus
// ---------------------------------------------------------------------

/// What a context-menu item does when activated.
pub enum MenuAction {
    /// No action yet.
    Nothing,
    /// Open the entry (logs for now).
    Open,
    /// Move the entry to the trash (logs for now).
    MoveToTrash,
    /// Show the info panel (logs for now).
    GetInfo,
    /// Start an inline rename of the entry at this path.
    Rename(String),
    /// Compress the entry (logs for now).
    Compress,
    /// Duplicate the entry (logs for now).
    Duplicate,
    /// Share the entry (logs for now).
    Share,
    /// Copy the entry (logs for now).
    Copy,
    /// Create a new folder in this folder, then rename it inline.
    NewFolder(String),
    /// Start the `.app` bundle at this path through LaunchPad.
    Launch(String),
}

/// One menu item: its label key in `lang/`, the value of the `{name}`
/// placeholder in that label, an optional trailing SF symbol and the
/// action.
pub struct MenuItem {
    pub key: String,
    pub name: Option<String>,
    pub trailing_icon: Option<String>,
    pub action: MenuAction,
}

/// One context-menu row.
pub enum MenuEntry {
    Item(MenuItem),
    Divider,
    /// A submenu titled by the label key `key`.
    Submenu { key: String, items: Vec<MenuItem> },
    /// The tag row titled by the label key `key`, with its dot colors.
    TagDots { key: String, colors: Vec<(u8, u8, u8)> },
}

/// Mathematical value of an action: a tag in declaration order and the
/// path it carries (empty when none).
pub open spec fn action_view(a: MenuAction) -> (nat, Seq<char>) {
    match a {
        MenuAction::Nothing => (0, Seq::empty()),
        MenuAction::Open => (1, Seq::empty()),
        MenuAction::MoveToTrash => (2, Seq::empty()),
        MenuAction::GetInfo => (3, Seq::empty()),
        MenuAction::Rename(path) => (4, path@),
        MenuAction::Compress => (5, Seq::empty()),
        MenuAction::Duplicate => (6, Seq::empty()),
        MenuAction::Share => (7, Seq::empty()),
        MenuAction::Copy => (8, Seq::empty()),
        MenuAction::NewFolder(base) => (9, base@),
        MenuAction::Launch(path) => (10, path@),
    }
}

/// `item` has this label key, `{name}` value, trailing icon and action.
pub open spec fn item_is(
    item: MenuItem,
    key: Seq<char>,
    name: Option<Seq<char>>,
    trailing: Option<Seq<char>>,
    action: (nat, Seq<char>),
) -> bool {
    &&& item.key@ == key
    &&& opt_string(item.name) == name
    &&& opt_string(item.trailing_icon) == trailing
    &&& action_view(item.action) == action
}

/// `e` is an item as in `item_is`.
pub open spec fn entry_is_item(
    e: MenuEntry,
    key: Seq<char>,
    name: Option<Seq<char>>,
    trailing: Option<Seq<char>>,
    action: (nat, Seq<char>),
) -> bool {
    match e {
        MenuEntry::Item(item) => item_is(item, key, name, trailing, action),
        _ => false,
    }
}

/// Tag dot colors for the file menu Tags row (red, orange, yellow,
/// green, blue, purple, gray).
pub open spec fn tag_dot_colors() -> Seq<(u8, u8, u8)> {
    seq![(255, 59, 48), (255, 149, 0), (255, 204, 0), (52, 199, 89), (0, 122, 255), (175, 82, 222), (142, 142, 147)]
}

/// A plain item with no `{name}` value.
fn item(key: &str, trailing: Option<&str>, action: MenuAction) -> (r: MenuEntry)
    ensures
        entry_is_item(
            r,
            key@,
            None,
            match trailing {
                Some(t) => Some(t@),
                None => None,
            },
            action_view(action),
        ),
{
    let trailing_icon = match trailing {
        Some(t) => Some(t.to_owned()),
        None => None,
    };
    MenuEntry::Item(MenuItem { key: key.to_owned(), name: None, trailing_icon, action })
}

/// The disclosure symbol after Open With and Share.
pub open spec fn disclosure() -> Seq<char> {
    "arrowtriangle.forward.fill"@
}

/// File context menu entries for one entry in `base`: Open (launches
/// `.app` bundles at `base/name`, other entries log for now), Open With
/// (disclosure), divider, Move to Trash, divider, Get Info, Rename
/// (inline rename of `base/name`), Compress, Duplicate, Share
/// (disclosure), divider, Copy "{name}" with the shown name, divider,
/// and the Tags row with the seven tag dots.
pub fn file_menu_entries(base: &str, entry: &DirEntry) -> (r: Vec<MenuEntry>)
    ensures
        r@.len() == 14,
        entry_is_item(
            r@[0],
            "context.open"@,
            None,
            None,
            if entry.is_app {
                (10, join(base@, entry.name@))
            } else {
                (1, Seq::empty())
            },
        ),
        entry_is_item(r@[1], "context.open_with"@, None, Some(disclosure()), (0, Seq::empty())),
        r@[2] is Divider,
        entry_is_item(r@[3], "context.move_to_trash"@, None, None, (2, Seq::empty())),
        r@[4] is Divider,
        entry_is_item(r@[5], "context.get_info"@, None, None, (3, Seq::empty())),
        entry_is_item(r@[6], "context.rename"@, None, None, (4, join(base@, entry.name@))),
        entry_is_item(r@[7], "context.compress"@, None, None, (5, Seq::empty())),
        entry_is_item(r@[8], "context.duplicate"@, None, None, (6, Seq::empty())),
        entry_is_item(r@[9], "context.share"@, None, Some(disclosure()), (7, Seq::empty())),
        r@[10] is Divider,
        entry_is_item(
            r@[11],
            "context.copy"@,
            Some(display_of(entry.name@, entry.is_dir)),
            None,
            (8, Seq::empty()),
        ),
        r@[12] is Divider,
        match r@[13] {
            MenuEntry::TagDots { key, colors } => key@ == "context.tags"@ && colors@
                == tag_dot_colors(),
            _ => false,
        },
{
    let name = display_name(entry.name.as_str(), entry.is_dir);
    let rename_path = join_path(base, entry.name.as_str());
    let mut colors: Vec<(u8, u8, u8)> = Vec::new();
    colors.push((255, 59, 48));
    colors.push((255, 149, 0));
    colors.push((255, 204, 0));
    colors.push((52, 199, 89));
    colors.push((0, 122, 255));
    colors.push((175, 82, 222));
    colors.push((142, 142, 147));
    assert(colors@ =~= tag_dot_colors());
    let mut v: Vec<MenuEntry> = Vec::new();
    let open = if entry.is_app {
        MenuAction::Launch(join_path(base, entry.name.as_str()))
    } else {
        MenuAction::Open
    };
    v.push(item("context.open", None, open));
    v.push(item("context.open_with", Some("arrowtriangle.forward.fill"), MenuAction::Nothing));
    v.push(MenuEntry::Divider);
    v.push(item("context.move_to_trash", None, MenuAction::MoveToTrash));
    v.push(MenuEntry::Divider);
    v.push(item("context.get_info", None, MenuAction::GetInfo));
    v.push(item("context.rename", None, MenuAction::Rename(rename_path)));
    v.push(item("context.compress", None, MenuAction::Compress));
    v.push(item("context.duplicate", None, MenuAction::Duplicate));
    v.push(item("context.share", Some("arrowtriangle.forward.fill"), MenuAction::Share));
    v.push(MenuEntry::Divider);
    v.push(
        MenuEntry::Item(
            MenuItem {
                key: "context.copy".to_owned(),
                name: Some(name),
                trailing_icon: None,
                action: MenuAction::Copy,
            },
        ),
    );
    v.push(MenuEntry::Divider);
    v.push(MenuEntry::TagDots { key: "context.tags".to_owned(), colors });
    v
}

/// Empty-space context menu entries for the folder `base`: New Folder
/// (created in `base`), divider, Get Info, divider, and the New File
/// submenu holding Text File (no action yet).
pub fn empty_space_menu(base: &str) -> (r: Vec<MenuEntry>)
    ensures
        r@.len() == 5,
        entry_is_item(r@[0], "context.new_folder"@, None, None, (9, base@)),
        r@[1] is Divider,
        entry_is_item(r@[2], "context.get_info"@, None, None, (3, Seq::empty())),
        r@[3] is Divider,
        match r@[4] {
            MenuEntry::Submenu { key, items } => key@ == "context.new_file"@ && items@.len() == 1
                && item_is(items@[0], "context.text_file"@, None, None, (0, Seq::empty())),
            _ => false,
        },
{
    let mut items: Vec<MenuItem> = Vec::new();
    items.push(
        MenuItem {
            key: "context.text_file".to_owned(),
            name: None,
            trailing_icon: None,
            action: MenuAction::Nothing,
        },
    );
    let mut v: Vec<MenuEntry> = Vec::new();
    v.push(item("context.new_folder", None, MenuAction::NewFolder(base.to_owned())));
    v.push(MenuEntry::Divider);
    v.push(item("context.get_info", None, MenuAction::GetInfo));
    v.push(MenuEntry::Divider);
    v.push(MenuEntry::Submenu { key: "context.new_file".to_owned(), items });
    v
}


/// The path of the open inline rename, if any.
pub open spec fn session_path(session: Option<EditSession>) -> Option<Seq<char>> {
    match session {
        Some(s) => Some(s.path@),
        None => None,
    }
}

/// Where New Folder creates its folder in `base`, whose names are
/// `taken`: `stem` (the localized "Untitled Folder") when free, else its
/// first free counted variant (`stem (2)`, `stem (3)`, ...).
pub fn new_folder_target(base: &str, taken: &Vec<String>, stem: &str) -> (r: String)
    ensures
        exists|name: Seq<char>|
            is_free_variant(views_of_strings(taken@), stem@, true, name) && r@ == join(base@, name),
{
    let name = unique_name(taken, stem, true);
    join_path(base, name.as_str())
}

/// The rename session after a menu item was activated, and whether the
/// view is to be refreshed. Rename opens an inline rename of its path;
/// New Folder opens one on the folder it created (`created`, `None` when
/// creating failed, which changes nothing); both ask for a refresh.
/// Every other action leaves the session alone and asks for none.
pub fn apply_menu_action(
    session: &mut Option<EditSession>,
    action: &MenuAction,
    created: Option<String>,
) -> (refresh: bool)
    ensures
        match *action {
            MenuAction::Rename(path) => refresh && session_path(*final(session)) == Some(path@),
            MenuAction::NewFolder(_) => match created {
                Some(p) => refresh && session_path(*final(session)) == Some(p@),
                None => !refresh && *final(session) == *old(session),
            },
            _ => !refresh && *final(session) == *old(session),
        },
{
    match action {
        MenuAction::Rename(path) => {
            *session = Some(EditSession { path: path.clone() });
            true
        },
        MenuAction::NewFolder(_) => match created {
            Some(p) => {
                *session = Some(EditSession { path: p });
                true
            },
            None => false,
        },
        _ => false,
    }
}

// ---------------------------------------------------------------------
// Smaller view rules
// ---------------------------------------------------------------------

/// Colors of one appearance: background, primary and secondary text.
pub struct Palette {
    pub bg: &'static str,
    pub fg: &'static str,
    pub secondary: &'static str,
}

/// The palette for the dark or light system color scheme.
pub fn palette(dark: bool) -> (r: Palette)
    ensures
        dark ==> r.bg@ == "#1d1d1d"@ && r.fg@ == "#F5F5F7"@ && r.secondary@ == "#A1A1A6"@,
        !dark ==> r.bg@ == "#ececec"@ && r.fg@ == "#1E1E1E"@ && r.secondary@ == "#6E6E73"@,
{
    if dark {
        Palette { bg: "#1d1d1d", fg: "#F5F5F7", secondary: "#A1A1A6" }
    } else {
        Palette { bg: "#ececec", fg: "#1E1E1E", secondary: "#6E6E73" }
    }
}

/// Label keys (title, hint) of the placeholder shown instead of an empty
/// listing: the no-match text while a search query is active, otherwise
/// the folder-empty text.
pub fn empty_view_keys(query: &str) -> (r: (&'static str, &'static str))
    ensures
        query@.len() == 0 ==> r.0@ == "detail.empty"@ && r.1@ == "detail.empty.hint"@,
        query@.len() != 0 ==> r.0@ == "search.empty"@ && r.1@ == "search.empty.hint"@,
{
    if query.is_empty() {
        ("detail.empty", "detail.empty.hint")
    } else {
        ("search.empty", "search.empty.hint")
    }
}

/// Whether the view button at `index` (grid first, list second) carries
/// the select indicator for `mode`.
pub fn view_indicator_on(index: usize, mode: ViewMode) -> (r: bool)
    ensures
        r == ((index == 0) == (mode == ViewMode::Grid)),
{
    (index == 0) == (mode == ViewMode::Grid)
}

/// What activating a listed entry (double-click or Enter) does.
pub enum Activation {
    /// Open the folder at this path in the window.
    OpenFolder(String),
    /// Start the `.app` bundle (folder or archive) at this path through
    /// LaunchPad, as a separate process.
    Launch(String),
    /// Plain files do not open yet.
    Nothing,
}

/// Mathematical value of an activation: a tag in declaration order and
/// the path it carries (empty when none).
pub open spec fn activation_view(a: Activation) -> (nat, Seq<char>) {
    match a {
        Activation::OpenFolder(path) => (0, path@),
        Activation::Launch(path) => (1, path@),
        Activation::Nothing => (2, Seq::empty()),
    }
}

/// Activation of a listed entry in the folder `current`: `.app` bundles
/// launch, other folders open in the window, plain files do nothing yet.
pub open spec fn activation_of(current: Seq<char>, name: Seq<char>, is_dir: bool, is_app: bool) -> (
    nat,
    Seq<char>,
) {
    if is_app {
        (1, join(current, name))
    } else if is_dir {
        (0, join(current, name))
    } else {
        (2, Seq::empty())
    }
}

/// What activating `entry`, listed in the folder `current`, does (see
/// `activation_of`).
pub fn activation(current: &str, entry: &DirEntry) -> (r: Activation)
    ensures
        activation_view(r) == activation_of(current@, entry.name@, entry.is_dir, entry.is_app),
{
    if entry.is_app {
        Activation::Launch(join_path(current, entry.name.as_str()))
    } else if entry.is_dir {
        Activation::OpenFolder(join_path(current, entry.name.as_str()))
    } else {
        Activation::Nothing
    }
}

} // verus!
