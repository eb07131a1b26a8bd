use finder::prefs::ViewMode;
use finder::views::finder::{
    active_flipped, folder_title, nav_back, nav_forward, nav_to, tick_action,
    tick_should_rebuild, watch_refresh_allowed, EditSession, NavStacks, TickAction,
};

fn s(p: &str) -> String {
    p.to_string()
}

#[test]
fn nav_history_moves() {
    let mut stacks = NavStacks {
        current: s("/a"),
        back: Vec::new(),
        forward: Vec::new(),
    };
    // Empty stacks do nothing.
    assert!(!nav_back(&mut stacks));
    assert!(!nav_forward(&mut stacks));
    assert!(!nav_to(&mut stacks, s("/a")));
    // Fresh navigation pushes back and clears forward.
    assert!(nav_to(&mut stacks, s("/b")));
    assert_eq!(stacks.current, s("/b"));
    assert_eq!(stacks.back, vec![s("/a")]);
    assert!(stacks.forward.is_empty());
    assert!(nav_to(&mut stacks, s("/c")));
    // Back and forward shuttle current between stacks.
    assert!(nav_back(&mut stacks));
    assert_eq!(stacks.current, s("/b"));
    assert!(nav_back(&mut stacks));
    assert_eq!(stacks.current, s("/a"));
    assert!(!nav_back(&mut stacks));
    assert!(nav_forward(&mut stacks));
    assert_eq!(stacks.current, s("/b"));
    // A fresh navigation drops the forward trail.
    assert!(nav_to(&mut stacks, s("/d")));
    assert_eq!(stacks.current, s("/d"));
    assert!(stacks.forward.is_empty());
    assert!(!nav_forward(&mut stacks));
}

#[test]
fn nav_to_compares_paths_not_text() {
    let mut stacks = NavStacks {
        current: s("/home/u/Downloads"),
        back: Vec::new(),
        forward: Vec::new(),
    };
    // Same path written differently: no move.
    assert!(!nav_to(&mut stacks, s("/home/u/Downloads/")));
    assert!(!nav_to(&mut stacks, s("/home//u/./Downloads")));
    assert!(stacks.back.is_empty());
    // A relative path is a different path.
    assert!(nav_to(&mut stacks, s("home/u/Downloads")));
    assert_eq!(stacks.back, vec![s("/home/u/Downloads")]);
}

#[test]
fn back_then_forward_restores_state() {
    let mut stacks = NavStacks {
        current: s("/x"),
        back: vec![s("/v"), s("/w")],
        forward: vec![s("/z")],
    };
    assert!(nav_back(&mut stacks));
    assert_eq!(stacks.current, s("/w"));
    assert_eq!(stacks.forward, vec![s("/z"), s("/x")]);
    assert!(nav_forward(&mut stacks));
    assert_eq!(stacks.current, s("/x"));
    assert_eq!(stacks.back, vec![s("/v"), s("/w")]);
    assert_eq!(stacks.forward, vec![s("/z")]);
}

#[test]
fn watch_refresh_pauses_during_edit() {
    let mut session: Option<EditSession> = None;
    assert!(watch_refresh_allowed(&session));
    session = Some(EditSession { path: s("/tmp/x") });
    assert!(!watch_refresh_allowed(&session));
}

#[test]
fn tick_rebuild_signal_matrix() {
    // Idle: either signal rebuilds (snapshot gate at call site).
    assert!(tick_should_rebuild(false, true, false));
    assert!(tick_should_rebuild(false, false, true));
    assert!(tick_should_rebuild(false, true, true));
    assert!(!tick_should_rebuild(false, false, false));
    // Editing: watcher bursts dropped, menu signals rebuild.
    assert!(!tick_should_rebuild(true, true, false));
    assert!(tick_should_rebuild(true, false, true));
    assert!(tick_should_rebuild(true, true, true));
    assert!(!tick_should_rebuild(true, false, false));
}

#[test]
fn active_flip_matrix() {
    // First observation never counts as a flip (no dismiss on startup).
    assert!(!active_flipped(None, true));
    assert!(!active_flipped(None, false));
    // Either direction flips (focus lost or regained).
    assert!(active_flipped(Some(true), false));
    assert!(active_flipped(Some(false), true));
    // Unchanged states stay quiet.
    assert!(!active_flipped(Some(true), true));
    assert!(!active_flipped(Some(false), false));
}

#[test]
fn tick_action_priorities() {
    let g = ViewMode::Grid;
    assert_eq!(tick_action(g, false, false, None, false, false), TickAction::Idle);
    assert_eq!(
        tick_action(g, true, true, Some(ViewMode::List), true, true),
        TickAction::SwitchView { mode: ViewMode::List, changed: true }
    );
    assert_eq!(
        tick_action(g, false, false, Some(ViewMode::Grid), false, false),
        TickAction::SwitchView { mode: ViewMode::Grid, changed: false }
    );
    assert_eq!(tick_action(g, true, false, None, true, true), TickAction::Navigate);
    assert_eq!(tick_action(g, true, false, None, false, false), TickAction::RebuildIfChanged);
    assert_eq!(tick_action(g, false, true, None, false, true), TickAction::RebuildEditing);
    assert_eq!(tick_action(g, true, false, None, false, true), TickAction::DropBurst);
}

#[test]
fn folder_title_uses_last_component() {
    assert_eq!(folder_title("/home/u/Downloads"), "Downloads");
    assert_eq!(folder_title("/home/u/Downloads/"), "Downloads");
    assert_eq!(folder_title("/"), "/");
    assert_eq!(folder_title("/home/.."), "/home/..");
}

use finder::model::DirEntry;
use finder::views::finder::{
    activation, empty_space_menu, empty_view_keys, file_menu_entries, folder_artwork,
    palette, rename_target, row_icon, view_indicator_on, Activation, Art, MenuAction, MenuEntry, MenuItem,
};

fn entry(name: &str, is_dir: bool, is_app: bool, ext: &str) -> DirEntry {
    DirEntry {
        name: name.to_string(),
        is_dir,
        is_app,
        ext: ext.to_string(),
    }
}

fn item_key(entry: &MenuEntry) -> Option<&str> {
    match entry {
        MenuEntry::Item(item) => Some(item.key.as_str()),
        _ => None,
    }
}

#[test]
fn empty_space_menu_structure() {
    let entries = empty_space_menu("/tmp");
    assert_eq!(entries.len(), 5);
    assert_eq!(item_key(&entries[0]), Some("context.new_folder"));
    assert!(matches!(&entries[0], MenuEntry::Item(MenuItem { action: MenuAction::NewFolder(base), .. }) if base == "/tmp"));
    assert!(matches!(entries[1], MenuEntry::Divider));
    assert!(matches!(entries[3], MenuEntry::Divider));
    match &entries[4] {
        MenuEntry::Submenu { key, items } => {
            assert_eq!(key, "context.new_file");
            assert_eq!(items.len(), 1);
            assert_eq!(items[0].key, "context.text_file");
        }
        _ => panic!("last entry must be the New File submenu"),
    }
}

#[test]
fn file_menu_structure() {
    let entry = entry("wallpaper.jpg", false, false, "jpg");
    let entries = file_menu_entries("/tmp", &entry);
    assert_eq!(entries.len(), 14);
    assert_eq!(item_key(&entries[0]), Some("context.open"));
    match &entries[1] {
        MenuEntry::Item(item) => {
            assert_eq!(item.key, "context.open_with");
            assert_eq!(
                item.trailing_icon.as_deref(),
                Some("arrowtriangle.forward.fill")
            );
        }
        _ => panic!("second entry must be Open With"),
    }
    assert!(matches!(entries[2], MenuEntry::Divider));
    assert!(matches!(entries[4], MenuEntry::Divider));
    assert!(matches!(entries[10], MenuEntry::Divider));
    match &entries[11] {
        MenuEntry::Item(item) => {
            assert_eq!(item.key, "context.copy");
            assert_eq!(item.name.as_deref(), Some("wallpaper"));
        }
        _ => panic!("entry 11 must be Copy"),
    }
    assert!(matches!(entries[12], MenuEntry::Divider));
    match &entries[13] {
        MenuEntry::TagDots { key, colors } => {
            assert_eq!(key, "context.tags");
            assert_eq!(colors.len(), 7);
        }
        _ => panic!("last entry must be the Tags row"),
    }
}

#[test]
fn file_menu_rename_targets_entry_path() {
    let entries = file_menu_entries("/home/u/Downloads", &entry("Demo.app", true, true, ""));
    match &entries[6] {
        MenuEntry::Item(MenuItem { key, action: MenuAction::Rename(path), .. }) => {
            assert_eq!(key, "context.rename");
            assert_eq!(path, "/home/u/Downloads/Demo.app");
        }
        _ => panic!("entry 6 must be Rename"),
    }
    assert!(matches!(&entries[0], MenuEntry::Item(MenuItem { action: MenuAction::Launch(path), .. }) if path == "/home/u/Downloads/Demo.app"));
    let plain = file_menu_entries("/tmp", &entry("notes.txt", false, false, "txt"));
    assert!(matches!(&plain[0], MenuEntry::Item(MenuItem { action: MenuAction::Open, .. })));
    match &entries[11] {
        MenuEntry::Item(item) => assert_eq!(item.name.as_deref(), Some("Demo")),
        _ => panic!("entry 11 must be Copy"),
    }
}

fn resource(art: &Art) -> Option<Vec<&str>> {
    match art {
        Art::Resource(parts) => Some(parts.iter().map(|p| p.as_str()).collect()),
        _ => None,
    }
}

#[test]
fn grid_artwork_plans() {
    let app = folder_artwork(&entry("Demo.app", true, true, ""));
    assert!(matches!(app[..], [Art::AppIcon, Art::CssFolder]));
    let dir = folder_artwork(&entry("docs", true, false, ""));
    assert_eq!(resource(&dir[0]), Some(vec!["foldericons", "scalable", "folder.svg"]));
    assert!(matches!(dir[1], Art::CssFolder));
    let photo = folder_artwork(&entry("a.jpg", false, false, "jpg"));
    assert!(matches!(photo[..], [Art::Photo]));
    let video = folder_artwork(&entry("a.mp4", false, false, "mp4"));
    assert!(matches!(video[0], Art::VideoThumb));
    assert_eq!(resource(&video[1]), Some(vec!["extensionicons", "video.png"]));
    assert_eq!(
        resource(&video[2]),
        Some(vec!["foldericons", "scalable", "blue-folder-videos.svg"])
    );
    let doc = folder_artwork(&entry("a.rs", false, false, "rs"));
    assert_eq!(resource(&doc[0]), Some(vec!["extensionicons", "rust.png"]));
    assert_eq!(resource(&doc[1]), Some(vec!["extensionicons", "basis.png"]));
    assert!(matches!(doc[2], Art::Gap));
    let unknown = folder_artwork(&entry("a.dll", false, false, "dll"));
    assert_eq!(unknown.len(), 2);
    assert_eq!(resource(&unknown[0]), Some(vec!["extensionicons", "basis.png"]));
}

#[test]
fn row_icon_plans() {
    let photo = row_icon(&entry("a.png", false, false, "png"));
    assert_eq!(resource(&photo[0]), Some(vec!["extensionicons", "image.png"]));
    assert_eq!(resource(&photo[1]), Some(vec!["extensionicons", "basis.png"]));
    assert!(matches!(photo[2], Art::Gap));
    let audio = row_icon(&entry("a.mp3", false, false, "mp3"));
    assert_eq!(resource(&audio[0]), Some(vec!["extensionicons", "audio.png"]));
    let zip = row_icon(&entry("a.zip", false, false, "zip"));
    assert_eq!(resource(&zip[0]), Some(vec!["extensionicons", "zip.png"]));
    let app = row_icon(&entry("Demo.app", false, true, "app"));
    assert!(matches!(app[0], Art::AppIcon));
    assert_eq!(app.len(), 3);
}

#[test]
fn rename_target_counts_up() {
    let taken: Vec<String> = vec!["wallpaper.png".to_string(), "Docs".to_string(), "Docs (2)".to_string()];
    let file = entry("photo.png", false, false, "png");
    assert_eq!(rename_target(&taken, &file, "wallpaper"), Some("wallpaper (2).png".to_string()));
    assert_eq!(rename_target(&taken, &file, "beach"), Some("beach.png".to_string()));
    assert_eq!(rename_target(&taken, &file, "  "), None);
    let dir = entry("Projects", true, false, "");
    assert_eq!(rename_target(&taken, &dir, "Docs"), Some("Docs (3)".to_string()));
}

#[test]
fn small_view_rules() {
    let dark = palette(true);
    assert_eq!((dark.bg, dark.fg, dark.secondary), ("#1d1d1d", "#F5F5F7", "#A1A1A6"));
    let light = palette(false);
    assert_eq!((light.bg, light.fg, light.secondary), ("#ececec", "#1E1E1E", "#6E6E73"));
    assert_eq!(empty_view_keys(""), ("detail.empty", "detail.empty.hint"));
    assert_eq!(empty_view_keys("txt"), ("search.empty", "search.empty.hint"));
    assert!(view_indicator_on(0, ViewMode::Grid));
    assert!(!view_indicator_on(1, ViewMode::Grid));
    assert!(view_indicator_on(1, ViewMode::List));
    assert!(!view_indicator_on(0, ViewMode::List));
}

#[test]
fn activation_opens_folders_and_launches_apps() {
    assert!(matches!(activation("/a", &entry("b", true, false, "")), Activation::OpenFolder(p) if p == "/a/b"));
    assert!(matches!(activation("/a/", &entry("b", true, false, "")), Activation::OpenFolder(p) if p == "/a/b"));
    assert!(matches!(activation("/a", &entry("Demo.app", true, true, "")), Activation::Launch(p) if p == "/a/Demo.app"));
    assert!(matches!(activation("/a", &entry("Demo.app", false, true, "")), Activation::Launch(p) if p == "/a/Demo.app"));
    assert!(matches!(activation("/a", &entry("b.txt", false, false, "txt")), Activation::Nothing));
}

use finder::views::finder::{apply_menu_action, new_folder_target};

#[test]
fn menu_actions_settle_the_rename_session() {
    let mut session: Option<EditSession> = None;
    assert!(apply_menu_action(&mut session, &MenuAction::Rename("/d/a.txt".to_string()), None));
    assert_eq!(session.as_ref().map(|s| s.path.as_str()), Some("/d/a.txt"));
    assert!(!apply_menu_action(&mut session, &MenuAction::Copy, None));
    assert_eq!(session.as_ref().map(|s| s.path.as_str()), Some("/d/a.txt"));
    let new_folder = MenuAction::NewFolder("/d".to_string());
    assert!(!apply_menu_action(&mut session, &new_folder, None));
    assert_eq!(session.as_ref().map(|s| s.path.as_str()), Some("/d/a.txt"));
    assert!(apply_menu_action(&mut session, &new_folder, Some("/d/Untitled Folder".to_string())));
    assert_eq!(session.as_ref().map(|s| s.path.as_str()), Some("/d/Untitled Folder"));
    let mut none: Option<EditSession> = None;
    assert!(!apply_menu_action(&mut none, &MenuAction::Open, None));
    assert!(none.is_none());
}

#[test]
fn new_folder_counts_up_past_taken_names() {
    let taken = vec!["Untitled Folder".to_string(), "Untitled Folder (2)".to_string()];
    assert_eq!(new_folder_target("/d", &taken, "Untitled Folder"), "/d/Untitled Folder (3)");
    assert_eq!(new_folder_target("/d/", &Vec::new(), "Untitled Folder"), "/d/Untitled Folder");
}
