use finder::model::{
    display_name, document_icon, file_kind, filter_entries, item_count, list_dir, matches_query,
    normalize_query, resolve_new_name, snapshot, DirEntry, FileKind, RawEntry, SnapshotEntry,
};

fn test_entry(name: &str, is_dir: bool, is_app: bool, ext: &str) -> DirEntry {
    DirEntry {
        name: name.to_string(),
        is_dir,
        is_app,
        ext: ext.to_string(),
    }
}

fn raw(name: &str, is_dir: bool) -> RawEntry {
    RawEntry {
        name: name.to_string(),
        is_dir,
    }
}

fn snap(name: &str, is_dir: bool, len: u64, mtime_secs: u64) -> SnapshotEntry {
    SnapshotEntry {
        name: name.to_string(),
        is_dir,
        len,
        mtime_secs,
    }
}

#[test]
fn file_display_name_strips_extension() {
    assert_eq!(display_name("photo.png", false), "photo");
    assert_eq!(display_name("archive.tar.gz", false), "archive.tar");
    assert_eq!(display_name("README", false), "README");
}

#[test]
fn dir_display_name_keeps_name() {
    assert_eq!(display_name("Projects.d", true), "Projects.d");
}

#[test]
fn app_display_name_strips_suffix() {
    assert_eq!(display_name("Demo.app", true), "Demo");
    assert_eq!(display_name("Demo.app", false), "Demo");
}

#[test]
fn display_name_edge_cases() {
    // Leading-dot names keep their whole name; a trailing dot is dropped.
    assert_eq!(display_name(".bashrc", false), ".bashrc");
    assert_eq!(display_name("notes.", false), "notes");
    assert_eq!(display_name("a..b", false), "a.");
    // Upper-case bundle suffix, other cases kept.
    assert_eq!(display_name("Demo.APP", true), "Demo");
    assert_eq!(display_name("Demo.App", true), "Demo.App");
    // Path-shaped names use the final component.
    assert_eq!(display_name("dir/clip.mp4", false), "clip");
    assert_eq!(display_name("", false), "");
    assert_eq!(display_name("..", false), "..");
}

#[test]
fn resolve_new_name_rejects_bad_input() {
    let file = test_entry("photo.png", false, false, "png");
    assert!(resolve_new_name(&file, "").is_none());
    assert!(resolve_new_name(&file, "   ").is_none());
    assert!(resolve_new_name(&file, "a/b").is_none());
    assert!(resolve_new_name(&file, "a\\b").is_none());
}

#[test]
fn resolve_new_name_keeps_file_extension() {
    let file = test_entry("photo.png", false, false, "png");
    assert_eq!(resolve_new_name(&file, "wallpaper"), Some("wallpaper.png".to_string()));
    assert_eq!(resolve_new_name(&file, "icon.svg"), Some("icon.svg".to_string()));
    let plain = test_entry("README", false, false, "");
    assert_eq!(resolve_new_name(&plain, "NOTES"), Some("NOTES".to_string()));
}

#[test]
fn resolve_new_name_keeps_app_suffix() {
    let bundle = test_entry("Demo.app", true, true, "");
    assert_eq!(resolve_new_name(&bundle, "Other"), Some("Other.app".to_string()));
    assert_eq!(resolve_new_name(&bundle, "Other.app"), Some("Other.app".to_string()));
    let dir = test_entry("Docs", true, false, "");
    assert_eq!(resolve_new_name(&dir, "Files"), Some("Files".to_string()));
}

#[test]
fn resolve_new_name_trims_and_rejects_nul() {
    let file = test_entry("photo.png", false, false, "png");
    assert_eq!(resolve_new_name(&file, "  beach \t"), Some("beach.png".to_string()));
    assert_eq!(resolve_new_name(&file, "\u{3000}beach\u{a0}"), Some("beach.png".to_string()));
    assert!(resolve_new_name(&file, "a\0b").is_none());
    let bundle = test_entry("Demo.app", true, true, "");
    assert_eq!(resolve_new_name(&bundle, "Other.APP"), Some("Other.APP".to_string()));
}

#[test]
fn file_kind_classifies_extensions() {
    assert_eq!(file_kind("jpg"), FileKind::Image);
    assert_eq!(file_kind("png"), FileKind::Image);
    assert_eq!(file_kind("mp4"), FileKind::Video);
    assert_eq!(file_kind("mkv"), FileKind::Video);
    assert_eq!(file_kind("mp3"), FileKind::Audio);
    assert_eq!(file_kind("flac"), FileKind::Audio);
    assert_eq!(file_kind("zip"), FileKind::Archive);
    assert_eq!(file_kind("rar"), FileKind::Archive);
    assert_eq!(file_kind("7z"), FileKind::Archive);
    assert_eq!(file_kind("tar"), FileKind::Archive);
    assert_eq!(file_kind("gz"), FileKind::Archive);
    assert_eq!(file_kind("gzip"), FileKind::Archive);
    assert_eq!(file_kind("bz2"), FileKind::Archive);
    assert_eq!(file_kind("pdf"), FileKind::Other);
    assert_eq!(file_kind(""), FileKind::Other);
}

#[test]
fn file_kind_is_case_sensitive() {
    // Callers pass lowercase extensions; upper case is not an image.
    assert_eq!(file_kind("PNG"), FileKind::Other);
    assert_eq!(file_kind("heic"), FileKind::Image);
    assert_eq!(file_kind("ogv"), FileKind::Video);
    assert_eq!(file_kind("wma"), FileKind::Audio);
}

#[test]
fn document_icon_maps_families() {
    assert_eq!(document_icon("xlsx"), Some("xls.png"));
    assert_eq!(document_icon("csv"), Some("xls.png"));
    assert_eq!(document_icon("ts"), Some("javascript.png"));
    assert_eq!(document_icon("json"), Some("javascript.png"));
    assert_eq!(document_icon("rs"), Some("rust.png"));
    assert_eq!(document_icon("py"), Some("python.png"));
    assert_eq!(document_icon("md"), Some("md.png"));
    assert_eq!(document_icon("pdf"), Some("pdf.png"));
    assert_eq!(document_icon("docx"), Some("docx.png"));
    assert_eq!(document_icon("pptx"), Some("ppt.png"));
    assert_eq!(document_icon("sh"), Some("sh.png"));
    assert_eq!(document_icon("txt"), Some("txt.png"));
    assert_eq!(document_icon("html"), Some("html.png"));
    assert_eq!(document_icon("css"), Some("css.png"));
    assert_eq!(document_icon("java"), Some("java.png"));
    assert_eq!(document_icon("exe"), Some("exe.png"));
    assert_eq!(document_icon("msi"), Some("exe.png"));
    assert_eq!(document_icon("dll"), None);
}

#[test]
fn document_icon_covers_other_families() {
    assert_eq!(document_icon("rtf"), Some("doc.png"));
    assert_eq!(document_icon("mkd"), Some("md.png"));
    assert_eq!(document_icon("yml"), Some("txt.png"));
    assert_eq!(document_icon("ps1"), Some("sh.png"));
    assert_eq!(document_icon("jar"), Some("java.png"));
    assert_eq!(document_icon(""), None);
}

#[test]
fn item_count_counts_entries() {
    let entries = vec![
        test_entry("a", true, false, ""),
        test_entry("b.txt", false, false, "txt"),
    ];
    assert_eq!(item_count(&entries), 2);
    assert_eq!(item_count(&[]), 0);
}

#[test]
fn unreadable_dir_yields_empty_list() {
    // An unreadable folder reads as no names at all.
    let empty = list_dir(&Vec::new());
    assert!(empty.is_empty());
}

#[test]
fn listing_sorts_dirs_first_then_alpha() {
    let read = vec![
        raw("beta.txt", false),
        raw("README", false),
        raw("docs", true),
        raw("Alpha.TXT", false),
    ];
    let entries = list_dir(&read);
    let shown: Vec<String> = entries
        .iter()
        .map(|entry| display_name(&entry.name, entry.is_dir))
        .collect();
    assert_eq!(shown, vec!["docs", "Alpha", "beta", "README"]);
}

#[test]
fn listing_skips_zone_identifier_markers() {
    let read = vec![
        raw("wallpaper.jpg.Zone.Identifier", false),
        raw("wallpaper.jpg", false),
        raw("notes.txt:Zone.Identifier", false),
    ];
    let entries = list_dir(&read);
    assert_eq!(entries.len(), 1);
    assert_eq!(entries[0].name, "wallpaper.jpg");
    assert_eq!(entries[0].ext, "jpg");
}

#[test]
fn listing_fills_kind_fields() {
    let read = vec![
        raw("Demo.APP", true),
        raw("Photo.JPEG", false),
        raw("Makefile", false),
        raw("Tool.app", false),
        raw("src", true),
    ];
    let entries = list_dir(&read);
    let names: Vec<&str> = entries.iter().map(|e| e.name.as_str()).collect();
    assert_eq!(names, vec!["Demo.APP", "src", "Makefile", "Photo.JPEG", "Tool.app"]);
    assert!(entries[0].is_app && entries[0].is_dir && entries[0].ext.is_empty());
    assert!(!entries[1].is_app);
    assert_eq!(entries[2].ext, "");
    assert_eq!(entries[3].ext, "jpeg");
    assert!(entries[4].is_app && !entries[4].is_dir);
    assert_eq!(entries[4].ext, "app");
}

#[test]
fn listing_keeps_read_order_for_equal_names() {
    let read = vec![raw("b.txt", false), raw("a.md", false), raw("a.txt", false)];
    let entries = list_dir(&read);
    let names: Vec<&str> = entries.iter().map(|e| e.name.as_str()).collect();
    assert_eq!(names, vec!["a.md", "a.txt", "b.txt"]);
}

#[test]
fn snapshot_tracks_real_changes_only() {
    let first = snapshot(&vec![snap("a.txt", false, 1, 100)]);
    // The same folder read again gives the same snapshot.
    assert_eq!(snapshot(&vec![snap("a.txt", false, 1, 100)]), first);
    // A new file changes it.
    let grown = snapshot(&vec![snap("b.txt", false, 1, 101), snap("a.txt", false, 1, 100)]);
    assert_ne!(grown, first);
    // Removing it again restores it.
    assert_eq!(snapshot(&vec![snap("a.txt", false, 1, 100)]), first);
}

#[test]
fn snapshot_sorts_by_name_and_skips_markers() {
    let read = vec![
        snap("b", true, 0, 5),
        snap("a.txt:Zone.Identifier", false, 3, 4),
        snap("B", false, 2, 3),
        snap("a", false, 1, 2),
    ];
    let shot = snapshot(&read);
    let names: Vec<&str> = shot.iter().map(|e| e.name.as_str()).collect();
    assert_eq!(names, vec!["B", "a", "b"]);
    assert_eq!(shot[0], snap("B", false, 2, 3));
    assert_eq!(shot[2], snap("b", true, 0, 5));
}

#[test]
fn snapshot_ignores_read_order() {
    let one = snapshot(&vec![
        snap("c.png", false, 9, 7),
        snap("a", true, 0, 1),
        snap("x.Zone.Identifier", false, 1, 1),
        snap("b.txt", false, 3, 2),
    ]);
    let other = snapshot(&vec![
        snap("b.txt", false, 3, 2),
        snap("x.Zone.Identifier", false, 1, 1),
        snap("c.png", false, 9, 7),
        snap("a", true, 0, 1),
    ]);
    assert_eq!(one, other);
    assert_eq!(one.len(), 3);
}

use finder::model::unique_name;

#[test]
fn unique_name_counts_up() {
    let taken: Vec<String> = ["Docs", "Docs (2)", "wallpaper.png", "Demo.app", ".env", "a.tar.gz"]
        .iter()
        .map(|s| s.to_string())
        .collect();
    assert_eq!(unique_name(&taken, "Notes", true), "Notes");
    assert_eq!(unique_name(&taken, "Docs", true), "Docs (3)");
    assert_eq!(unique_name(&taken, "wallpaper.png", false), "wallpaper (2).png");
    assert_eq!(unique_name(&taken, "Demo.app", true), "Demo (2).app");
    assert_eq!(unique_name(&taken, ".env", false), ".env (2)");
    assert_eq!(unique_name(&taken, "a.tar.gz", false), "a.tar (2).gz");
    assert_eq!(unique_name(&Vec::new(), "Docs", true), "Docs");
}

#[test]
fn search_query_is_trimmed_and_lowercased() {
    assert_eq!(normalize_query("  Wall.JPG \t"), "wall.jpg");
    assert_eq!(normalize_query("   "), "");
    assert_eq!(normalize_query("Docs"), "docs");
}

#[test]
fn search_matches_names_case_insensitively() {
    assert!(matches_query("Notes.TXT", ".txt"));
    assert!(matches_query("readme.txt", ".txt"));
    assert!(!matches_query("photo.png", ".txt"));
    assert!(matches_query("anything", ""));
    assert!(matches_query("Wallpaper.jpg", "paper"));
}

#[test]
fn search_filters_entries_in_listing_order() {
    let entries = vec![
        test_entry("docs", true, false, ""),
        test_entry("Alpha.TXT", false, false, "txt"),
        test_entry("photo.png", false, false, "png"),
        test_entry("beta.txt", false, false, "txt"),
    ];
    let hits = filter_entries(&entries, ".txt");
    let names: Vec<&str> = hits.iter().map(|e| e.name.as_str()).collect();
    assert_eq!(names, vec!["Alpha.TXT", "beta.txt"]);
    assert_eq!(hits[0].ext, "txt");
    assert_eq!(item_count(&hits), 2);
    assert!(filter_entries(&entries, "zzz").is_empty());
}

#[test]
fn empty_search_keeps_every_entry() {
    let entries = vec![test_entry("b", false, false, ""), test_entry("a.app", true, true, "")];
    let all = filter_entries(&entries, "");
    assert_eq!(all.len(), 2);
    assert_eq!(all[0].name, "b");
    assert_eq!(all[1].name, "a.app");
    assert!(all[1].is_app);
}

use finder::model::{format_mtime, format_size, free_text, size_column, snapshot_changed, LocalStamp};

#[test]
fn sizes_follow_the_documented_units() {
    assert_eq!(format_size(0), "1 KB");
    assert_eq!(format_size(1), "1 KB");
    assert_eq!(format_size(1000), "1 KB");
    assert_eq!(format_size(1001), "2 KB");
    assert_eq!(format_size(23_000), "23 KB");
    assert_eq!(format_size(999_999), "1000 KB");
    assert_eq!(format_size(1_000_000), "1 MB");
    assert_eq!(format_size(1_500_000), "1.5 MB");
    assert_eq!(format_size(1_234_567), "1.23 MB");
    assert_eq!(format_size(1_005_000), "1.01 MB");
    assert_eq!(format_size(9_530_000_000), "9.53 GB");
    assert_eq!(format_size(10_000_000_000), "10 GB");
    assert_eq!(format_size(2_500_000_000_000), "2.5 TB");
    assert_eq!(format_size(u64::MAX), "18446744.07 TB");
}

#[test]
fn size_column_is_empty_for_directories() {
    assert_eq!(size_column(true, 4096), "");
    assert_eq!(size_column(false, 4096), "5 KB");
}

#[test]
fn free_space_uses_a_decimal_comma_in_german() {
    assert_eq!(free_text(Some(1_500_000), true), Some("1,5 MB".to_string()));
    assert_eq!(free_text(Some(1_500_000), false), Some("1.5 MB".to_string()));
    assert_eq!(free_text(Some(9_530_000_000), true), Some("9,53 GB".to_string()));
    assert_eq!(free_text(None, true), None);
}

fn stamp(year: u32, month: u32, day: u32, hour: u32, minute: u32) -> LocalStamp {
    LocalStamp { year, month, day, hour, minute }
}

#[test]
fn dates_follow_the_locale_layout() {
    assert_eq!(format_mtime(Some(stamp(2026, 9, 12, 10, 5)), true), "12.09.2026 10:05");
    assert_eq!(format_mtime(Some(stamp(2026, 9, 12, 10, 5)), false), "09/12/2026 10:05");
    assert_eq!(format_mtime(Some(stamp(987, 12, 31, 23, 59)), false), "12/31/0987 23:59");
    assert_eq!(format_mtime(None, true), "--");
    assert_eq!(format_mtime(None, false), "--");
}

#[test]
fn snapshot_change_detection() {
    let first = snapshot(&vec![snap("a.txt", false, 1, 100)]);
    assert!(!snapshot_changed(&first, &snapshot(&vec![snap("a.txt", false, 1, 100)])));
    let grown = snapshot(&vec![snap("b.txt", false, 1, 101), snap("a.txt", false, 1, 100)]);
    assert!(snapshot_changed(&first, &grown));
    assert!(snapshot_changed(&first, &snapshot(&vec![snap("a.txt", false, 2, 100)])));
    assert!(snapshot_changed(&first, &snapshot(&vec![snap("a.txt", false, 1, 101)])));
    assert!(snapshot_changed(&first, &snapshot(&vec![snap("a.txt", true, 1, 100)])));
    assert!(snapshot_changed(&first, &snapshot(&vec![snap("A.txt", false, 1, 100)])));
}

#[test]
fn a_resolved_name_resolves_to_itself() {
    let file = test_entry("photo.png", false, false, "png");
    let once = resolve_new_name(&file, "  wallpaper ").unwrap();
    assert_eq!(once, "wallpaper.png");
    assert_eq!(resolve_new_name(&file, &once), Some(once.clone()));
    let bundle = test_entry("Demo.app", true, true, "");
    let kept = resolve_new_name(&bundle, "Other.APP").unwrap();
    assert_eq!(resolve_new_name(&bundle, &kept), Some(kept.clone()));
}

#[test]
fn an_appended_app_suffix_is_kept_on_recommit() {
    let bundle = test_entry("Demo.app", true, true, "");
    let once = resolve_new_name(&bundle, " Other ").unwrap();
    assert_eq!(once, "Other.app");
    assert_eq!(resolve_new_name(&bundle, &once), Some(once.clone()));
}
