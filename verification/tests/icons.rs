use finder::icons::{
    app_icon_key, archive_icon, archive_icon_entry, archive_icon_key, audio_icon,
    bundle_icon_candidates, extension_icon, folder_icon, generic_file_icon, icon_path,
    preview_key, proj_icon_path, resource_candidates, resources_file, round_corners, thumb_key, video_icon,
    PixelBuffer,
};

fn strings(v: &[&str]) -> Vec<String> {
    v.iter().map(|s| s.to_string()).collect()
}

fn lookup(dirs: &Vec<String>, parts: &Vec<String>) -> Option<String> {
    let present: Vec<bool> = resource_candidates(dirs, parts)
        .iter()
        .map(|p| std::path::Path::new(p).is_file())
        .collect();
    resources_file(dirs, parts, &present)
}

#[test]
fn missing_icon_returns_none() {
    let dirs = strings(&["Resources", "/usr/share/finder/Resources"]);
    assert!(lookup(&dirs, &icon_path("scalable", "does-not-exist-finder.svg")).is_none());
}

#[test]
fn known_grid_icons_exist() {
    // Runs from a checkout that ships `Resources/`; elsewhere there is
    // nothing to find and the test has nothing to check.
    if std::path::Path::new("Resources/foldericons/scalable/folder.svg").is_file() {
        let dirs = strings(&["Resources"]);
        assert!(lookup(&dirs, &folder_icon("folder.svg")).is_some());
        assert!(lookup(&dirs, &audio_icon()).is_some());
        assert!(lookup(&dirs, &video_icon()).is_some());
        assert!(lookup(&dirs, &archive_icon()).is_some());
        for file in [
            "audio.png", "basis.png", "css.png", "doc.png", "docx.png", "exe.png", "html.png",
            "java.png", "javascript.png", "md.png", "pdf.png", "ppt.png", "python.png",
            "rust.png", "sh.png", "txt.png", "xls.png", "zip.png",
        ] {
            assert!(lookup(&dirs, &extension_icon(file)).is_some(), "missing extension icon: {file}");
        }
    }
}

#[test]
fn icon_resources_map_to_files() {
    assert_eq!(icon_path("16", "a.svg"), strings(&["foldericons", "16", "a.svg"]));
    assert_eq!(folder_icon("folder.svg"), strings(&["foldericons", "scalable", "folder.svg"]));
    assert_eq!(archive_icon(), strings(&["extensionicons", "zip.png"]));
    assert_eq!(extension_icon("pdf.png"), strings(&["extensionicons", "pdf.png"]));
    assert_eq!(generic_file_icon(), strings(&["extensionicons", "basis.png"]));
    assert_eq!(audio_icon(), strings(&["extensionicons", "audio.png"]));
    assert_eq!(
        video_icon(),
        strings(&["foldericons", "scalable", "blue-folder-videos.svg"])
    );
}

#[test]
fn resource_lookup_takes_first_present_candidate() {
    let dirs = strings(&["/cwd/Resources", "/opt/app/", ""]);
    let parts = strings(&["extensionicons", "zip.png"]);
    let cands = resource_candidates(&dirs, &parts);
    assert_eq!(
        cands,
        strings(&[
            "/cwd/Resources/extensionicons/zip.png",
            "/opt/app/extensionicons/zip.png",
            "extensionicons/zip.png",
        ])
    );
    assert_eq!(
        resources_file(&dirs, &parts, &vec![false, true, true]),
        Some("/opt/app/extensionicons/zip.png".to_string())
    );
    assert_eq!(resources_file(&dirs, &parts, &vec![false, false, false]), None);
    // An absolute part replaces the folder.
    let abs = strings(&["/etc/icon.png"]);
    assert_eq!(resources_file(&dirs, &abs, &vec![true, false, false]), Some("/etc/icon.png".to_string()));
}

#[test]
fn thumb_key_is_stable_per_file() {
    let first = thumb_key("/tmp/finder-thumbs", "/home/u/clip.mp4", 1, 1700000000);
    let second = thumb_key("/tmp/finder-thumbs", "/home/u/clip.mp4", 1, 1700000000);
    assert!(first.is_some());
    assert_eq!(first, second);
    assert_eq!(
        first,
        Some("/tmp/finder-thumbs/thumb_clip_1_1700000000.png".to_string())
    );
    // Edited sources get a new key.
    assert_ne!(first, thumb_key("/tmp/finder-thumbs", "/home/u/clip.mp4", 2, 1700000000));
}

#[test]
fn cache_keys_follow_size_and_mtime() {
    let key = |len: u64, mtime: u64| thumb_key("/t", "/v/a.mp4", len, mtime);
    assert_ne!(key(1, 23), key(12, 3));
    assert_ne!(key(1, 2), key(1, 3));
    assert_ne!(key(10, 2), key(1, 2));
    assert_eq!(key(7, 7), key(7, 7));
}

#[test]
fn cache_keys_sanitize_stems() {
    assert_eq!(
        app_icon_key("/tmp", "/x/My App-v1.2.app", 4096, 0),
        Some("/tmp/finder-appicon_My_App_v1_2_4096_0.png".to_string())
    );
    assert_eq!(
        archive_icon_key("/tmp/", "/x/Demo.app", 10, 99),
        Some("/tmp/finder-approw_Demo_10_99.png".to_string())
    );
    assert_eq!(thumb_key("/tmp", "/", 1, 1), None);
}

#[test]
fn bundle_icon_candidates_in_order() {
    assert_eq!(
        bundle_icon_candidates("/a/Demo.app"),
        strings(&[
            "/a/Demo.app/Resources/icon.png",
            "/a/Demo.app/App/icon.png",
            "/a/Demo.app/Resources/app_icon.png",
        ])
    );
}

#[test]
fn archive_entry_prefers_candidate_order() {
    let names = strings(&["Demo.app/App/icon.png", "Demo.app/Resources/icon.png", "README"]);
    assert_eq!(archive_icon_entry(&names), Some("Demo.app/Resources/icon.png".to_string()));
    let plain = strings(&["Resources/icon.png"]);
    assert_eq!(archive_icon_entry(&plain), Some("Resources/icon.png".to_string()));
    let none = strings(&["Resources/logo.png", "icon.png"]);
    assert_eq!(archive_icon_entry(&none), None);
}

#[test]
fn proj_icon_reads_icon_field() {
    assert_eq!(
        proj_icon_path("/a/Demo.app", "{\"icon\": \"art/icon.png\", \"name\": \"Demo\"}"),
        Some("/a/Demo.app/art/icon.png".to_string())
    );
    assert_eq!(proj_icon_path("/a/Demo.app", "{\"icon\": 3}"), None);
    assert_eq!(proj_icon_path("/a/Demo.app", "not json"), None);
    assert_eq!(proj_icon_path("/a/Demo.app", "{}"), None);
}

#[test]
fn round_corners_clears_only_corners() {
    let mut img = PixelBuffer::from_pixel(32, 32, [255, 0, 0, 255]);
    round_corners(&mut img, 10);
    assert_eq!(img.get_pixel(0, 0)[3], 0);
    assert_eq!(img.get_pixel(31, 0)[3], 0);
    assert_eq!(img.get_pixel(0, 31)[3], 0);
    assert_eq!(img.get_pixel(31, 31)[3], 0);
    assert_eq!(img.get_pixel(16, 16)[3], 255);
    assert_eq!(img.get_pixel(16, 0)[3], 255);
    assert_eq!((img.width(), img.height()), (32, 32));
}

#[test]
fn round_corners_zero_radius_keeps_image() {
    let mut img = PixelBuffer::from_pixel(8, 8, [1, 2, 3, 255]);
    round_corners(&mut img, 0);
    let bytes = img.into_rgba();
    assert!(bytes.chunks(4).all(|px| px[3] == 255));
}

#[test]
fn round_corners_keeps_colour_and_is_idempotent() {
    let mut img = PixelBuffer::from_pixel(40, 20, [9, 8, 7, 200]);
    round_corners(&mut img, 100);
    // Radius is capped at half the smaller side (10).
    assert_eq!(img.get_pixel(0, 0), [9, 8, 7, 0]);
    assert_eq!(img.get_pixel(2, 2), [9, 8, 7, 200]);
    assert_eq!(img.get_pixel(3, 0)[3], 0);
    assert_eq!(img.get_pixel(5, 0)[3], 200);
    assert_eq!(img.get_pixel(39, 19)[3], 0);
    assert_eq!(img.get_pixel(20, 0)[3], 200);
    let once = img.into_rgba();
    let mut again = PixelBuffer::from_rgba(40, 20, once.clone()).unwrap();
    round_corners(&mut again, 100);
    assert_eq!(again.into_rgba(), once);
    assert!(PixelBuffer::from_rgba(2, 2, vec![0; 15]).is_none());
}

use finder::icons::{ffmpeg_frame_args, image_placeholder, video_placeholder};

#[test]
fn placeholders_and_ffmpeg_args() {
    assert_eq!(image_placeholder(), strings(&["extensionicons", "image.png"]));
    assert_eq!(video_placeholder(), strings(&["extensionicons", "video.png"]));
    assert_eq!(
        ffmpeg_frame_args("/v/clip.mp4", "/tmp/t.png"),
        strings(&[
            "-y", "-v", "error", "-ss", "1", "-i", "/v/clip.mp4", "-vframes", "1", "-vf",
            "scale=320:-1", "/tmp/t.png",
        ])
    );
}

#[test]
fn preview_key_names_the_cached_photo_preview() {
    assert_eq!(
        preview_key("/tmp/finder-previews", "/home/u/My photo-1.jpg", 2048, 17),
        Some("/tmp/finder-previews/preview_My_photo_1_2048_17.png".to_string())
    );
    assert_eq!(preview_key("/tmp/finder-previews", "/", 1, 1), None);
}
