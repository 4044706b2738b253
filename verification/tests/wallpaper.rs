use wallfetch::cache::palette_hash;
use wallfetch::config::{PaletteConfig, WallpaperConfig, WallpaperSource};
use wallfetch::palette::Reduction;
use wallfetch::wallpaper::{
    child_context, is_path_context, next_poll_action, noctalia_command_arguments,
    noctalia_state_files, normalize_candidate, output_candidates, parse_settings, path_candidates,
    resolve, state_file_candidates, state_image_candidates, ChildStatus, PollAction, SettingsValue,
    WallpaperLookup,
};

#[test]
fn resolves_the_wallpaper_source() {
    let noctalia = WallpaperConfig { source: WallpaperSource::Noctalia, path: None, monitor: Some("DP-1".into()) };
    assert_eq!(resolve(&noctalia, None), Ok(WallpaperLookup::Noctalia(Some("DP-1".into()))));
    assert_eq!(resolve(&noctalia, Some("/w.png")), Ok(WallpaperLookup::File("/w.png".into())));
    let path = WallpaperConfig { source: WallpaperSource::Path, path: None, monitor: None };
    assert_eq!(
        resolve(&path, None),
        Err("wallpaper.source is path but wallpaper.path is missing".to_string())
    );
    let path = WallpaperConfig { source: WallpaperSource::Path, path: Some("~/w.png".into()), monitor: None };
    assert_eq!(resolve(&path, None), Ok(WallpaperLookup::File("~/w.png".into())));
}

#[test]
fn normalizes_reported_paths() {
    assert_eq!(normalize_candidate("  '\"/a b.png\"'\n"), Some("/a b.png".to_string()));
    assert_eq!(normalize_candidate("file:///a%20b.png"), Some("/a b.png".to_string()));
    assert_eq!(normalize_candidate("\"file:///x%2"), Some("/x%2".to_string()));
    assert_eq!(normalize_candidate("file:///%ff"), None);
    assert_eq!(normalize_candidate("plain"), Some("plain".to_string()));
}

#[test]
fn output_candidates_in_order() {
    let output = "first line\nwallpaper: /b.png\r\n  'q1' and \"q2\"\n";
    assert_eq!(
        output_candidates(output),
        vec![
            "'q1' and \"q2\"", "",
            "wallpaper: /b.png", "/b.png",
            "first line", "",
            "q2", "q1",
        ]
    );
    assert_eq!(output_candidates(""), Vec::<String>::new());
    assert_eq!(output_candidates("''x'"), vec!["''x'", "", "x"]);
}

#[test]
fn state_candidates_are_quoted_image_paths() {
    let text = "a = \"/p/one.png\"\nb = '/two.jpeg' c = \"/.png\" d = \"/x.gif\" e = 'rel.png' f = \"/t.webp\"";
    assert_eq!(state_image_candidates(text), vec!["/t.webp", "/two.jpeg", "/p/one.png"]);
}

#[test]
fn toml_contexts() {
    assert_eq!(child_context("", "general"), ".general");
    assert_eq!(child_context(".general", "Wallpaper"), ".general.Wallpaper");
    assert!(is_path_context(".general.WallPaper"));
    assert!(is_path_context(".x.imagePATH"));
    assert!(!is_path_context(".x.image"));
}

#[test]
fn cache_key_hashes_wallpaper_and_settings() {
    let config = PaletteConfig {
        source_count: 8,
        color_count: 5,
        reduction: Reduction::Mean,
        background_threshold_bits: 0.055f64.to_bits(),
    };
    let key = palette_hash(b"image bytes", &config);
    let mut hasher = blake3::Hasher::new();
    hasher.update(b"wallfetch-palette-v1\0");
    hasher.update(b"image bytes");
    hasher.update(&8usize.to_le_bytes());
    hasher.update(&5usize.to_le_bytes());
    hasher.update(&0.055f64.to_le_bytes());
    hasher.update(&[1u8]);
    assert_eq!(key, hasher.finalize().to_hex().to_string());
    let other = PaletteConfig { color_count: 6, ..config };
    assert_ne!(palette_hash(b"image bytes", &other), key);
}

#[test]
fn noctalia_state_files_follow_the_environment() {
    assert_eq!(
        noctalia_state_files(Some("/s"), Some("/h")),
        vec!["/s/noctalia/state.toml", "/s/noctalia/settings.toml"]
    );
    assert_eq!(
        noctalia_state_files(None, Some("/h/")),
        vec!["/h/.local/state/noctalia/state.toml", "/h/.local/state/noctalia/settings.toml"]
    );
    assert!(noctalia_state_files(None, None).is_empty());
}

#[test]
fn state_file_candidates_read_toml_then_quoted_paths() {
    let text = "[monitors]\npaths = [\"/c.png\", \"/d.png\"]\ncount = 3\n\n[general]\nwallpaper = \"/a.png\"\nother = \"/b.png\"\n";
    assert_eq!(
        state_file_candidates(text),
        vec!["/d.png", "/c.png", "/a.png", "/b.png", "/a.png", "/d.png", "/c.png"]
    );
    // Not TOML: only the quoted image paths, last first.
    assert_eq!(state_file_candidates("x = = 'y' \"/e.jpg\""), vec!["/e.jpg"]);
}

#[test]
fn path_candidates_follow_contexts() {
    let value = parse_settings("[a]\nwallpaperPath = \"w\"\nlist = [\"x\", { path = \"y\" }]\nn = 1\n").unwrap();
    assert_eq!(path_candidates(&value, ""), vec!["y", "w"]);
    assert_eq!(
        path_candidates(&SettingsValue::Text("t".into()), ".Path"),
        vec!["t"]
    );
    assert!(path_candidates(&SettingsValue::Other, ".path").is_empty());
    assert_eq!(parse_settings("= broken"), None);
}

#[test]
fn noctalia_command_polling() {
    assert_eq!(noctalia_command_arguments(None), vec!["msg", "wallpaper-get"]);
    assert_eq!(
        noctalia_command_arguments(Some("DP-1")),
        vec!["msg", "wallpaper-get", "DP-1"]
    );
    assert_eq!(next_poll_action(ChildStatus::Exited, 5000), PollAction::ReadOutput);
    assert_eq!(next_poll_action(ChildStatus::Running, 1499), PollAction::Wait);
    assert_eq!(next_poll_action(ChildStatus::Running, 1500), PollAction::Kill);
    assert_eq!(next_poll_action(ChildStatus::Failed, 0), PollAction::GiveUp);
}
