use wallfetch::command::{cache_hit, command_stages, reads_cache, CommandKind, Stage};

#[test]
fn colors_resolves_extracts_and_prints() {
    assert_eq!(
        command_stages(CommandKind::Colors),
        vec![Stage::ResolveWallpaper, Stage::ObtainPalette, Stage::PrintColors]
    );
}

#[test]
fn render_with_supplied_colors_touches_no_wallpaper() {
    let stages = command_stages(CommandKind::Render { colors_supplied: true });
    assert_eq!(stages, vec![Stage::ReadTemplate, Stage::ReadSuppliedColors, Stage::RenderTemplate]);
    assert!(!stages.contains(&Stage::ResolveWallpaper));
    assert!(!stages.contains(&Stage::ObtainPalette));
}

#[test]
fn render_without_colors_uses_the_wallpaper_palette() {
    assert_eq!(
        command_stages(CommandKind::Render { colors_supplied: false }),
        vec![Stage::ReadTemplate, Stage::ResolveWallpaper, Stage::ObtainPalette, Stage::RenderTemplate]
    );
}

#[test]
fn no_cache_skips_the_cache() {
    assert!(!reads_cache(true));
    assert!(reads_cache(false));
}

#[test]
fn cache_hits_only_on_the_same_key() {
    assert!(cache_hit("abc123", "abc123"));
    assert!(!cache_hit("abc123", "abc124"));
    assert!(!cache_hit("abc", "abc123"));
    assert!(cache_hit("", ""));
}
