use wallfetch::config::{
    apply_overrides, cache_file, config_home, default_config_path, expand_path,
    fallback_runtime_dir, join_path, load_template, runtime_candidate,
    Config, Overrides, TemplateConfig, TemplateSource, WallpaperSource,
    DEFAULT_BACKGROUND_THRESHOLD_BITS,
};
use wallfetch::palette::Reduction;

#[test]
fn defaults_are_stable() {
    let config = Config::default();
    assert_eq!(config.wallpaper.source, WallpaperSource::Noctalia);
    assert_eq!(config.palette.source_count, 8);
    assert_eq!(config.palette.color_count, 5);
}

#[test]
fn default_threshold_is_0_055() {
    assert_eq!(f64::from_bits(DEFAULT_BACKGROUND_THRESHOLD_BITS), 0.055);
    assert_eq!(Config::default().palette.reduction, Reduction::Resample);
}

#[test]
fn joins_paths() {
    assert_eq!(join_path("/home/u", ".config"), "/home/u/.config");
    assert_eq!(join_path("/home/u/", ".config"), "/home/u/.config");
    assert_eq!(join_path("", "a/b"), "a/b");
    assert_eq!(join_path("/home/u", "/etc"), "/etc");
}

#[test]
fn finds_the_config_file() {
    assert_eq!(config_home(Some("/x"), Some("/h")), Ok("/x".to_string()));
    assert_eq!(config_home(None, Some("/h")), Ok("/h/.config".to_string()));
    assert_eq!(
        config_home(None, None),
        Err("neither XDG_CONFIG_HOME nor HOME is set".to_string())
    );
    assert_eq!(
        default_config_path(None, Some("/h")),
        Ok("/h/.config/wallfetch/config.toml".to_string())
    );
}

#[test]
fn expands_home() {
    assert_eq!(expand_path("~/p.png", Some("/h")), Ok("/h/p.png".to_string()));
    assert_eq!(expand_path("~p.png", Some("/h")), Ok("~p.png".to_string()));
    assert_eq!(expand_path("/abs", None), Ok("/abs".to_string()));
    assert_eq!(
        expand_path("~/p.png", None),
        Err("HOME is not set, so ~ cannot be expanded".to_string())
    );
}

#[test]
fn chooses_the_template() {
    let both = TemplateConfig { path: Some("t".into()), inline: Some("$1".into()) };
    assert_eq!(
        load_template(&both, None),
        Err("template.path and template.inline are mutually exclusive".to_string())
    );
    assert_eq!(load_template(&both, Some("o")), Ok(TemplateSource::File("o".into())));
    let inline = TemplateConfig { path: None, inline: Some("$1one $2two".into()) };
    assert_eq!(
        load_template(&inline, None),
        Ok(TemplateSource::Inline("$1one $2two".into()))
    );
    let none = TemplateConfig::default();
    assert!(load_template(&none, None).unwrap_err().starts_with("no template configured"));
}

fn no_overrides() -> Overrides {
    Overrides {
        monitor: None,
        source_count: None,
        color_count: None,
        reduction: None,
        background_threshold_bits: None,
    }
}

#[test]
fn applies_and_checks_overrides() {
    let mut config = Config::default();
    let overrides = Overrides {
        monitor: Some("DP-1".into()),
        color_count: Some(3),
        reduction: Some(Reduction::Mean),
        ..no_overrides()
    };
    assert_eq!(apply_overrides(&mut config, &overrides), Ok(()));
    assert_eq!(config.wallpaper.monitor.as_deref(), Some("DP-1"));
    assert_eq!(config.palette.color_count, 3);
    assert_eq!(config.palette.source_count, 8);
    assert_eq!(config.palette.reduction, Reduction::Mean);

    let zero = Overrides { source_count: Some(0), ..no_overrides() };
    assert_eq!(
        apply_overrides(&mut config, &zero),
        Err("source_count must be at least 1".to_string())
    );
    assert_eq!(config.palette.source_count, 0);

    let mut config = Config::default();
    let zero = Overrides { color_count: Some(0), ..no_overrides() };
    assert_eq!(
        apply_overrides(&mut config, &zero),
        Err("color_count must be at least 1".to_string())
    );

    for bad in [0.0, -0.0, -1.0, f64::INFINITY, f64::NAN, f64::NEG_INFINITY] {
        let mut config = Config::default();
        let o = Overrides { background_threshold_bits: Some(f64::to_bits(bad)), ..no_overrides() };
        assert_eq!(
            apply_overrides(&mut config, &o),
            Err("background_threshold must be a positive finite number".to_string())
        );
    }
    for good in [f64::MIN_POSITIVE, 5e-324, 0.055, f64::MAX] {
        let mut config = Config::default();
        let o = Overrides { background_threshold_bits: Some(f64::to_bits(good)), ..no_overrides() };
        assert_eq!(apply_overrides(&mut config, &o), Ok(()));
    }
}

#[test]
fn runtime_directory_prefers_xdg_runtime_dir() {
    assert_eq!(runtime_candidate(Some("/run/user/1000")), Some("/run/user/1000/wallfetch".to_owned()));
    assert_eq!(runtime_candidate(Some("/run/user/1000/")), Some("/run/user/1000/wallfetch".to_owned()));
    assert_eq!(runtime_candidate(None), None);
}

#[test]
fn runtime_directory_falls_back_to_temp_with_uid() {
    assert_eq!(fallback_runtime_dir("/tmp", 1000), "/tmp/wallfetch-1000");
    assert_eq!(fallback_runtime_dir("/tmp/", 0), "/tmp/wallfetch-0");
    assert_eq!(fallback_runtime_dir("/var/tmp", 4294967295), "/var/tmp/wallfetch-4294967295");
    assert_eq!(cache_file("/tmp/wallfetch-7"), "/tmp/wallfetch-7/palette.json");
}
