//! Settings and the decisions that depend on them: where the configuration
//! lives, how `~` expands, which template to use, and how command-line
//! overrides apply.

use vstd::prelude::*;
use crate::palette::Reduction;
use crate::text::{chars_of, decimal, push_char, push_decimal, push_str, string_from_chars};

verus! {

/// Where the wallpaper comes from.
#[derive(Clone, Copy, Debug, PartialEq, Eq, Structural)]
pub enum WallpaperSource {
    /// The wallpaper that Noctalia currently shows.
    Noctalia,
    /// The image at `wallpaper.path`.
    Path,
}

impl Default for WallpaperSource {
    fn default() -> (r: Self)
        ensures
            r == WallpaperSource::Noctalia,
    {
        WallpaperSource::Noctalia
    }
}

/// The `[wallpaper]` table.
#[derive(Debug)]
pub struct WallpaperConfig {
    pub source: WallpaperSource,
    pub path: Option<String>,
    pub monitor: Option<String>,
}

impl Default for WallpaperConfig {
    fn default() -> (r: Self)
        ensures
            r.source == WallpaperSource::Noctalia,
            r.path is None,
            r.monitor is None,
    {
        WallpaperConfig { source: WallpaperSource::Noctalia, path: None, monitor: None }
    }
}

/// The IEEE-754 bits of the default background distance threshold, 0.055.
pub const DEFAULT_BACKGROUND_THRESHOLD_BITS: u64 = 0x3fac28f5c28f5c29;

/// The `[palette]` table. The background distance threshold is carried as
/// the IEEE-754 bits of its `f64` value.
#[derive(Debug)]
pub struct PaletteConfig {
    pub source_count: usize,
    pub color_count: usize,
    pub reduction: Reduction,
    pub background_threshold_bits: u64,
}

impl Default for PaletteConfig {
    fn default() -> (r: Self)
        ensures
            r.source_count == 8,
            r.color_count == 5,
            r.reduction == Reduction::Resample,
            r.background_threshold_bits == DEFAULT_BACKGROUND_THRESHOLD_BITS,
    {
        PaletteConfig {
            source_count: 8,
            color_count: 5,
            reduction: Reduction::Resample,
            background_threshold_bits: DEFAULT_BACKGROUND_THRESHOLD_BITS,
        }
    }
}

/// The `[template]` table.
#[derive(Debug)]
pub struct TemplateConfig {
    pub path: Option<String>,
    pub inline: Option<String>,
}

impl Default for TemplateConfig {
    fn default() -> (r: Self)
        ensures
            r.path is None,
            r.inline is None,
    {
        TemplateConfig { path: None, inline: None }
    }
}

/// The whole configuration file.
#[derive(Debug)]
pub struct Config {
    pub wallpaper: WallpaperConfig,
    pub palette: PaletteConfig,
    pub template: TemplateConfig,
}

impl Default for Config {
    fn default() -> (r: Self)
        ensures
            r.wallpaper.source == WallpaperSource::Noctalia,
            r.wallpaper.path is None,
            r.wallpaper.monitor is None,
            r.palette.source_count == 8,
            r.palette.color_count == 5,
            r.palette.reduction == Reduction::Resample,
            r.palette.background_threshold_bits == DEFAULT_BACKGROUND_THRESHOLD_BITS,
            r.template.path is None,
            r.template.inline is None,
    {
        Config {
            wallpaper: WallpaperConfig::default(),
            palette: PaletteConfig::default(),
            template: TemplateConfig::default(),
        }
    }
}

/// The characters of an optional string.
pub open spec fn str_view(s: Option<&str>) -> Option<Seq<char>> {
    match s {
        Some(t) => Some(t@),
        None => None,
    }
}

/// `base` joined with the path `name`: `name` itself when it is absolute,
/// otherwise `name` appended after a `/` separator (none is added to an
/// empty base or one that already ends in `/`).
pub open spec fn spec_join_path(base: Seq<char>, name: Seq<char>) -> Seq<char> {
    if name.len() > 0 && name[0] == '/' {
        name
    } else if base.len() == 0 || base.last() == '/' {
        base + name
    } else {
        base + seq!['/'] + name
    }
}

/// Joins the path `name` onto `base`, as a path component would be pushed.
pub fn join_path(base: &str, name: &str) -> (r: String)
    ensures
        r@ == spec_join_path(base@, name@),
{
    let b = chars_of(base);
    let n = chars_of(name);
    let mut r = String::new();
    if n.len() > 0 && n[0] == '/' {
        push_str(&mut r, name);
        return r;
    }
    push_str(&mut r, base);
    if !(b.len() == 0 || b[b.len() - 1] == '/') {
        push_char(&mut r, '/');
    }
    push_str(&mut r, name);
    r
}

/// The directory that holds user configuration: `$XDG_CONFIG_HOME` when
/// set, else `$HOME/.config`.
pub open spec fn spec_config_home(xdg_config_home: Option<Seq<char>>, home: Option<Seq<char>>) -> Option<Seq<char>> {
    match xdg_config_home {
        Some(x) => Some(x),
        None => match home {
            Some(h) => Some(spec_join_path(h, ".config"@)),
            None => None,
        },
    }
}

/// The error when neither variable that locates the configuration is set.
pub open spec fn no_config_home_message() -> Seq<char> {
    "neither XDG_CONFIG_HOME nor HOME is set"@
}

/// The directory that holds user configuration, given the values of the
/// `XDG_CONFIG_HOME` and `HOME` environment variables.
pub fn config_home(xdg_config_home: Option<&str>, home: Option<&str>) -> (r: Result<String, String>)
    ensures
        match spec_config_home(str_view(xdg_config_home), str_view(home)) {
            Some(dir) => r matches Ok(d) && d@ == dir,
            None => r matches Err(e) && e@ == no_config_home_message(),
        },
{
    match xdg_config_home {
        Some(x) => Ok(x.to_owned()),
        None => match home {
            Some(h) => {
                proof {
                    reveal_strlit(".config");
                }
                Ok(join_path(h, ".config"))
            },
            None => Err("neither XDG_CONFIG_HOME nor HOME is set".to_owned()),
        },
    }
}

/// The default configuration file, `wallfetch/config.toml` in the
/// configuration directory.
pub fn default_config_path(xdg_config_home: Option<&str>, home: Option<&str>) -> (r: Result<String, String>)
    ensures
        match spec_config_home(str_view(xdg_config_home), str_view(home)) {
            Some(dir) => r matches Ok(p) && p@ == spec_join_path(dir, "wallfetch/config.toml"@),
            None => r matches Err(e) && e@ == no_config_home_message(),
        },
{
    let dir = config_home(xdg_config_home, home)?;
    Ok(join_path(dir.as_str(), "wallfetch/config.toml"))
}

/// The preferred directory for runtime files: `wallfetch` under
/// `XDG_RUNTIME_DIR`, when that variable is set.
pub fn runtime_candidate(xdg_runtime_dir: Option<&str>) -> (r: Option<String>)
    ensures
        match str_view(xdg_runtime_dir) {
            Some(dir) => r matches Some(p) && p@ == spec_join_path(dir, "wallfetch"@),
            None => r is None,
        },
{
    match xdg_runtime_dir {
        Some(dir) => Some(join_path(dir, "wallfetch")),
        None => None,
    }
}

/// The runtime directory used when `XDG_RUNTIME_DIR` is unset or unusable:
/// `wallfetch-<uid>` in the temporary directory.
pub open spec fn spec_fallback_runtime_dir(temp_dir: Seq<char>, uid: nat) -> Seq<char> {
    spec_join_path(temp_dir, "wallfetch-"@ + decimal(uid))
}

/// The runtime directory used when `XDG_RUNTIME_DIR` is unset or cannot be
/// created: `wallfetch-<uid>` in the temporary directory `temp_dir`, where
/// `uid` is the owner of the home directory (0 when that is unknown).
pub fn fallback_runtime_dir(temp_dir: &str, uid: u32) -> (r: String)
    ensures
        r@ == spec_fallback_runtime_dir(temp_dir@, uid as nat),
{
    let mut name = String::new();
    push_str(&mut name, "wallfetch-");
    push_decimal(&mut name, uid as u64);
    proof {
        reveal_strlit("wallfetch-");
    }
    join_path(temp_dir, name.as_str())
}

/// The palette cache file, `palette.json` in the runtime directory `dir`.
pub fn cache_file(dir: &str) -> (r: String)
    ensures
        r@ == spec_join_path(dir@, "palette.json"@),
{
    join_path(dir, "palette.json")
}

/// `~/rest` with `~` replaced by the home directory; any other path as it is.
pub open spec fn spec_expand_path(path: Seq<char>, home: Option<Seq<char>>) -> Option<Seq<char>> {
    if path.len() >= 2 && path[0] == '~' && path[1] == '/' {
        match home {
            Some(h) => Some(spec_join_path(h, path.skip(2))),
            None => None,
        }
    } else {
        Some(path)
    }
}

/// The error when `~` cannot be expanded.
pub open spec fn no_home_message() -> Seq<char> {
    "HOME is not set, so ~ cannot be expanded"@
}

/// Expands a leading `~/` to the home directory (the value of `HOME`), and
/// leaves any other path as it is. Fails when the path starts with `~/`
/// and `HOME` is not set.
pub fn expand_path(path: &str, home: Option<&str>) -> (r: Result<String, String>)
    ensures
        match spec_expand_path(path@, str_view(home)) {
            Some(p) => r matches Ok(e) && e@ == p,
            None => r matches Err(e) && e@ == no_home_message(),
        },
{
    let chars = chars_of(path);
    if chars.len() >= 2 && chars[0] == '~' && chars[1] == '/' {
        match home {
            Some(h) => {
                let rest = string_from_chars(&chars, 2);
                Ok(join_path(h, rest.as_str()))
            },
            None => Err("HOME is not set, so ~ cannot be expanded".to_owned()),
        }
    } else {
        Ok(path.to_owned())
    }
}

/// Where a template's text comes from.
#[derive(Debug, PartialEq, Eq)]
pub enum TemplateSource {
    /// The file at this path (before `~` expansion).
    File(String),
    /// This text, given inline in the configuration.
    Inline(String),
}

/// The error when both template settings are given.
pub open spec fn both_templates_message() -> Seq<char> {
    "template.path and template.inline are mutually exclusive"@
}

/// The error when no template is given.
pub open spec fn no_template_message() -> Seq<char> {
    "no template configured; set template.path or template.inline in config.toml, or pass --template"@
}

/// Decides where the template comes from: the file given on the command
/// line, else the configured file or inline text, which exclude each other.
pub fn load_template(config: &TemplateConfig, override_path: Option<&str>) -> (r: Result<TemplateSource, String>)
    ensures
        match override_path {
            Some(p) => r matches Ok(TemplateSource::File(f)) && f@ == p@,
            None => match (config.path, config.inline) {
                (Some(_), Some(_)) => r matches Err(e) && e@ == both_templates_message(),
                (Some(p), None) => r matches Ok(TemplateSource::File(f)) && f@ == p@,
                (None, Some(t)) => r matches Ok(TemplateSource::Inline(s)) && s@ == t@,
                (None, None) => r matches Err(e) && e@ == no_template_message(),
            },
        },
{
    if let Some(path) = override_path {
        return Ok(TemplateSource::File(path.to_owned()));
    }
    match (&config.path, &config.inline) {
        (Some(_), Some(_)) => Err("template.path and template.inline are mutually exclusive".to_owned()),
        (Some(path), None) => Ok(TemplateSource::File(path.clone())),
        (None, Some(template)) => Ok(TemplateSource::Inline(template.clone())),
        (None, None) => Err(
            "no template configured; set template.path or template.inline in config.toml, or pass --template".to_owned(),
        ),
    }
}

/// Settings given on the command line, which take precedence over the
/// configuration file.
#[derive(Debug)]
pub struct Overrides {
    pub monitor: Option<String>,
    pub source_count: Option<usize>,
    pub color_count: Option<usize>,
    pub reduction: Option<Reduction>,
    /// The IEEE-754 bits of the `f64` background distance threshold.
    pub background_threshold_bits: Option<u64>,
}

/// The bits of an `f64` that is finite and greater than zero.
pub open spec fn is_positive_finite_bits(bits: u64) -> bool {
    0 < bits < 0x7ff0_0000_0000_0000
}

/// The error for a palette setting out of range, if any, checked in order.
pub open spec fn palette_error(p: PaletteConfig) -> Option<Seq<char>> {
    if p.source_count == 0 {
        Some("source_count must be at least 1"@)
    } else if p.color_count == 0 {
        Some("color_count must be at least 1"@)
    } else if !is_positive_finite_bits(p.background_threshold_bits) {
        Some("background_threshold must be a positive finite number"@)
    } else {
        None
    }
}

/// The optional override, or the current value without one.
pub open spec fn overridden<T>(o: Option<T>, current: T) -> T {
    match o {
        Some(v) => v,
        None => current,
    }
}

/// Applies the command-line overrides to the configuration, then checks the
/// palette settings: both counts must be at least 1 and the threshold a
/// positive finite number. The overrides are applied even when the check
/// fails.
pub fn apply_overrides(config: &mut Config, overrides: &Overrides) -> (r: Result<(), String>)
    ensures
        final(config).wallpaper.source == old(config).wallpaper.source,
        final(config).wallpaper.path == old(config).wallpaper.path,
        final(config).wallpaper.monitor == match overrides.monitor {
            Some(m) => Some(m),
            None => old(config).wallpaper.monitor,
        },
        final(config).palette.source_count == overridden(
            overrides.source_count,
            old(config).palette.source_count,
        ),
        final(config).palette.color_count == overridden(
            overrides.color_count,
            old(config).palette.color_count,
        ),
        final(config).palette.reduction == overridden(
            overrides.reduction,
            old(config).palette.reduction,
        ),
        final(config).palette.background_threshold_bits == overridden(
            overrides.background_threshold_bits,
            old(config).palette.background_threshold_bits,
        ),
        final(config).template == old(config).template,
        match palette_error(final(config).palette) {
            Some(msg) => r matches Err(e) && e@ == msg,
            None => r is Ok,
        },
{
    if let Some(monitor) = &overrides.monitor {
        config.wallpaper.monitor = Some(monitor.clone());
    }
    if let Some(count) = overrides.source_count {
        config.palette.source_count = count;
    }
    if let Some(count) = overrides.color_count {
        config.palette.color_count = count;
    }
    if let Some(reduction) = overrides.reduction {
        config.palette.reduction = reduction;
    }
    if let Some(bits) = overrides.background_threshold_bits {
        config.palette.background_threshold_bits = bits;
    }
    if config.palette.source_count == 0 {
        return Err("source_count must be at least 1".to_owned());
    }
    if config.palette.color_count == 0 {
        return Err("color_count must be at least 1".to_owned());
    }
    let bits = config.palette.background_threshold_bits;
    if !(0 < bits && bits < 0x7ff0_0000_0000_0000) {
        return Err("background_threshold must be a positive finite number".to_owned());
    }
    Ok(())
}

} // verus!
