//! Deciding which wallpaper image to read, and reading candidate image
//! paths out of the text that Noctalia reports or stores.

use vstd::prelude::*;
use crate::config::{join_path, spec_join_path, str_view, WallpaperConfig};
use crate::text::{
    after_separator, ascii_lower, ascii_lowercase, chars_of, contains_seq, is_quote, occurs, push_char,
    push_str, split_lines, strip, strip_chars, string_from_chars, text_lines,
};

verus! {

/// Where the wallpaper image is to be found.
#[derive(Debug, PartialEq, Eq)]
pub enum WallpaperLookup {
    /// The existing file at this path (after `~` expansion).
    File(String),
    /// The wallpaper that Noctalia shows, on this monitor if one is named.
    Noctalia(Option<String>),
}

/// The error when the configuration asks for a path it does not give.
pub open spec fn missing_path_message() -> Seq<char> {
    "wallpaper.source is path but wallpaper.path is missing"@
}

/// Decides where the wallpaper comes from: the path given on the command
/// line, else the configured source.
pub fn resolve(config: &WallpaperConfig, override_path: Option<&str>) -> (r: Result<WallpaperLookup, String>)
    ensures
        match override_path {
            Some(p) => r matches Ok(WallpaperLookup::File(f)) && f@ == p@,
            None => match config.source {
                crate::config::WallpaperSource::Path => match config.path {
                    Some(p) => r matches Ok(WallpaperLookup::File(f)) && f@ == p@,
                    None => r matches Err(e) && e@ == missing_path_message(),
                },
                crate::config::WallpaperSource::Noctalia => r == Ok::<WallpaperLookup, String>(
                    WallpaperLookup::Noctalia(config.monitor),
                ),
            },
        },
{
    if let Some(path) = override_path {
        return Ok(WallpaperLookup::File(path.to_owned()));
    }
    match config.source {
        crate::config::WallpaperSource::Path => match &config.path {
            Some(path) => Ok(WallpaperLookup::File(path.clone())),
            None => Err("wallpaper.source is path but wallpaper.path is missing".to_owned()),
        },
        crate::config::WallpaperSource::Noctalia => Ok(WallpaperLookup::Noctalia(config.monitor.clone())),
    }
}

/// What the percent-decoding of `s` gives: the decoded text, or `None`
/// when the decoded bytes are not UTF-8.
pub uninterp spec fn url_decoded(s: Seq<char>) -> Option<Seq<char>>;

/// Percent-decodes `s` with `urlencoding::decode`: text without `%` comes
/// back as it is, and the decoding fails only where the decoded bytes are not
/// UTF-8. What other text decodes to is named `url_decoded`.
#[verifier::external_body]
fn percent_decode(s: &str) -> (r: Option<String>)
    ensures
        r is None <==> url_decoded(s@) is None,
        r matches Some(d) ==> url_decoded(s@) == Some(d@),
        s@.contains('%') || (r is Some && r.unwrap()@ == s@),
{
    match urlencoding::decode(s) {
        Ok(decoded) => Some(decoded.into_owned()),
        Err(_) => None,
    }
}

/// The prefix of a file URL.
pub open spec fn file_scheme() -> Seq<char> {
    seq!['f', 'i', 'l', 'e', ':', '/', '/']
}

/// The path a piece of reported text names: the text without surrounding
/// whitespace and then without surrounding quotation marks, and, for a
/// `file://` URL, what follows the scheme, percent-decoded.
pub open spec fn spec_normalize_candidate(text: Seq<char>) -> Option<Seq<char>> {
    let value = strip(strip(text, false), true);
    if value.len() >= 7 && value.take(7) == file_scheme() {
        url_decoded(value.skip(7))
    } else {
        Some(value)
    }
}

/// The path a piece of reported text names, before it is checked to exist:
/// the text trimmed of whitespace and of quotation marks, with a `file://`
/// URL percent-decoded. `None` when such a URL does not decode to UTF-8.
pub fn normalize_candidate(text: &str) -> (r: Option<String>)
    ensures
        match spec_normalize_candidate(text@) {
            Some(p) => r matches Some(s) && s@ == p,
            None => r is None,
        },
{
    let chars = chars_of(text);
    let trimmed = strip_chars(&chars, false);
    let value = strip_chars(&trimmed, true);
    let is_url = value.len() >= 7 && value[0] == 'f' && value[1] == 'i' && value[2] == 'l' && value[3]
        == 'e' && value[4] == ':' && value[5] == '/' && value[6] == '/';
    proof {
        if value@.len() >= 7 {
            if is_url {
                assert(value@.take(7) =~= file_scheme());
            } else {
                assert(value@.take(7) != file_scheme()) by {
                    if value@.take(7) == file_scheme() {
                        assert(value@.take(7)[0] == 'f');
                    }
                }
            }
        }
    }
    if is_url {
        let rest = string_from_chars(&value, 7);
        percent_decode(rest.as_str())
    } else {
        Some(string_from_chars(&value, 0))
    }
}

/// The first index of a quotation mark in `s` at or after `i`, or the
/// length of `s` when there is none.
pub open spec fn next_quote(s: Seq<char>, i: nat) -> nat
    decreases s.len() - i,
{
    if i >= s.len() {
        s.len()
    } else if is_quote(s[i as int]) {
        i
    } else {
        next_quote(s, i + 1)
    }
}

/// The next quotation mark lies between `i` and the end of `s`.
pub proof fn lemma_next_quote_bounds(s: Seq<char>, i: nat)
    ensures
        i <= next_quote(s, i) || next_quote(s, i) == s.len(),
        next_quote(s, i) <= s.len() || i > s.len(),
    decreases s.len() - i,
{
    if i < s.len() && !is_quote(s[i as int]) {
        lemma_next_quote_bounds(s, i + 1);
    }
}

/// `s` ends with `ext`, after at least two other characters.
pub open spec fn ends_with_after_two(s: Seq<char>, ext: Seq<char>) -> bool {
    s.len() >= ext.len() + 2 && s.skip(s.len() - ext.len()) == ext
}

/// A span that names an absolute path to an image: `/`, at least one more
/// character, and `.png`, `.jpg`, `.jpeg` or `.webp`.
pub open spec fn is_image_span(span: Seq<char>) -> bool {
    &&& span.len() > 0
    &&& span[0] == '/'
    &&& {
        ||| ends_with_after_two(span, seq!['.', 'p', 'n', 'g'])
        ||| ends_with_after_two(span, seq!['.', 'j', 'p', 'g'])
        ||| ends_with_after_two(span, seq!['.', 'j', 'p', 'e', 'g'])
        ||| ends_with_after_two(span, seq!['.', 'w', 'e', 'b', 'p'])
    }
}

/// The quoted spans of `s` from index `i` on, as the patterns
/// `["']([^"']+)["']` (all spans) and `["'](/[^"']+\.(?:png|jpe?g|webp))["']`
/// (image spans only) capture them: scanning left to right, a quotation mark
/// opens a span that runs to the next quotation mark; when the span is empty
/// or not of the wanted kind, the scan goes on after the opening mark, and
/// after a span it goes on after the closing mark.
pub open spec fn spans_from(s: Seq<char>, i: nat, images: bool) -> Seq<Seq<char>>
    decreases s.len() - i,
{
    if i >= s.len() {
        seq![]
    } else if !is_quote(s[i as int]) {
        spans_from(s, i + 1, images)
    } else {
        let j = next_quote(s, i + 1);
        if j >= s.len() {
            seq![]
        } else {
            let span = s.subrange(i + 1 as int, j as int);
            proof {
                lemma_next_quote_bounds(s, i + 1);
            }
            if span.len() > 0 && (!images || is_image_span(span)) {
                seq![span] + spans_from(s, j + 1, images)
            } else {
                spans_from(s, i + 1, images)
            }
        }
    }
}

/// The pattern whose first group is the contents of a quoted span.
pub open spec fn quoted_pattern() -> Seq<char> {
    "[\"']([^\"']+)[\"']"@
}

/// The pattern whose first group is a quoted absolute image path.
pub open spec fn image_pattern() -> Seq<char> {
    "[\"'](/[^\"']+\\.(?:png|jpe?g|webp))[\"']"@
}

/// The first capture group of every match of `pattern` in `text`, from
/// `regex::Regex::new` and `Regex::captures_iter`. For the two patterns the
/// library uses, the contract states their leftmost-first, non-overlapping
/// matches as `spans_from` describes them; the patterns are valid, so
/// `Regex::new` does not fail on them.
#[verifier::external_body]
fn first_group_matches(pattern: &str, text: &str) -> (r: Vec<String>)
    requires
        pattern@ == quoted_pattern() || pattern@ == image_pattern(),
    ensures
        pattern@ == quoted_pattern() ==> r@.map_values(|x: String| x@) == spans_from(text@, 0, false),
        pattern@ == image_pattern() ==> r@.map_values(|x: String| x@) == spans_from(text@, 0, true),
{
    let regex = regex::Regex::new(pattern).unwrap();
    regex.captures_iter(text).map(|c| c[1].to_string()).collect()
}

/// The candidates one line of reported text offers, in order: the line
/// without surrounding whitespace, and what follows its first `: `.
pub open spec fn line_candidates(line: Seq<char>) -> Seq<Seq<char>> {
    let t = strip(line, false);
    seq![t, after_separator(t)]
}

/// The candidates of the first `k` lines, from line `k - 1` back to the
/// first line.
pub open spec fn candidates_of_lines(lines: Seq<Seq<char>>, k: nat) -> Seq<Seq<char>>
    decreases k,
{
    if k == 0 || k > lines.len() {
        seq![]
    } else {
        line_candidates(lines[k - 1]) + candidates_of_lines(lines, (k - 1) as nat)
    }
}

/// The texts that may name the current wallpaper in a command's output, in
/// the order they are tried: for each line from the last to the first, the
/// trimmed line and what follows its first `: `; then the quoted spans of
/// the whole output, from the last to the first.
pub open spec fn spec_output_candidates(output: Seq<char>) -> Seq<Seq<char>> {
    let lines = text_lines(output);
    candidates_of_lines(lines, lines.len()) + spans_from(output, 0, false).reverse()
}

fn push_reversed(out: &mut Vec<String>, items: Vec<String>)
    ensures
        final(out)@.map_values(|x: String| x@) == old(out)@.map_values(|x: String| x@) + items@.map_values(
            |x: String| x@,
        ).reverse(),
{
    let ghost start = old(out)@.map_values(|x: String| x@);
    let ghost all = items@.map_values(|x: String| x@);
    let mut items = items;
    let n = items.len();
    while items.len() > 0
        invariant
            items@.len() <= n,
            n == all.len(),
            forall|i: int| 0 <= i < items@.len() ==> (#[trigger] items@[i])@ == all[i],
            out@.map_values(|x: String| x@) == start + all.reverse().take(n - items@.len()),
        decreases items.len(),
    {
        let ghost before = out@.map_values(|x: String| x@);
        let ghost len = items@.len();
        let item = items.pop().unwrap();
        assert(item@ == all[len - 1]);
        out.push(item);
        assert(all.reverse().take(n - len + 1) =~= all.reverse().take(n - len).push(all[len - 1]));
        assert(out@.map_values(|x: String| x@) =~= before.push(item@));
    }
    assert(all.reverse().take(n as int) =~= all.reverse());
}

/// The texts that may name the current wallpaper in the output of a
/// command, in the order they are tried.
pub fn output_candidates(output: &str) -> (r: Vec<String>)
    ensures
        r@.map_values(|x: String| x@) == spec_output_candidates(output@),
{
    let chars = chars_of(output);
    let lines = split_lines(&chars);
    let ghost spec_lines = text_lines(output@);
    let mut out: Vec<String> = Vec::new();
    let mut k: usize = lines.len();
    assert(out@.map_values(|x: String| x@) =~= Seq::<Seq<char>>::empty());
    while k > 0
        invariant
            k <= lines@.len(),
            chars@ == output@,
            spec_lines == text_lines(output@),
            lines@.len() == spec_lines.len(),
            forall|i: int| 0 <= i < lines@.len() ==> (#[trigger] lines@[i])@ == spec_lines[i],
            candidates_of_lines(spec_lines, spec_lines.len()) == out@.map_values(|x: String| x@)
                + candidates_of_lines(spec_lines, k as nat),
        decreases k,
    {
        let ghost before = out@.map_values(|x: String| x@);
        let trimmed = strip_chars(&lines[k - 1], false);
        let rhs = crate::text::text_after_separator(&trimmed);
        out.push(string_from_chars(&trimmed, 0));
        out.push(string_from_chars(&rhs, 0));
        proof {
            assert(trimmed@.skip(0) =~= trimmed@);
            assert(rhs@.skip(0) =~= rhs@);
            assert(out@.map_values(|x: String| x@) =~= before + line_candidates(spec_lines[k - 1]));
            assert(candidates_of_lines(spec_lines, k as nat) == line_candidates(spec_lines[k - 1])
                + candidates_of_lines(spec_lines, (k - 1) as nat));
        }
        k -= 1;
    }
    assert(candidates_of_lines(spec_lines, 0) =~= Seq::<Seq<char>>::empty());
    push_reversed(&mut out, first_group_matches("[\"']([^\"']+)[\"']", output));
    out
}

/// The absolute image paths quoted in a state file, from the last to the
/// first.
pub fn state_image_candidates(text: &str) -> (r: Vec<String>)
    ensures
        r@.map_values(|x: String| x@) == spans_from(text@, 0, true).reverse(),
{
    let mut out: Vec<String> = Vec::new();
    assert(out@.map_values(|x: String| x@) =~= Seq::<Seq<char>>::empty());
    push_reversed(
        &mut out,
        first_group_matches("[\"'](/[^\"']+\\.(?:png|jpe?g|webp))[\"']", text),
    );
    out
}

/// The context of a table entry: the context of its table, a dot, and
/// its key.
pub fn child_context(context: &str, key: &str) -> (r: String)
    ensures
        r@ == context@ + seq!['.'] + key@,
{
    let mut r = String::new();
    push_str(&mut r, context);
    push_char(&mut r, '.');
    push_str(&mut r, key);
    r
}

/// The words that mark a setting as one that may hold a wallpaper path.
pub open spec fn path_words() -> (Seq<char>, Seq<char>) {
    (seq!['w', 'a', 'l', 'l', 'p', 'a', 'p', 'e', 'r'], seq!['p', 'a', 't', 'h'])
}

/// A string setting may hold a wallpaper path when its context, in ASCII
/// lower case, mentions `wallpaper` or `path`.
pub open spec fn spec_is_path_context(context: Seq<char>) -> bool {
    let lower = context.map_values(|c: char| ascii_lower(c));
    occurs(lower, path_words().0) || occurs(lower, path_words().1)
}

/// Whether a string setting with this context (the dotted keys that lead
/// to it) may hold a wallpaper path.
pub fn is_path_context(context: &str) -> (r: bool)
    ensures
        r == spec_is_path_context(context@),
{
    let lower = ascii_lowercase(&chars_of(context));
    let mut wallpaper: Vec<char> = Vec::new();
    wallpaper.push('w');
    wallpaper.push('a');
    wallpaper.push('l');
    wallpaper.push('l');
    wallpaper.push('p');
    wallpaper.push('a');
    wallpaper.push('p');
    wallpaper.push('e');
    wallpaper.push('r');
    let mut path: Vec<char> = Vec::new();
    path.push('p');
    path.push('a');
    path.push('t');
    path.push('h');
    assert(wallpaper@ =~= path_words().0);
    assert(path@ =~= path_words().1);
    contains_seq(&lower, &wallpaper) || contains_seq(&lower, &path)
}

/// Noctalia's state directory: `$XDG_STATE_HOME/noctalia`, or
/// `$HOME/.local/state/noctalia`; `None` when neither variable is set.
pub open spec fn spec_noctalia_state_dir(xdg_state_home: Option<Seq<char>>, home: Option<Seq<char>>) -> Option<Seq<char>> {
    match xdg_state_home {
        Some(x) => Some(spec_join_path(x, "noctalia"@)),
        None => match home {
            Some(h) => Some(spec_join_path(spec_join_path(h, ".local/state"@), "noctalia"@)),
            None => None,
        },
    }
}

/// The files in which Noctalia records its wallpaper, in the order they are
/// read, given the values of `XDG_STATE_HOME` and `HOME`: `state.toml` and
/// `settings.toml` in its state directory, or none when neither variable is
/// set.
pub fn noctalia_state_files(xdg_state_home: Option<&str>, home: Option<&str>) -> (r: Vec<String>)
    ensures
        match spec_noctalia_state_dir(str_view(xdg_state_home), str_view(home)) {
            Some(dir) => r@.len() == 2 && r@[0]@ == spec_join_path(dir, "state.toml"@) && r@[1]@
                == spec_join_path(dir, "settings.toml"@),
            None => r@.len() == 0,
        },
{
    let dir = match xdg_state_home {
        Some(x) => join_path(x, "noctalia"),
        None => match home {
            Some(h) => join_path(join_path(h, ".local/state").as_str(), "noctalia"),
            None => return Vec::new(),
        },
    };
    let mut files: Vec<String> = Vec::new();
    files.push(join_path(dir.as_str(), "state.toml"));
    files.push(join_path(dir.as_str(), "settings.toml"));
    files
}

/// A value of a settings document (TOML), as far as the search for a
/// wallpaper path reads it.
#[derive(Debug, PartialEq, Eq)]
pub enum SettingsValue {
    /// A table: its keys and values, in the order the document's table
    /// iterates them.
    Table(Vec<(String, SettingsValue)>),
    /// An array of values.
    Array(Vec<SettingsValue>),
    /// A string.
    Text(String),
    /// Any other value: a number, a boolean or a date.
    Other,
}

/// The value of every string setting below `v` whose context may hold a
/// wallpaper path, in document order: a table extends the context of its
/// entries with `.key`, and array items keep the context of the array.
pub open spec fn spec_path_candidates(v: SettingsValue, context: Seq<char>) -> Seq<Seq<char>>
    decreases v, 0nat,
{
    match v {
        SettingsValue::Table(entries) => entry_candidates(entries@, context, entries@.len()),
        SettingsValue::Array(items) => item_candidates(items@, context, items@.len()),
        SettingsValue::Text(s) => if spec_is_path_context(context) {
            seq![s@]
        } else {
            seq![]
        },
        SettingsValue::Other => seq![],
    }
}

/// The candidates of the first `k` entries of a table with the given
/// context, in order.
pub open spec fn entry_candidates(entries: Seq<(String, SettingsValue)>, context: Seq<char>, k: nat) -> Seq<Seq<char>>
    decreases entries, k,
{
    if k == 0 || k > entries.len() {
        seq![]
    } else {
        entry_candidates(entries, context, (k - 1) as nat) + spec_path_candidates(
            entries[k - 1].1,
            context + seq!['.'] + entries[k - 1].0@,
        )
    }
}

/// The candidates of the first `k` items of an array with the given
/// context, in order.
pub open spec fn item_candidates(items: Seq<SettingsValue>, context: Seq<char>, k: nat) -> Seq<Seq<char>>
    decreases items, k,
{
    if k == 0 || k > items.len() {
        seq![]
    } else {
        item_candidates(items, context, (k - 1) as nat) + spec_path_candidates(items[k - 1], context)
    }
}

fn append_strings(out: &mut Vec<String>, more: Vec<String>)
    ensures
        final(out)@.map_values(|x: String| x@) == old(out)@.map_values(|x: String| x@) + more@.map_values(
            |x: String| x@,
        ),
{
    let ghost start = old(out)@.map_values(|x: String| x@);
    let ghost all = more@.map_values(|x: String| x@);
    let mut i: usize = 0;
    while i < more.len()
        invariant
            i <= more@.len(),
            all == more@.map_values(|x: String| x@),
            out@.map_values(|x: String| x@) == start + all.take(i as int),
        decreases more.len() - i,
    {
        let ghost before = out@.map_values(|x: String| x@);
        out.push(more[i].clone());
        assert(out@.map_values(|x: String| x@) =~= before.push(all[i as int]));
        i += 1;
        assert(all.take(i as int) =~= all.take(i - 1).push(all[i - 1]));
    }
    assert(all.take(more@.len() as int) =~= all);
}

/// The value of every string setting below `v` whose context may hold a
/// wallpaper path, in document order, `context` being the context of `v`.
pub fn path_candidates(v: &SettingsValue, context: &str) -> (r: Vec<String>)
    ensures
        r@.map_values(|x: String| x@) == spec_path_candidates(*v, context@),
    decreases v,
{
    match v {
        SettingsValue::Table(entries) => {
            let mut out: Vec<String> = Vec::new();
            let mut i: usize = 0;
            assert(out@.map_values(|x: String| x@) =~= Seq::<Seq<char>>::empty());
            while i < entries.len()
                invariant
                    *v == SettingsValue::Table(*entries),
                    i <= entries@.len(),
                    out@.map_values(|x: String| x@) == entry_candidates(entries@, context@, i as nat),
                decreases entries.len() - i,
            {
                let entry = &entries[i];
                let child = child_context(context, entry.0.as_str());
                proof {
                    assert(decreases_to!(*v => (*v)->Table_0));
                    assert(decreases_to!(*entries => entries@));
                    assert(decreases_to!(entries@ => entries@[i as int]));
                    assert(decreases_to!(entries@[i as int] => entries@[i as int].1));
                }
                let more = path_candidates(&entry.1, child.as_str());
                append_strings(&mut out, more);
                i += 1;
            }
            out
        },
        SettingsValue::Array(items) => {
            let mut out: Vec<String> = Vec::new();
            let mut i: usize = 0;
            assert(out@.map_values(|x: String| x@) =~= Seq::<Seq<char>>::empty());
            while i < items.len()
                invariant
                    *v == SettingsValue::Array(*items),
                    i <= items@.len(),
                    out@.map_values(|x: String| x@) == item_candidates(items@, context@, i as nat),
                decreases items.len() - i,
            {
                proof {
                    assert(decreases_to!(*v => (*v)->Array_0));
                    assert(decreases_to!(*items => items@));
                    assert(decreases_to!(items@ => items@[i as int]));
                }
                let more = path_candidates(&items[i], context);
                append_strings(&mut out, more);
                i += 1;
            }
            out
        },
        SettingsValue::Text(s) => {
            let mut out: Vec<String> = Vec::new();
            if is_path_context(context) {
                out.push(s.clone());
                assert(out@.map_values(|x: String| x@) =~= seq![s@]);
            } else {
                assert(out@.map_values(|x: String| x@) =~= Seq::<Seq<char>>::empty());
            }
            out
        },
        SettingsValue::Other => {
            let out: Vec<String> = Vec::new();
            assert(out@.map_values(|x: String| x@) =~= Seq::<Seq<char>>::empty());
            out
        },
    }
}

/// A parsed TOML value, carried opaquely.
#[verifier::external_type_specification]
#[verifier::external_body]
pub struct ExTomlValue(toml::Value);

/// The settings tree that a TOML document parses to, converted one variant
/// for one variant into `SettingsValue`; `None` when the text is not a TOML
/// document.
pub uninterp spec fn settings_tree(text: Seq<char>) -> Option<SettingsValue>;

/// Converts a parsed TOML value into a `SettingsValue`, variant for variant:
/// tables (in the order `toml::Table` iterates them) and arrays element by
/// element, strings as they are, and every other kind as `Other`. This is
/// the conversion half of `parse_settings`, which names its result.
#[verifier::external_body]
fn settings_value(v: &toml::Value) -> SettingsValue {
    match v {
        toml::Value::Table(t) => SettingsValue::Table(
            t.iter().map(|(k, v)| (k.clone(), settings_value(v))).collect(),
        ),
        toml::Value::Array(a) => SettingsValue::Array(a.iter().map(settings_value).collect()),
        toml::Value::String(s) => SettingsValue::Text(s.clone()),
        _ => SettingsValue::Other,
    }
}

/// Parses a TOML document with `str::parse::<toml::Value>` (that is,
/// `toml::from_str`) and converts it one for one into a `SettingsValue`.
/// Its result is named `settings_tree`; nothing more is claimed of it.
#[verifier::external_body]
pub fn parse_settings(text: &str) -> (r: Option<SettingsValue>)
    ensures
        r == settings_tree(text@),
{
    match text.parse::<toml::Value>() {
        Ok(value) => Some(settings_value(&value)),
        Err(_) => None,
    }
}

/// The candidate wallpaper paths of a Noctalia state file, in the order they
/// are tried: the path settings of the file read as TOML, from the last to
/// the first (none when it is not TOML), then the quoted absolute image paths
/// of its text, from the last to the first.
pub open spec fn spec_state_file_candidates(text: Seq<char>) -> Seq<Seq<char>> {
    let settings = match settings_tree(text) {
        Some(v) => spec_path_candidates(v, seq![]).reverse(),
        None => seq![],
    };
    settings + spans_from(text, 0, true).reverse()
}

/// The candidate wallpaper paths of a Noctalia state file, in the order
/// they are tried; the first that names an existing file is the wallpaper.
pub fn state_file_candidates(text: &str) -> (r: Vec<String>)
    ensures
        r@.map_values(|x: String| x@) == spec_state_file_candidates(text@),
{
    let mut out: Vec<String> = Vec::new();
    assert(out@.map_values(|x: String| x@) =~= Seq::<Seq<char>>::empty());
    if let Some(value) = parse_settings(text) {
        let found = path_candidates(&value, "");
        proof {
            reveal_strlit("");
            assert(""@ =~= Seq::<char>::empty());
        }
        push_reversed(&mut out, found);
    }
    let images = state_image_candidates(text);
    append_strings(&mut out, images);
    out
}

/// The arguments of the `noctalia` command that reports the wallpaper:
/// `msg wallpaper-get`, and the monitor when one is named.
pub fn noctalia_command_arguments(monitor: Option<&str>) -> (r: Vec<String>)
    ensures
        r@.len() == if monitor is Some { 3int } else { 2int },
        r@[0]@ == "msg"@,
        r@[1]@ == "wallpaper-get"@,
        monitor matches Some(m) ==> r@[2]@ == m@,
{
    let mut r: Vec<String> = Vec::new();
    r.push("msg".to_owned());
    r.push("wallpaper-get".to_owned());
    if let Some(m) = monitor {
        r.push(m.to_owned());
    }
    r
}

/// How long the `noctalia` command may run before it is given up on.
pub const COMMAND_TIMEOUT_MILLIS: u128 = 1500;

/// What a poll of the running `noctalia` command found.
#[derive(Clone, Copy, Debug, PartialEq, Eq)]
pub enum ChildStatus {
    /// The command has exited.
    Exited,
    /// The command is still running.
    Running,
    /// Its status could not be read.
    Failed,
}

/// What to do after a poll of the running `noctalia` command.
#[derive(Clone, Copy, Debug, PartialEq, Eq)]
pub enum PollAction {
    /// Read the command's output.
    ReadOutput,
    /// Sleep briefly and poll again.
    Wait,
    /// Kill the command and reap it; there is no answer.
    Kill,
    /// Give up; there is no answer.
    GiveUp,
}

/// The next step while waiting for the `noctalia` command, given what the
/// poll found and how many whole milliseconds have passed since it started:
/// read the output once it has exited, wait while it runs within the
/// timeout, kill it after that, and give up when its status cannot be read.
pub fn next_poll_action(status: ChildStatus, elapsed_millis: u128) -> (r: PollAction)
    ensures
        r == match status {
            ChildStatus::Exited => PollAction::ReadOutput,
            ChildStatus::Running => if elapsed_millis < COMMAND_TIMEOUT_MILLIS {
                PollAction::Wait
            } else {
                PollAction::Kill
            },
            ChildStatus::Failed => PollAction::GiveUp,
        },
{
    match status {
        ChildStatus::Exited => PollAction::ReadOutput,
        ChildStatus::Running => if elapsed_millis < COMMAND_TIMEOUT_MILLIS {
            PollAction::Wait
        } else {
            PollAction::Kill
        },
        ChildStatus::Failed => PollAction::GiveUp,
    }
}

} // verus!
