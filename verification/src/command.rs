//! Which stages each command runs, and when a cached palette is reused.

use vstd::prelude::*;
use crate::text::chars_of;

verus! {

/// A command, with what decides the stages it runs.
#[derive(Clone, Copy, Debug, PartialEq, Eq, Structural)]
pub enum CommandKind {
    /// Print the wallpaper's palette.
    Colors,
    /// Render the template, with colours given on the command line when
    /// `colors_supplied` holds, else with the wallpaper's palette.
    Render { colors_supplied: bool },
}

/// A stage of a command.
#[derive(Clone, Copy, Debug, PartialEq, Eq, Structural)]
pub enum Stage {
    /// Read the template text.
    ReadTemplate,
    /// Read the colours given on the command line or on standard input.
    ReadSuppliedColors,
    /// Find the wallpaper.
    ResolveWallpaper,
    /// Take the wallpaper's palette from the cache or extract it.
    ObtainPalette,
    /// Print the palette.
    PrintColors,
    /// Render the template with the colours and print it.
    RenderTemplate,
}

/// The stages a command runs, in order.
pub open spec fn spec_command_stages(kind: CommandKind) -> Seq<Stage> {
    match kind {
        CommandKind::Colors => seq![Stage::ResolveWallpaper, Stage::ObtainPalette, Stage::PrintColors],
        CommandKind::Render { colors_supplied } => if colors_supplied {
            seq![Stage::ReadTemplate, Stage::ReadSuppliedColors, Stage::RenderTemplate]
        } else {
            seq![Stage::ReadTemplate, Stage::ResolveWallpaper, Stage::ObtainPalette, Stage::RenderTemplate]
        },
    }
}

/// The stages a command runs, in order.
pub fn command_stages(kind: CommandKind) -> (r: Vec<Stage>)
    ensures
        r@ == spec_command_stages(kind),
{
    match kind {
        CommandKind::Colors => vec![Stage::ResolveWallpaper, Stage::ObtainPalette, Stage::PrintColors],
        CommandKind::Render { colors_supplied } => if colors_supplied {
            vec![Stage::ReadTemplate, Stage::ReadSuppliedColors, Stage::RenderTemplate]
        } else {
            vec![Stage::ReadTemplate, Stage::ResolveWallpaper, Stage::ObtainPalette, Stage::RenderTemplate]
        },
    }
}

/// Rendering with supplied colours resolves no wallpaper and touches no
/// palette, cached or not; every other command resolves the wallpaper and
/// obtains its palette.
pub proof fn law_supplied_colors_need_no_wallpaper(kind: CommandKind)
    ensures
        kind == (CommandKind::Render { colors_supplied: true }) ==> {
            &&& !spec_command_stages(kind).contains(Stage::ResolveWallpaper)
            &&& !spec_command_stages(kind).contains(Stage::ObtainPalette)
        },
        kind != (CommandKind::Render { colors_supplied: true }) ==> {
            &&& spec_command_stages(kind).contains(Stage::ResolveWallpaper)
            &&& spec_command_stages(kind).contains(Stage::ObtainPalette)
        },
{
    let stages = spec_command_stages(kind);
    if kind == (CommandKind::Render { colors_supplied: true }) {
        assert(stages[0] != Stage::ResolveWallpaper && stages[1] != Stage::ResolveWallpaper && stages[2] != Stage::ResolveWallpaper);
        assert(!stages.contains(Stage::ResolveWallpaper));
        assert(!stages.contains(Stage::ObtainPalette));
    } else {
        match kind {
            CommandKind::Colors => {
                assert(stages[0] == Stage::ResolveWallpaper);
                assert(stages[1] == Stage::ObtainPalette);
            },
            CommandKind::Render { .. } => {
                assert(stages[1] == Stage::ResolveWallpaper);
                assert(stages[2] == Stage::ObtainPalette);
            },
        }
    }
}

/// Whether the palette cache is read at all: not under `--no-cache`.
pub fn reads_cache(no_cache: bool) -> (r: bool)
    ensures
        r == !no_cache,
{
    !no_cache
}

/// A cached palette is reused only when it was cached under the key of the
/// current wallpaper bytes and settings.
pub fn cache_hit(cached_key: &str, key: &str) -> (r: bool)
    ensures
        r == (cached_key@ == key@),
{
    let a = chars_of(cached_key);
    let b = chars_of(key);
    if a.len() != b.len() {
        return false;
    }
    let mut i: usize = 0;
    while i < a.len()
        invariant
            a@ == cached_key@,
            b@ == key@,
            a@.len() == b@.len(),
            i <= a@.len(),
            forall|j: int| 0 <= j < i ==> a@[j] == b@[j],
        decreases a.len() - i,
    {
        if a[i] != b[i] {
            return false;
        }
        i += 1;
    }
    assert(a@ =~= b@);
    true
}

} // verus!
