//! Applying a palette to a text template.

use vstd::prelude::*;
use crate::palette::{ansi_truecolor, spec_ansi_truecolor, Rgb};
use crate::text::{
    append_chars, chars_of, contains_seq, decimal, occurs, replace_all, replace_seq, string_from_chars,
};

verus! {

/// The placeholder `$k` of the `k`-th colour (counting from 1).
pub open spec fn placeholder(k: nat) -> Seq<char> {
    seq!['$'] + decimal(k)
}

/// The escape sequence that selects a colour as the 24-bit foreground.
pub open spec fn color_escape(rgb: Rgb) -> Seq<char> {
    seq!['\x1b', '['] + spec_ansi_truecolor(rgb) + seq!['m']
}

/// The escape sequence that resets all text attributes.
pub open spec fn reset_escape() -> Seq<char> {
    seq!['\x1b', '[', '0', 'm']
}

/// The template after the placeholders of colours `k + 1`, ...,
/// `colors.len()` have been substituted, the highest first, so that `$12`
/// is replaced before `$1`; a placeholder that does not occur is skipped.
pub open spec fn substituted(template: Seq<char>, colors: Seq<Rgb>, k: nat) -> Seq<char>
    decreases colors.len() - k,
{
    if k >= colors.len() {
        template
    } else {
        let s = substituted(template, colors, k + 1);
        if occurs(s, placeholder(k + 1)) {
            replace_all(s, placeholder(k + 1), color_escape(colors[k as int]))
        } else {
            s
        }
    }
}

/// Some placeholder among those of colours `k + 1`, ..., `colors.len()`
/// occurred when its turn came.
pub open spec fn any_substituted(template: Seq<char>, colors: Seq<Rgb>, k: nat) -> bool {
    exists|j: nat|
        k <= j < colors.len() && #[trigger] occurs(
            substituted(template, colors, j + 1),
            placeholder(j + 1),
        )
}

/// Ends the text with the reset sequence, placed before a final line break
/// if there is one.
pub open spec fn with_reset(s: Seq<char>) -> Seq<char> {
    if s.len() > 0 && s.last() == '\n' {
        s.drop_last() + reset_escape() + seq!['\n']
    } else {
        s + reset_escape()
    }
}

/// The error text of a template that uses none of the colours.
pub open spec fn no_placeholder_message() -> Seq<char> {
    "template contains none of the available $1, $2, ... placeholders"@
}

fn decimal_chars(n: u64) -> (r: Vec<char>)
    ensures
        r@ == decimal(n as nat),
{
    let mut s = String::new();
    crate::text::push_decimal(&mut s, n);
    chars_of(s.as_str())
}

/// Replaces the placeholders `$1`, `$2`, ... of `template` with the
/// escape sequences of the corresponding colours and ends the text with a
/// reset sequence (before a final line break, if there is one). Fails when
/// the template uses none of the colours.
pub fn render_ansi(template: &str, colors: &[Rgb]) -> (r: Result<String, String>)
    ensures
        match r {
            Ok(s) => {
                &&& any_substituted(template@, colors@, 0)
                &&& s@ == with_reset(substituted(template@, colors@, 0))
            },
            Err(e) => {
                &&& !any_substituted(template@, colors@, 0)
                &&& e@ == no_placeholder_message()
            },
        },
        uses_a_placeholder(template@, colors@.len()) ==> r is Ok,
{
    proof {
        if uses_a_placeholder(template@, colors@.len()) {
            law_render_succeeds_with_any_placeholder(template@, colors@);
        }
    }
    let mut rendered = chars_of(template);
    let mut used = false;
    let mut k: usize = colors.len();
    while k > 0
        invariant
            k <= colors@.len(),
            rendered@ == substituted(template@, colors@, k as nat),
            used == any_substituted(template@, colors@, k as nat),
        decreases k,
    {
        k -= 1;
        let mut pattern: Vec<char> = Vec::new();
        pattern.push('$');
        let digits = decimal_chars((k + 1) as u64);
        append_chars(&mut pattern, &digits);
        assert(pattern@ =~= placeholder((k + 1) as nat));
        if contains_seq(&rendered, &pattern) {
            used = true;
            let mut escape: Vec<char> = Vec::new();
            escape.push('\x1b');
            escape.push('[');
            let code = chars_of(ansi_truecolor(colors[k]).as_str());
            append_chars(&mut escape, &code);
            escape.push('m');
            assert(escape@ =~= color_escape(colors@[k as int]));
            rendered = replace_seq(&rendered, &pattern, &escape);
        }
    }
    if !used {
        proof {
            reveal_strlit("template contains none of the available $1, $2, ... placeholders");
        }
        return Err("template contains none of the available $1, $2, ... placeholders".to_owned());
    }
    let n = rendered.len();
    if n > 0 && rendered[n - 1] == '\n' {
        rendered.pop();
        rendered.push('\x1b');
        rendered.push('[');
        rendered.push('0');
        rendered.push('m');
        rendered.push('\n');
    } else {
        rendered.push('\x1b');
        rendered.push('[');
        rendered.push('0');
        rendered.push('m');
    }
    assert(rendered@ =~= with_reset(substituted(template@, colors@, 0)));
    proof {
        assert(rendered@.skip(0) =~= rendered@);
    }
    Ok(string_from_chars(&rendered, 0))
}

/// Some placeholder `$k` with `1 <= k <= count` occurs in the template.
pub open spec fn uses_a_placeholder(template: Seq<char>, count: nat) -> bool {
    exists|k: nat| 1 <= k <= count && #[trigger] occurs(template, placeholder(k))
}

/// While none of the placeholders of colours `k + 1`, ..., `colors.len()`
/// occurs in the template, substituting them leaves it as it is.
proof fn lemma_substituted_untouched(template: Seq<char>, colors: Seq<Rgb>, k: nat)
    requires
        forall|j: nat| k < j <= colors.len() ==> !#[trigger] occurs(template, placeholder(j)),
    ensures
        substituted(template, colors, k) == template,
    decreases colors.len() - k,
{
    if k < colors.len() {
        lemma_substituted_untouched(template, colors, k + 1);
        assert(!occurs(template, placeholder(k + 1)));
    }
}

proof fn lemma_highest_placeholder_used(template: Seq<char>, colors: Seq<Rgb>, low: nat, high: nat)
    requires
        1 <= low <= high <= colors.len(),
        occurs(template, placeholder(low)),
        forall|j: nat| high < j <= colors.len() ==> !#[trigger] occurs(template, placeholder(j)),
    ensures
        any_substituted(template, colors, 0),
    decreases high - low,
{
    if occurs(template, placeholder(high)) {
        lemma_substituted_untouched(template, colors, high);
        let j: nat = (high - 1) as nat;
        assert(occurs(substituted(template, colors, j + 1), placeholder(j + 1)));
    } else {
        lemma_highest_placeholder_used(template, colors, low, (high - 1) as nat);
    }
}

/// A template fails to render only when it uses no colour at all: as soon
/// as any placeholder `$k` of an available colour occurs in it (`$1` or
/// not), some colour is substituted and rendering succeeds.
pub proof fn law_render_succeeds_with_any_placeholder(template: Seq<char>, colors: Seq<Rgb>)
    requires
        uses_a_placeholder(template, colors.len()),
    ensures
        any_substituted(template, colors, 0),
{
    let k = choose|k: nat| 1 <= k <= colors.len() && #[trigger] occurs(template, placeholder(k));
    lemma_highest_placeholder_used(template, colors, k, colors.len());
}

/// Rendering ends the text with the reset sequence: the result ends with
/// the reset sequence, or, when the text ended with a line break, with the
/// reset sequence and that line break.
pub proof fn law_render_ends_with_reset(s: Seq<char>)
    ensures
        s.len() > 0 && s.last() == '\n' ==> with_reset(s) == s.drop_last() + reset_escape() + seq!['\n'],
        !(s.len() > 0 && s.last() == '\n') ==> with_reset(s).take(s.len() as int) == s
            && with_reset(s).skip(s.len() as int) == reset_escape(),
{
    if !(s.len() > 0 && s.last() == '\n') {
        assert((s + reset_escape()).take(s.len() as int) =~= s);
        assert((s + reset_escape()).skip(s.len() as int) =~= reset_escape());
    }
}

} // verus!
