//! Colours, their textual forms, and the integer parts of palette
//! extraction and reduction.

use vstd::prelude::*;
use vstd::relations::{sorted_by, total_ordering};
use vstd::seq_lib::{lemma_sorted_unique, to_multiset_update};
use crate::text::{decimal, hex_byte, hex_digit_char, push_char, push_decimal};

verus! {

/// An sRGB colour: red, green and blue channels.
pub type Rgb = [u8; 3];

/// How a source palette is reduced to the number of output colours.
#[derive(Clone, Copy, Debug, PartialEq, Eq, Structural)]
pub enum Reduction {
    /// Sample the ordered source palette at evenly spaced positions,
    /// interpolating between neighbours.
    Resample,
    /// Average the source colours that fall into each of the evenly sized
    /// output segments, weighted by overlap.
    Mean,
}

impl Default for Reduction {
    fn default() -> (r: Self)
        ensures
            r == Reduction::Resample,
    {
        Reduction::Resample
    }
}

/// `#rrggbb` in lower-case hexadecimal.
pub open spec fn spec_rgb_hex(rgb: Rgb) -> Seq<char> {
    seq!['#'] + hex_byte(rgb[0]) + hex_byte(rgb[1]) + hex_byte(rgb[2])
}

/// The SGR parameters of a 24-bit foreground colour: `38;2;r;g;b`.
pub open spec fn spec_ansi_truecolor(rgb: Rgb) -> Seq<char> {
    seq!['3', '8', ';', '2', ';'] + decimal(rgb[0] as nat) + seq![';'] + decimal(rgb[1] as nat)
        + seq![';'] + decimal(rgb[2] as nat)
}

fn hex_digit(d: u8) -> (c: char)
    requires
        d < 16,
    ensures
        c == hex_digit_char(d as int),
{
    if d < 10 {
        (d + 48u8) as char
    } else {
        (d - 10 + 97u8) as char
    }
}

fn push_hex_byte(s: &mut String, b: u8)
    ensures
        final(s)@ == old(s)@ + hex_byte(b),
{
    push_char(s, hex_digit(b / 16));
    push_char(s, hex_digit(b % 16));
}

/// Formats a colour as `#rrggbb`.
pub fn rgb_hex(rgb: Rgb) -> (s: String)
    ensures
        s@ == spec_rgb_hex(rgb),
{
    let mut s = String::new();
    push_char(&mut s, '#');
    push_hex_byte(&mut s, rgb[0]);
    push_hex_byte(&mut s, rgb[1]);
    push_hex_byte(&mut s, rgb[2]);
    s
}

/// Formats a colour as the SGR parameters `38;2;r;g;b` of a 24-bit
/// foreground colour.
pub fn ansi_truecolor(rgb: Rgb) -> (s: String)
    ensures
        s@ == spec_ansi_truecolor(rgb),
{
    let mut s = String::new();
    push_char(&mut s, '3');
    push_char(&mut s, '8');
    push_char(&mut s, ';');
    push_char(&mut s, '2');
    push_char(&mut s, ';');
    push_decimal(&mut s, rgb[0] as u64);
    push_char(&mut s, ';');
    push_decimal(&mut s, rgb[1] as u64);
    push_char(&mut s, ';');
    push_decimal(&mut s, rgb[2] as u64);
    s
}

/// `flags[a..=b]` are all set.
pub open spec fn is_true_run(flags: Seq<bool>, a: int, b: int) -> bool {
    &&& 0 <= a <= b < flags.len()
    &&& forall|k: int| a <= k <= b ==> #[trigger] flags[k]
}

/// `flags[a..=b]` is a run of set flags that cannot be extended on either side.
pub open spec fn is_maximal_run(flags: Seq<bool>, a: int, b: int) -> bool {
    &&& is_true_run(flags, a, b)
    &&& (a == 0 || !flags[a - 1])
    &&& (b + 1 == flags.len() || !flags[b + 1])
}

/// `flags[a..=b]` is the longest maximal run, and the first of the longest.
pub open spec fn is_first_longest_run(flags: Seq<bool>, a: int, b: int) -> bool {
    &&& is_maximal_run(flags, a, b)
    &&& forall|c: int, d: int|
        #[trigger] is_maximal_run(flags, c, d) ==> d - c <= b - a && (c < a ==> d - c < b - a)
}

/// Two maximal runs that share their last index are the same run.
proof fn lemma_maximal_run_end_unique(flags: Seq<bool>, a: int, c: int, d: int)
    requires
        is_maximal_run(flags, c, d),
        0 <= a <= d,
        forall|k: int| a <= k <= d ==> #[trigger] flags[k],
        a == 0 || !flags[a - 1],
    ensures
        c == a,
{
    if c < a {
        assert(flags[a - 1]);
    } else if c > a {
        assert(flags[c - 1]);
    }
}

/// The first longest run of set flags, as inclusive bounds, or `None` when
/// no flag is set.
pub fn longest_run(flags: &[bool]) -> (r: Option<(usize, usize)>)
    ensures
        match r {
            Some((a, b)) => is_first_longest_run(flags@, a as int, b as int),
            None => forall|k: int| 0 <= k < flags@.len() ==> !#[trigger] flags@[k],
        },
{
    let n = flags.len();
    let mut best: Option<(usize, usize)> = None;
    let mut start: Option<usize> = None;
    let mut i: usize = 0;
    while i < n
        invariant
            n == flags@.len(),
            0 <= i <= n,
            match start {
                Some(s) => {
                    &&& s < i
                    &&& forall|k: int| s <= k < i ==> #[trigger] flags@[k]
                    &&& (s == 0 || !flags@[s - 1])
                },
                None => i == 0 || !flags@[i - 1],
            },
            match best {
                Some((a, b)) => {
                    &&& is_maximal_run(flags@, a as int, b as int)
                    &&& b + 1 < i
                    &&& forall|c: int, d: int|
                        #[trigger] is_maximal_run(flags@, c, d) && d + 1 < i ==> d - c <= b - a
                            && (c < a ==> d - c < b - a)
                },
                None => {
                    &&& forall|c: int, d: int| #[trigger]
                        is_maximal_run(flags@, c, d) ==> d + 1 >= i
                    &&& forall|k: int|
                        0 <= k < i && #[trigger] flags@[k] ==> (start matches Some(s) && s <= k)
                },
            },
        decreases n - i,
    {
        if flags[i] {
            if start.is_none() {
                start = Some(i);
            }
        } else {
            if let Some(begin) = start {
                let end = i - 1;
                proof {
                    assert forall|c: int, d: int|
                        #[trigger] is_maximal_run(flags@, c, d) && d + 1 == i implies c
                        == begin by {
                        lemma_maximal_run_end_unique(flags@, begin as int, c, d);
                    }
                }
                match best {
                    None => {
                        best = Some((begin, end));
                    },
                    Some((a, b)) => {
                        if end - begin > b - a {
                            best = Some((begin, end));
                        }
                    },
                }
                start = None;
            }
        }
        i += 1;
    }
    if let Some(begin) = start {
        let end = n - 1;
        proof {
            assert forall|c: int, d: int|
                #[trigger] is_maximal_run(flags@, c, d) && d + 1 == n implies c == begin by {
                lemma_maximal_run_end_unique(flags@, begin as int, c, d);
            }
        }
        match best {
            None => {
                best = Some((begin, end));
            },
            Some((a, b)) => {
                if end - begin > b - a {
                    best = Some((begin, end));
                }
            },
        }
    }
    best
}

/// The byte order `a <= b`.
pub open spec fn byte_le() -> spec_fn(u8, u8) -> bool {
    |a: u8, b: u8| a <= b
}

/// The bytes of `s` in ascending order.
pub open spec fn sorted_bytes(s: Seq<u8>) -> Seq<u8> {
    s.sort_by(byte_le())
}

/// The median of an ascending, non-empty sequence: its middle element, or
/// the mean of its two middle elements rounded up.
pub open spec fn median_of_sorted(t: Seq<u8>) -> u8 {
    let mid = t.len() / 2;
    if t.len() % 2 == 1 {
        t[mid as int]
    } else {
        ((t[mid - 1] + t[mid as int] + 1) / 2) as u8
    }
}

/// The median of the bytes of `s`.
pub open spec fn spec_median(s: Seq<u8>) -> u8 {
    median_of_sorted(sorted_bytes(s))
}

proof fn lemma_byte_le_total()
    ensures
        total_ordering(byte_le()),
{
}

/// The sorted sequence of bytes is the one ascending permutation of them.
proof fn lemma_sorted_bytes_unique(s: Seq<u8>, t: Seq<u8>)
    requires
        sorted_by(t, byte_le()),
        t.to_multiset() == s.to_multiset(),
    ensures
        t == sorted_bytes(s),
{
    lemma_byte_le_total();
    s.lemma_sort_by_ensures(byte_le());
    lemma_sorted_unique(t, sorted_bytes(s), byte_le());
}

/// Sorts `values` ascending and returns their median: the middle value, or
/// the mean of the two middle values rounded up.
pub fn median(values: &mut [u8]) -> (m: u8)
    requires
        old(values).len() > 0,
    ensures
        final(values)@ == sorted_bytes(old(values)@),
        m == spec_median(old(values)@),
{
    let n = values.len();
    let ghost original = values@;
    let mut i: usize = 1;
    while i < n
        invariant
            1 <= i <= n,
            values.len() == n,
            values@.to_multiset() == original.to_multiset(),
            forall|a: int, b: int| 0 <= a < b < i ==> values@[a] <= values@[b],
        decreases n - i,
    {
        let mut j: usize = i;
        while j > 0 && values[j - 1] > values[j]
            invariant
                0 <= j <= i < n,
                values.len() == n,
                values@.to_multiset() == original.to_multiset(),
                forall|a: int, b: int|
                    0 <= a < b <= i && a != j && b != j ==> values@[a] <= values@[b],
                forall|b: int| j < b <= i ==> values@[j as int] < values@[b],
            decreases j,
        {
            let x = values[j];
            let y = values[j - 1];
            proof {
                broadcast use to_multiset_update;
                broadcast use vstd::multiset::group_multiset_axioms;
            }
            let ghost before = values@;
            values[j - 1] = x;
            let ghost mid = values@;
            values[j] = y;
            proof {
                assert(mid.to_multiset() == before.to_multiset().insert(x).remove(y));
                assert(values@.to_multiset() == mid.to_multiset().insert(y).remove(x));
                broadcast use vstd::seq_lib::group_to_multiset_ensures;
                broadcast use vstd::multiset::group_multiset_properties;
                assert(before[j - 1] == y);
                assert(before.contains(y));
                assert(before.to_multiset().count(y) > 0);
                assert(values@.to_multiset() =~= before.to_multiset());
            }
            j -= 1;
        }
        i += 1;
    }
    proof {
        assert(sorted_by(values@, byte_le()));
        lemma_sorted_bytes_unique(original, values@);
    }
    let middle = n / 2;
    if n % 2 == 1 {
        values[middle]
    } else {
        ((values[middle - 1] as u16 + values[middle] as u16 + 1) / 2) as u8
    }
}

/// The median lies between the smallest and the largest value.
pub proof fn law_median_within_range(s: Seq<u8>)
    requires
        s.len() > 0,
    ensures
        sorted_bytes(s).len() == s.len(),
        sorted_bytes(s)[0] <= spec_median(s) <= sorted_bytes(s)[s.len() - 1],
{
    lemma_byte_le_total();
    s.lemma_sort_by_ensures(byte_le());
    let t = sorted_bytes(s);
    assert(t.len() == s.len()) by {
        broadcast use vstd::seq_lib::group_to_multiset_ensures;
        assert(t.to_multiset().len() == s.to_multiset().len());
    }
    let mid = t.len() / 2;
    assert(byte_le()(t[0], t[mid as int]) || mid == 0);
    assert(byte_le()(t[mid as int], t[t.len() - 1]) || mid == t.len() - 1);
    if t.len() % 2 == 0 {
        assert(byte_le()(t[0], t[mid - 1]) || mid - 1 == 0);
        assert(byte_le()(t[mid - 1], t[mid as int]));
    }
}

} // verus!
