//! Palettes as text: reading `#RRGGBB` colours and writing colour lists.

use vstd::prelude::*;
use crate::palette::{rgb_hex, spec_rgb_hex, Rgb};
use crate::text::hex_byte;
use crate::text::{
    chars_of, decimal, digit_char, is_whitespace, is_whitespace_char, joined, push_char, push_decimal, push_str,
    string_from_chars,
};

verus! {

/// Why a list of colours could not be read.
#[derive(Debug, PartialEq, Eq)]
pub enum ColorsError {
    /// This word is not a colour of the form `#RRGGBB` or `RRGGBB`.
    InvalidColor(String),
    /// The text holds no colour at all.
    NoColors,
}

/// The words of `s` that follow the word `current` being read: the maximal
/// runs of non-whitespace characters, in order.
pub open spec fn words_from(s: Seq<char>, current: Seq<char>) -> Seq<Seq<char>>
    decreases s.len(),
{
    if s.len() == 0 {
        if current.len() > 0 { seq![current] } else { seq![] }
    } else if is_whitespace(s[0]) {
        (if current.len() > 0 { seq![current] } else { seq![] }) + words_from(s.drop_first(), seq![])
    } else {
        words_from(s.drop_first(), current.push(s[0]))
    }
}

/// The whitespace-separated words of `s`.
pub open spec fn words(s: Seq<char>) -> Seq<Seq<char>> {
    words_from(s, seq![])
}

/// `c` is an ASCII hexadecimal digit.
pub open spec fn is_hex_digit(c: char) -> bool {
    ('0' <= c && c <= '9') || ('a' <= c && c <= 'f') || ('A' <= c && c <= 'F')
}

/// The value of an ASCII hexadecimal digit.
pub open spec fn hex_value(c: char) -> int {
    if '0' <= c && c <= '9' {
        c as int - '0' as int
    } else if 'a' <= c && c <= 'f' {
        c as int - 'a' as int + 10
    } else {
        c as int - 'A' as int + 10
    }
}

/// A word without its leading `#`, if it has one.
pub open spec fn hex_part(word: Seq<char>) -> Seq<char> {
    if word.len() > 0 && word[0] == '#' { word.drop_first() } else { word }
}

/// The word is `RRGGBB` or `#RRGGBB`, with six hexadecimal digits.
pub open spec fn is_color_word(word: Seq<char>) -> bool {
    let h = hex_part(word);
    h.len() == 6 && forall|i: int| 0 <= i < 6 ==> #[trigger] is_hex_digit(h[i])
}

/// The byte written by the two hexadecimal digits at `i` and `i + 1`.
pub open spec fn hex_pair(h: Seq<char>, i: int) -> u8 {
    (hex_value(h[i]) * 16 + hex_value(h[i + 1])) as u8
}

/// The colour a colour word denotes.
pub open spec fn word_color(word: Seq<char>) -> Rgb {
    let h = hex_part(word);
    [hex_pair(h, 0), hex_pair(h, 2), hex_pair(h, 4)]
}

/// The colours of a sequence of words, or the first word that is not a
/// colour.
pub open spec fn parse_words(ws: Seq<Seq<char>>) -> Result<Seq<Rgb>, Seq<char>>
    decreases ws.len(),
{
    if ws.len() == 0 {
        Ok(seq![])
    } else if !is_color_word(ws[0]) {
        Err(ws[0])
    } else {
        match parse_words(ws.drop_first()) {
            Ok(rest) => Ok(seq![word_color(ws[0])] + rest),
            Err(w) => Err(w),
        }
    }
}

/// Puts colours read so far in front of the outcome of reading the rest.
pub open spec fn prepend_colors(done: Seq<Rgb>, rest: Result<Seq<Rgb>, Seq<char>>) -> Result<Seq<Rgb>, Seq<char>> {
    match rest {
        Ok(r) => Ok(done + r),
        Err(w) => Err(w),
    }
}

fn is_hex_digit_char(c: char) -> (r: bool)
    ensures
        r == is_hex_digit(c),
{
    ('0' <= c && c <= '9') || ('a' <= c && c <= 'f') || ('A' <= c && c <= 'F')
}

fn hex_digit_value(c: char) -> (v: u8)
    requires
        is_hex_digit(c),
    ensures
        v == hex_value(c),
        v < 16,
{
    if '0' <= c && c <= '9' {
        (c as u32 - '0' as u32) as u8
    } else if 'a' <= c && c <= 'f' {
        (c as u32 - 'a' as u32 + 10) as u8
    } else {
        (c as u32 - 'A' as u32 + 10) as u8
    }
}

/// The colour of a word, or `None` when it is not a colour word.
fn word_to_color(word: &Vec<char>) -> (r: Option<Rgb>)
    ensures
        match r {
            Some(c) => is_color_word(word@) && c == word_color(word@),
            None => !is_color_word(word@),
        },
{
    let skip: usize = if word.len() > 0 && word[0] == '#' { 1 } else { 0 };
    let ghost h = hex_part(word@);
    assert(h =~= word@.skip(skip as int));
    if word.len() - skip != 6 {
        return None;
    }
    let mut i: usize = 0;
    while i < 6
        invariant
            word.len() == skip + 6,
            h =~= word@.skip(skip as int),
            i <= 6,
            forall|j: int| 0 <= j < i ==> #[trigger] is_hex_digit(h[j]),
        decreases 6 - i,
    {
        if !is_hex_digit_char(word[skip + i]) {
            assert(!is_hex_digit(h[i as int]));
            return None;
        }
        i += 1;
    }
    assert(is_hex_digit(h[0]) && is_hex_digit(h[1]) && is_hex_digit(h[2]));
    assert(is_hex_digit(h[3]) && is_hex_digit(h[4]) && is_hex_digit(h[5]));
    let r = hex_digit_value(word[skip]) * 16 + hex_digit_value(word[skip + 1]);
    let g = hex_digit_value(word[skip + 2]) * 16 + hex_digit_value(word[skip + 3]);
    let b = hex_digit_value(word[skip + 4]) * 16 + hex_digit_value(word[skip + 5]);
    let c: Rgb = [r, g, b];
    assert(c@ =~= word_color(word@)@);
    Some(c)
}

/// Reads whitespace-separated colours written as `#RRGGBB` or `RRGGBB`
/// (hexadecimal digits in either case). Fails on the first word that is not
/// such a colour, and when there is no word at all.
pub fn parse_hex_colors(input: &str) -> (r: Result<Vec<Rgb>, ColorsError>)
    ensures
        match parse_words(words(input@)) {
            Err(w) => r matches Err(ColorsError::InvalidColor(v)) && v@ == w,
            Ok(cs) => if cs.len() == 0 {
                r matches Err(ColorsError::NoColors)
            } else {
                r matches Ok(v) && v@ == cs
            },
        },
{
    let s = chars_of(input);
    let mut colors: Vec<Rgb> = Vec::new();
    let mut current: Vec<char> = Vec::new();
    let mut i: usize = 0;
    let n = s.len();
    assert(s@.skip(0) =~= s@);
    while i < n
        invariant
            n == s.len(),
            s@ == input@,
            i <= n,
            parse_words(words(input@)) == prepend_colors(
                colors@,
                parse_words(words_from(s@.skip(i as int), current@)),
            ),
        decreases n - i,
    {
        let ghost rest = s@.skip(i as int);
        assert(rest.drop_first() =~= s@.skip(i + 1));
        if !is_whitespace_char(s[i]) {
            current.push(s[i]);
        } else {
            let ghost later = words_from(s@.skip(i + 1), seq![]);
            if current.len() > 0 {
                proof {
                    lemma_parse_after_word(current@, later);
                }
                match word_to_color(&current) {
                    Some(c) => {
                        proof {
                            lemma_prepend_push(colors@, c, parse_words(later));
                        }
                        colors.push(c);
                    },
                    None => {
                        return Err(ColorsError::InvalidColor({
                            proof {
                                assert(current@.skip(0) =~= current@);
                            }
                            string_from_chars(&current, 0)
                        }));
                    },
                }
            } else {
                assert(Seq::<Seq<char>>::empty() + later =~= later);
            }
            current = Vec::new();
        }
        i += 1;
    }
    assert(s@.skip(n as int) =~= Seq::<char>::empty());
    if current.len() > 0 {
        proof {
            lemma_parse_after_word(current@, Seq::<Seq<char>>::empty());
            assert(seq![current@] + Seq::<Seq<char>>::empty() =~= seq![current@]);
        }
        match word_to_color(&current) {
            Some(c) => {
                proof {
                    lemma_prepend_push(colors@, c, parse_words(Seq::<Seq<char>>::empty()));
                }
                colors.push(c);
            },
            None => {
                return Err(ColorsError::InvalidColor({
                            proof {
                                assert(current@.skip(0) =~= current@);
                            }
                            string_from_chars(&current, 0)
                        }));
            },
        }
    }
    if colors.len() == 0 {
        return Err(ColorsError::NoColors);
    }
    Ok(colors)
}

/// Reading a word followed by more words.
proof fn lemma_parse_after_word(w: Seq<char>, later: Seq<Seq<char>>)
    ensures
        parse_words(seq![w] + later) == (if !is_color_word(w) {
            Err::<Seq<Rgb>, Seq<char>>(w)
        } else {
            prepend_colors(seq![word_color(w)], parse_words(later))
        }),
{
    assert((seq![w] + later).drop_first() =~= later);
    assert((seq![w] + later)[0] == w);
}

/// Colours read one at a time accumulate in order.
proof fn lemma_prepend_push(done: Seq<Rgb>, c: Rgb, rest: Result<Seq<Rgb>, Seq<char>>)
    ensures
        prepend_colors(done, prepend_colors(seq![c], rest)) == prepend_colors(done.push(c), rest),
{
    if let Ok(r) = rest {
        assert(done + (seq![c] + r) =~= done.push(c) + r);
    }
}

/// `r,g,b` in decimal.
pub open spec fn spec_rgb_triplet(c: Rgb) -> Seq<char> {
    decimal(c[0] as nat) + seq![','] + decimal(c[1] as nat) + seq![','] + decimal(c[2] as nat)
}

/// The colours as `#rrggbb`, separated by single spaces.
pub open spec fn spec_hex_list(colors: Seq<Rgb>) -> Seq<char> {
    joined(colors.map_values(|c: Rgb| spec_rgb_hex(c)), ' ')
}

/// The colours as `r,g,b`, separated by single spaces.
pub open spec fn spec_rgb_list(colors: Seq<Rgb>) -> Seq<char> {
    joined(colors.map_values(|c: Rgb| spec_rgb_triplet(c)), ' ')
}

/// Formats a colour as `r,g,b` in decimal.
pub fn rgb_triplet(c: Rgb) -> (s: String)
    ensures
        s@ == spec_rgb_triplet(c),
{
    let mut s = String::new();
    push_decimal(&mut s, c[0] as u64);
    push_char(&mut s, ',');
    push_decimal(&mut s, c[1] as u64);
    push_char(&mut s, ',');
    push_decimal(&mut s, c[2] as u64);
    s
}

/// Lists colours as `#rrggbb` words separated by single spaces.
pub fn hex_list(colors: &[Rgb]) -> (s: String)
    ensures
        s@ == spec_hex_list(colors@),
{
    let ghost f = |c: Rgb| spec_rgb_hex(c);
    let mut s = String::new();
    let mut i: usize = 0;
    while i < colors.len()
        invariant
            i <= colors@.len(),
            f == |c: Rgb| spec_rgb_hex(c),
            s@ == joined(colors@.take(i as int).map_values(f), ' '),
        decreases colors.len() - i,
    {
        let ghost before = colors@.take(i as int).map_values(f);
        if i > 0 {
            push_char(&mut s, ' ');
        }
        push_str(&mut s, rgb_hex(colors[i]).as_str());
        i += 1;
        let ghost after = colors@.take(i as int).map_values(f);
        assert(after.drop_last() =~= before);
        assert(after.last() == spec_rgb_hex(colors@[i - 1]));
        proof {
            if i == 1 {
                assert(before.len() == 0);
            }
        }
    }
    assert(colors@.take(colors@.len() as int) =~= colors@);
    s
}

/// Lists colours as `r,g,b` words separated by single spaces.
pub fn rgb_list(colors: &[Rgb]) -> (s: String)
    ensures
        s@ == spec_rgb_list(colors@),
{
    let ghost f = |c: Rgb| spec_rgb_triplet(c);
    let mut s = String::new();
    let mut i: usize = 0;
    while i < colors.len()
        invariant
            i <= colors@.len(),
            f == |c: Rgb| spec_rgb_triplet(c),
            s@ == joined(colors@.take(i as int).map_values(f), ' '),
        decreases colors.len() - i,
    {
        let ghost before = colors@.take(i as int).map_values(f);
        if i > 0 {
            push_char(&mut s, ' ');
        }
        push_str(&mut s, rgb_triplet(colors[i]).as_str());
        i += 1;
        let ghost after = colors@.take(i as int).map_values(f);
        assert(after.drop_last() =~= before);
        assert(after.last() == spec_rgb_triplet(colors@[i - 1]));
        proof {
            if i == 1 {
                assert(before.len() == 0);
            }
        }
    }
    assert(colors@.take(colors@.len() as int) =~= colors@);
    s
}

/// A non-empty word with no whitespace in it.
pub open spec fn is_plain_word(w: Seq<char>) -> bool {
    w.len() > 0 && forall|i: int| 0 <= i < w.len() ==> !is_whitespace(#[trigger] w[i])
}

/// Reading past a stretch of non-whitespace characters adds them to the
/// current word.
proof fn lemma_words_from_plain(w: Seq<char>, t: Seq<char>, cur: Seq<char>)
    requires
        forall|i: int| 0 <= i < w.len() ==> !is_whitespace(#[trigger] w[i]),
    ensures
        words_from(w + t, cur) == words_from(t, cur + w),
    decreases w.len(),
{
    if w.len() == 0 {
        assert(w + t =~= t);
        assert(cur + w =~= cur);
    } else {
        assert((w + t)[0] == w[0]);
        assert((w + t).drop_first() =~= w.drop_first() + t);
        assert(!is_whitespace(w[0]));
        lemma_words_from_plain(w.drop_first(), t, cur.push(w[0]));
        assert(cur.push(w[0]) + w.drop_first() =~= cur + w);
    }
}

/// A joined list of at least two items is its first item, the separator,
/// and the rest joined.
proof fn lemma_joined_front(items: Seq<Seq<char>>, sep: char)
    requires
        items.len() >= 2,
    ensures
        joined(items, sep) == items[0] + seq![sep] + joined(items.drop_first(), sep),
    decreases items.len(),
{
    let dl = items.drop_last();
    let df = items.drop_first();
    assert(dl[0] == items[0]);
    if items.len() == 2 {
        assert(joined(dl, sep) == dl[0]);
        assert(df[0] == items.last());
        assert(joined(df, sep) == df[0]);
    } else {
        lemma_joined_front(dl, sep);
        assert(dl.drop_first() =~= df.drop_last());
        assert(df.last() == items.last());
        assert(joined(df, sep) == joined(df.drop_last(), sep) + seq![sep] + df.last());
        assert(joined(items, sep) =~= items[0] + seq![sep] + joined(df, sep));
    }
}

/// Words joined with spaces, followed by nothing or by whitespace, read back
/// as the same words.
proof fn lemma_words_of_joined(ws: Seq<Seq<char>>, tail: Seq<char>)
    requires
        ws.len() > 0,
        forall|i: int| 0 <= i < ws.len() ==> is_plain_word(#[trigger] ws[i]),
        tail.len() == 0 || is_whitespace(tail[0]),
    ensures
        words_from(joined(ws, ' ') + tail, seq![]) == ws + words_from(tail, seq![]),
    decreases ws.len(),
{
    let w = ws[0];
    assert(is_plain_word(w));
    if ws.len() == 1 {
        lemma_words_from_plain(w, tail, seq![]);
        assert(Seq::<char>::empty() + w =~= w);
        if tail.len() == 0 {
            assert(seq![w] =~= ws + words_from(tail, seq![]));
        } else {
            assert(words_from(tail, seq![]) =~= Seq::<Seq<char>>::empty() + words_from(tail.drop_first(), seq![]));
            assert(ws =~= seq![w]);
        }
    } else {
        lemma_joined_front(ws, ' ');
        let rest = joined(ws.drop_first(), ' ') + tail;
        assert(joined(ws, ' ') + tail =~= w + (seq![' '] + rest));
        lemma_words_from_plain(w, seq![' '] + rest, seq![]);
        assert(Seq::<char>::empty() + w =~= w);
        assert((seq![' '] + rest).drop_first() =~= rest);
        assert forall|i: int| 0 <= i < ws.drop_first().len() implies is_plain_word(
            #[trigger] ws.drop_first()[i],
        ) by {
            assert(ws.drop_first()[i] == ws[i + 1]);
        }
        lemma_words_of_joined(ws.drop_first(), tail);
        assert(seq![w] + (ws.drop_first() + words_from(tail, seq![])) =~= ws + words_from(tail, seq![]));
    }
}

/// The hexadecimal form of a colour is a colour word that denotes it.
proof fn lemma_hex_word(c: Rgb)
    ensures
        is_plain_word(spec_rgb_hex(c)),
        is_color_word(spec_rgb_hex(c)),
        word_color(spec_rgb_hex(c)) == c,
{
    let w = spec_rgb_hex(c);
    let h = hex_part(w);
    assert(h =~= hex_byte(c[0]) + hex_byte(c[1]) + hex_byte(c[2]));
    assert(word_color(w)@ =~= c@);
}

/// Colour words, each of which is one, read as their colours.
proof fn lemma_parse_color_words(cs: Seq<Rgb>)
    ensures
        parse_words(cs.map_values(|c: Rgb| spec_rgb_hex(c))) == Ok::<Seq<Rgb>, Seq<char>>(cs),
    decreases cs.len(),
{
    let ws = cs.map_values(|c: Rgb| spec_rgb_hex(c));
    if cs.len() > 0 {
        lemma_hex_word(cs[0]);
        assert(ws[0] == spec_rgb_hex(cs[0]));
        assert(ws.drop_first() =~= cs.drop_first().map_values(|c: Rgb| spec_rgb_hex(c)));
        lemma_parse_color_words(cs.drop_first());
        assert(seq![cs[0]] + cs.drop_first() =~= cs);
        assert(parse_words(ws) == Ok::<Seq<Rgb>, Seq<char>>(seq![word_color(ws[0])] + cs.drop_first()));
    } else {
        assert(ws.len() == 0);
        assert(cs =~= Seq::<Rgb>::empty());
    }
}

/// Round trip of palettes through text: the hexadecimal list of a
/// non-empty palette, as `colors` prints it (with or without the final line
/// break), reads back as the same palette. This is what lets
/// `wallfetch colors | wallfetch render --colors -` pass a palette on.
pub proof fn law_hex_list_round_trip(colors: Seq<Rgb>)
    requires
        colors.len() > 0,
    ensures
        parse_words(words(spec_hex_list(colors))) == Ok::<Seq<Rgb>, Seq<char>>(colors),
        parse_words(words(spec_hex_list(colors).push('\n'))) == Ok::<Seq<Rgb>, Seq<char>>(colors),
{
    let ws = colors.map_values(|c: Rgb| spec_rgb_hex(c));
    assert forall|i: int| 0 <= i < ws.len() implies is_plain_word(#[trigger] ws[i]) by {
        lemma_hex_word(colors[i]);
    }
    let empty = Seq::<char>::empty();
    lemma_words_of_joined(ws, empty);
    assert(spec_hex_list(colors) + empty =~= spec_hex_list(colors));
    assert(ws + words_from(empty, seq![]) =~= ws);
    let nl = seq!['\n'];
    lemma_words_of_joined(ws, nl);
    assert(spec_hex_list(colors) + nl =~= spec_hex_list(colors).push('\n'));
    assert(words_from(nl, seq![]) =~= Seq::<Seq<char>>::empty() + words_from(nl.drop_first(), seq![]));
    assert(ws + words_from(nl, seq![]) =~= ws);
    lemma_parse_color_words(colors);
}

/// A decimal numeral is a non-empty run of the digits `0` to `9`.
proof fn lemma_decimal_digits(n: nat)
    ensures
        decimal(n).len() > 0,
        forall|i: int| 0 <= i < decimal(n).len() ==> '0' <= #[trigger] decimal(n)[i] <= '9',
    decreases n,
{
    if n >= 10 {
        lemma_decimal_digits(n / 10);
        let d = (n % 10) as int;
        assert(decimal(n) == decimal(n / 10).push(digit_char(d)));
        assert(48 <= d + 48 <= 57);
    } else {
        assert(48 <= n + 48 <= 57);
    }
}

proof fn lemma_triplet_word(c: Rgb)
    ensures
        is_plain_word(decimal(c[0] as nat) + seq![','] + decimal(c[1] as nat) + seq![','] + decimal(c[2] as nat)),
{
    lemma_decimal_digits(c[0] as nat);
    lemma_decimal_digits(c[1] as nat);
    lemma_decimal_digits(c[2] as nat);
    let w = decimal(c[0] as nat) + seq![','] + decimal(c[1] as nat) + seq![','] + decimal(c[2] as nat);
    assert forall|i: int| 0 <= i < w.len() implies !is_whitespace(#[trigger] w[i]) by {
        let a = decimal(c[0] as nat).len() as int;
        let b = decimal(c[1] as nat).len() as int;
        if i < a {
            assert(w[i] == decimal(c[0] as nat)[i]);
        } else if i == a {
        } else if i < a + 1 + b {
            assert(w[i] == decimal(c[1] as nat)[i - a - 1]);
        } else if i == a + 1 + b {
        } else {
            assert(w[i] == decimal(c[2] as nat)[i - a - 2 - b]);
        }
    }
}

/// The `r,g,b` list of a palette reads back word by word: it holds one
/// whitespace-separated word per colour, in order, and the word of each
/// colour is its three channels in decimal, separated by commas.
pub proof fn law_rgb_list_words(colors: Seq<Rgb>)
    ensures
        words(spec_rgb_list(colors)).len() == colors.len(),
        forall|k: int|
            0 <= k < colors.len() ==> #[trigger] words(spec_rgb_list(colors))[k] == decimal(colors[k][0] as nat)
                + seq![','] + decimal(colors[k][1] as nat) + seq![','] + decimal(colors[k][2] as nat),
{
    let ws = colors.map_values(|c: Rgb| spec_rgb_triplet(c));
    if colors.len() == 0 {
        assert(ws =~= Seq::<Seq<char>>::empty());
        assert(spec_rgb_list(colors) =~= Seq::<char>::empty());
    } else {
        assert forall|i: int| 0 <= i < ws.len() implies is_plain_word(#[trigger] ws[i]) by {
            lemma_triplet_word(colors[i]);
        }
        let empty = Seq::<char>::empty();
        lemma_words_of_joined(ws, empty);
        assert(spec_rgb_list(colors) + empty =~= spec_rgb_list(colors));
        assert(ws + words_from(empty, seq![]) =~= ws);
    }
}

/// The pretty-printed JSON object with the keys `wallpaper` (a string),
/// `source` and `colors` (arrays of strings), as `serde_json` writes it.
pub uninterp spec fn pretty_palette_json(
    wallpaper: Seq<char>,
    source: Seq<Seq<char>>,
    colors: Seq<Seq<char>>,
) -> Seq<char>;

/// Writes the JSON object `{"wallpaper": .., "source": [..], "colors": [..]}`
/// of the given strings with `serde_json::to_string_pretty`, or gives its
/// error as text. The text is named `pretty_palette_json`; when the call fails
/// is not stated here.
#[verifier::external_body]
fn palette_json_text(wallpaper: &str, source: Vec<String>, colors: Vec<String>) -> (r: Result<
    String,
    String,
>)
    ensures
        r matches Ok(text) ==> text@ == pretty_palette_json(
            wallpaper@,
            source@.map_values(|t: String| t@),
            colors@.map_values(|t: String| t@),
        ),
{
    let mut object = serde_json::Map::new();
    object.insert("wallpaper".to_owned(), serde_json::Value::String(wallpaper.to_owned()));
    object.insert("source".to_owned(), serde_json::Value::from(source));
    object.insert("colors".to_owned(), serde_json::Value::from(colors));
    serde_json::to_string_pretty(&serde_json::Value::Object(object)).map_err(|error| error.to_string())
}

/// The `#rrggbb` forms of a list of colours.
pub open spec fn hex_words(colors: Seq<Rgb>) -> Seq<Seq<char>> {
    colors.map_values(|c: Rgb| spec_rgb_hex(c))
}

fn hex_strings(colors: &Vec<Rgb>) -> (r: Vec<String>)
    ensures
        r@.map_values(|t: String| t@) == hex_words(colors@),
{
    let mut r: Vec<String> = Vec::new();
    let mut i: usize = 0;
    while i < colors.len()
        invariant
            i <= colors@.len(),
            r@.map_values(|t: String| t@) == hex_words(colors@.take(i as int)),
        decreases colors.len() - i,
    {
        let ghost before = r@;
        r.push(rgb_hex(colors[i]));
        i += 1;
        assert(r@ == before.push(r@.last()));
        assert(r@.map_values(|t: String| t@) =~= before.map_values(|t: String| t@).push(spec_rgb_hex(colors@[i - 1])));
        assert(hex_words(colors@.take(i as int)) =~= hex_words(colors@.take(i - 1)).push(spec_rgb_hex(colors@[i - 1])));
    }
    assert(colors@.take(colors@.len() as int) =~= colors@);
    r
}

/// The palette as pretty-printed JSON: the wallpaper's path, and the source
/// colours and the palette colours as `#rrggbb` strings, in order. Fails
/// with `serde_json`'s message where it cannot write the object.
pub fn palette_json(wallpaper: &str, source: &Vec<Rgb>, colors: &Vec<Rgb>) -> (r: Result<String, String>)
    ensures
        r matches Ok(text) ==> text@ == pretty_palette_json(wallpaper@, hex_words(source@), hex_words(colors@)),
{
    let source_words = hex_strings(source);
    let color_words = hex_strings(colors);
    palette_json_text(wallpaper, source_words, color_words)
}

} // verus!
