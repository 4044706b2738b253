//! Character-level helpers: decimal and hexadecimal digits, whitespace,
//! and building `String`s one character at a time.

use vstd::prelude::*;

verus! {

/// The character of a decimal digit `d < 10`.
pub open spec fn digit_char(d: int) -> char {
    (d + 48) as char
}

/// The lower-case hexadecimal digit character for `d < 16`.
pub open spec fn hex_digit_char(d: int) -> char {
    if d < 10 {
        (d + 48) as char
    } else {
        (d - 10 + 97) as char
    }
}

/// The decimal representation of `n`, without leading zeros.
pub open spec fn decimal(n: nat) -> Seq<char>
    decreases n,
{
    if n < 10 {
        seq![digit_char(n as int)]
    } else {
        decimal(n / 10).push(digit_char((n % 10) as int))
    }
}

/// The two lower-case hexadecimal digits of a byte.
pub open spec fn hex_byte(b: u8) -> Seq<char> {
    seq![hex_digit_char((b / 16) as int), hex_digit_char((b % 16) as int)]
}

/// Appends one character to a `String` with `String::push`; the contract
/// claims that the string gains exactly that character at its end.
#[verifier::external_body]
pub(crate) fn push_char(s: &mut String, c: char)
    ensures
        final(s)@ == old(s)@.push(c),
{
    s.push(c);
}

/// The characters of a string slice.
pub fn chars_of(s: &str) -> (r: Vec<char>)
    ensures
        r@ == s@,
{
    let mut r: Vec<char> = Vec::new();
    for c in it: s.chars()
        invariant
            r@ == it.seq().take(it.index()),
    {
        r.push(c);
    }
    r
}

/// The decimal digit character of `d < 10`.
pub fn digit(d: u64) -> (c: char)
    requires
        d < 10,
    ensures
        c == digit_char(d as int),
{
    ((d as u8) + 48u8) as char
}

/// Appends the decimal representation of `n` to `s`.
pub fn push_decimal(s: &mut String, n: u64)
    ensures
        final(s)@ == old(s)@ + decimal(n as nat),
    decreases n,
{
    if n >= 10 {
        push_decimal(s, n / 10);
    }
    push_char(s, digit(n % 10));
}

/// The characters of `s` after replacing, from left to right, every
/// non-overlapping occurrence of `pat` with `rep`.
pub open spec fn replace_all(s: Seq<char>, pat: Seq<char>, rep: Seq<char>) -> Seq<char>
    decreases s.len(),
{
    if pat.len() == 0 || s.len() < pat.len() {
        s
    } else if s.take(pat.len() as int) == pat {
        rep + replace_all(s.skip(pat.len() as int), pat, rep)
    } else {
        seq![s[0]] + replace_all(s.skip(1), pat, rep)
    }
}

/// `pat` occurs in `s` at position `k`.
pub open spec fn occurs_at(s: Seq<char>, pat: Seq<char>, k: int) -> bool {
    0 <= k && k + pat.len() <= s.len() && s.subrange(k, k + pat.len()) == pat
}

/// `pat` occurs somewhere in `s`.
pub open spec fn occurs(s: Seq<char>, pat: Seq<char>) -> bool {
    exists|k: int| occurs_at(s, pat, k)
}

/// Whether `pat` occurs in `s` at position `k`.
pub fn matches_at(s: &Vec<char>, pat: &Vec<char>, k: usize) -> (r: bool)
    ensures
        r == occurs_at(s@, pat@, k as int),
{
    if k > s.len() || pat.len() > s.len() - k {
        return false;
    }
    let mut i: usize = 0;
    while i < pat.len()
        invariant
            k + pat.len() <= s.len(),
            i <= pat.len(),
            forall|j: int| 0 <= j < i ==> s@[k + j] == pat@[j],
        decreases pat.len() - i,
    {
        if s[k + i] != pat[i] {
            assert(s@.subrange(k as int, k + pat.len())[i as int] != pat@[i as int]);
            return false;
        }
        i += 1;
    }
    assert(s@.subrange(k as int, k + pat.len()) =~= pat@);
    true
}

/// Whether `pat` occurs anywhere in `s`.
pub fn contains_seq(s: &Vec<char>, pat: &Vec<char>) -> (r: bool)
    ensures
        r == occurs(s@, pat@),
{
    if pat.len() > s.len() {
        return false;
    }
    let mut k: usize = 0;
    while k <= s.len() - pat.len()
        invariant
            pat.len() <= s.len(),
            k <= s.len() - pat.len() + 1,
            forall|j: int| 0 <= j < k ==> !occurs_at(s@, pat@, j),
        decreases s.len() - pat.len() + 1 - k,
    {
        proof {
            if pat.len() == 0 {
                assert(s@.subrange(k as int, k as int) =~= pat@);
            }
        }
        if matches_at(s, pat, k) {
            return true;
        }
        k += 1;
    }
    false
}

/// Appends the characters of `rep` to `out`.
pub fn append_chars(out: &mut Vec<char>, rep: &Vec<char>)
    ensures
        final(out)@ == old(out)@ + rep@,
{
    let mut j: usize = 0;
    while j < rep.len()
        invariant
            j <= rep.len(),
            out@ == old(out)@ + rep@.take(j as int),
        decreases rep.len() - j,
    {
        out.push(rep[j]);
        j += 1;
        assert(rep@.take(j as int) =~= rep@.take(j - 1).push(rep@[j - 1]));
    }
    assert(rep@.take(rep.len() as int) =~= rep@);
}

/// Replaces, from left to right, every non-overlapping occurrence of the
/// non-empty `pat` in `s` with `rep`.
pub fn replace_seq(s: &Vec<char>, pat: &Vec<char>, rep: &Vec<char>) -> (r: Vec<char>)
    requires
        pat.len() > 0,
    ensures
        r@ == replace_all(s@, pat@, rep@),
{
    let mut out: Vec<char> = Vec::new();
    let mut i: usize = 0;
    let n = s.len();
    let m = pat.len();
    assert(s@.skip(0) =~= s@);
    while i < n
        invariant
            n == s.len(),
            m == pat.len(),
            m > 0,
            i <= n,
            replace_all(s@, pat@, rep@) == out@ + replace_all(s@.skip(i as int), pat@, rep@),
        decreases n - i,
    {
        let ghost rest = s@.skip(i as int);
        if matches_at(s, pat, i) {
            assert(rest.take(m as int) =~= s@.subrange(i as int, i + m));
            assert(rest.skip(m as int) =~= s@.skip(i + m));
            append_chars(&mut out, rep);
            i += m;
        } else {
            proof {
                if rest.len() >= m {
                    assert(rest.take(m as int) != pat@) by {
                        assert(rest.take(m as int) =~= s@.subrange(i as int, i + m));
                    }
                }
            }
            assert(rest.skip(1) =~= s@.skip(i + 1));
            out.push(s[i]);
            i += 1;
        }
    }
    assert(s@.skip(n as int) =~= Seq::<char>::empty());
    out
}

/// `c` has the Unicode `White_Space` property.
pub open spec fn is_whitespace(c: char) -> bool {
    let u = c as u32;
    ||| 0x09 <= u <= 0x0d
    ||| u == 0x20
    ||| u == 0x85
    ||| u == 0xa0
    ||| u == 0x1680
    ||| 0x2000 <= u <= 0x200a
    ||| u == 0x2028
    ||| u == 0x2029
    ||| u == 0x202f
    ||| u == 0x205f
    ||| u == 0x3000
}

/// Whether `c` has the Unicode `White_Space` property.
pub fn is_whitespace_char(c: char) -> (r: bool)
    ensures
        r == is_whitespace(c),
{
    let u = c as u32;
    (0x09 <= u && u <= 0x0d) || u == 0x20 || u == 0x85 || u == 0xa0 || u == 0x1680 || (0x2000 <= u
        && u <= 0x200a) || u == 0x2028 || u == 0x2029 || u == 0x202f || u == 0x205f || u == 0x3000
}

/// Appends the characters of `t` to `s`.
pub fn push_str(s: &mut String, t: &str)
    ensures
        final(s)@ == old(s)@ + t@,
{
    let ghost start = s@;
    for c in it: t.chars()
        invariant
            s@ == start + it.seq().take(it.index()),
    {
        push_char(s, c);
        assert(it.seq().take(it.index() + 1) =~= it.seq().take(it.index()).push(c));
    }
}

/// The items joined with `sep` between each two neighbours.
pub open spec fn joined(items: Seq<Seq<char>>, sep: char) -> Seq<char>
    decreases items.len(),
{
    if items.len() == 0 {
        seq![]
    } else if items.len() == 1 {
        items[0]
    } else {
        joined(items.drop_last(), sep) + seq![sep] + items.last()
    }
}

/// `c` is a quotation mark, `"` or `'`.
pub open spec fn is_quote(c: char) -> bool {
    c == '"' || c == '\''
}

/// The characters stripped by `strip`: quotation marks when `quotes`,
/// whitespace otherwise.
pub open spec fn strippable(quotes: bool, c: char) -> bool {
    if quotes { is_quote(c) } else { is_whitespace(c) }
}

/// `s` without its leading strippable characters.
pub open spec fn strip_start(s: Seq<char>, quotes: bool) -> Seq<char>
    decreases s.len(),
{
    if s.len() > 0 && strippable(quotes, s[0]) {
        strip_start(s.drop_first(), quotes)
    } else {
        s
    }
}

/// `s` without its trailing strippable characters.
pub open spec fn strip_end(s: Seq<char>, quotes: bool) -> Seq<char>
    decreases s.len(),
{
    if s.len() > 0 && strippable(quotes, s.last()) {
        strip_end(s.drop_last(), quotes)
    } else {
        s
    }
}

/// `s` without its leading and trailing strippable characters.
pub open spec fn strip(s: Seq<char>, quotes: bool) -> Seq<char> {
    strip_end(strip_start(s, quotes), quotes)
}

fn is_strippable(quotes: bool, c: char) -> (r: bool)
    ensures
        r == strippable(quotes, c),
{
    if quotes { c == '"' || c == '\'' } else { is_whitespace_char(c) }
}

/// Removes the leading and trailing whitespace of `s` (or its leading and
/// trailing quotation marks, when `quotes`).
pub fn strip_chars(s: &Vec<char>, quotes: bool) -> (r: Vec<char>)
    ensures
        r@ == strip(s@, quotes),
{
    let n = s.len();
    let mut i: usize = 0;
    assert(s@.skip(0) =~= s@);
    while i < n && is_strippable(quotes, s[i])
        invariant
            n == s.len(),
            i <= n,
            strip_start(s@, quotes) == strip_start(s@.skip(i as int), quotes),
        decreases n - i,
    {
        assert(s@.skip(i as int).drop_first() =~= s@.skip(i + 1));
        i += 1;
    }
    let ghost t = s@.skip(i as int);
    assert(strip_start(s@, quotes) == t);
    let mut j: usize = n;
    assert(s@.subrange(i as int, n as int) =~= t);
    while j > i && is_strippable(quotes, s[j - 1])
        invariant
            n == s.len(),
            i <= j <= n,
            t == s@.skip(i as int),
            strip_end(t, quotes) == strip_end(s@.subrange(i as int, j as int), quotes),
        decreases j,
    {
        assert(s@.subrange(i as int, j as int).drop_last() =~= s@.subrange(i as int, j - 1));
        j -= 1;
    }
    let mut r: Vec<char> = Vec::new();
    let mut k: usize = i;
    while k < j
        invariant
            n == s.len(),
            i <= k <= j <= n,
            r@ == s@.subrange(i as int, k as int),
        decreases j - k,
    {
        r.push(s[k]);
        k += 1;
        assert(r@ =~= s@.subrange(i as int, k as int));
    }
    r
}

/// The pieces of `s` between line breaks, after the piece `current` being
/// read.
pub open spec fn pieces_from(s: Seq<char>, current: Seq<char>) -> Seq<Seq<char>>
    decreases s.len(),
{
    if s.len() == 0 {
        seq![current]
    } else if s[0] == '\n' {
        seq![current] + pieces_from(s.drop_first(), seq![])
    } else {
        pieces_from(s.drop_first(), current.push(s[0]))
    }
}

/// The lines of `s`: the pieces between line breaks, where a line break
/// at the very end does not start another line.
pub open spec fn text_lines(s: Seq<char>) -> Seq<Seq<char>> {
    let p = pieces_from(s, seq![]);
    if p.last().len() == 0 { p.drop_last() } else { p }
}

/// Splits `s` into its lines.
pub fn split_lines(s: &Vec<char>) -> (r: Vec<Vec<char>>)
    ensures
        r@.len() == text_lines(s@).len(),
        forall|i: int| 0 <= i < r@.len() ==> (#[trigger] r@[i])@ == text_lines(s@)[i],
{
    let ghost all = pieces_from(s@, seq![]);
    let mut done: Vec<Vec<char>> = Vec::new();
    let mut current: Vec<char> = Vec::new();
    let n = s.len();
    let mut i: usize = 0;
    assert(s@.skip(0) =~= s@);
    while i < n
        invariant
            n == s.len(),
            i <= n,
            all == pieces_from(s@, seq![]),
            all =~= done@.map_values(|v: Vec<char>| v@) + pieces_from(s@.skip(i as int), current@),
        decreases n - i,
    {
        assert(s@.skip(i as int).drop_first() =~= s@.skip(i + 1));
        if s[i] == '\n' {
            let ghost before = done@.map_values(|v: Vec<char>| v@);
            done.push(current);
            assert(done@.map_values(|v: Vec<char>| v@) =~= before.push(current@));
            current = Vec::new();
        } else {
            current.push(s[i]);
        }
        i += 1;
    }
    assert(s@.skip(n as int) =~= Seq::<char>::empty());
    let ghost before = done@.map_values(|v: Vec<char>| v@);
    if current.len() > 0 {
        done.push(current);
        assert(done@.map_values(|v: Vec<char>| v@) =~= before.push(current@));
        assert(all.last() == current@);
    } else {
        assert(all.last().len() == 0);
        assert(all.drop_last() =~= before);
    }
    done
}

/// The first position at which `pat` occurs in `s`.
pub open spec fn is_first_occurrence(s: Seq<char>, pat: Seq<char>, k: int) -> bool {
    occurs_at(s, pat, k) && forall|j: int| 0 <= j < k ==> !#[trigger] occurs_at(s, pat, j)
}

/// What follows the first `: ` of `s`, or nothing when it has none.
pub open spec fn after_separator(s: Seq<char>) -> Seq<char> {
    let sep = seq![':', ' '];
    if occurs(s, sep) {
        let k = choose|k: int| is_first_occurrence(s, sep, k);
        s.skip(k + 2)
    } else {
        seq![]
    }
}

/// Returns what follows the first `: ` of `s`, or nothing when it has none.
pub fn text_after_separator(s: &Vec<char>) -> (r: Vec<char>)
    ensures
        r@ == after_separator(s@),
{
    let mut sep: Vec<char> = Vec::new();
    sep.push(':');
    sep.push(' ');
    assert(sep@ =~= seq![':', ' ']);
    if s.len() < 2 {
        assert(!occurs(s@, sep@));
        return Vec::new();
    }
    let mut k: usize = 0;
    while k <= s.len() - 2
        invariant
            sep@ == seq![':', ' '],
            s.len() >= 2,
            k <= s.len() - 1,
            forall|j: int| 0 <= j < k ==> !#[trigger] occurs_at(s@, sep@, j),
        decreases s.len() - k,
    {
        if matches_at(s, &sep, k) {
            proof {
                assert(is_first_occurrence(s@, sep@, k as int));
                let c = choose|c: int| is_first_occurrence(s@, sep@, c);
                assert(c == k) by {
                    if c < k {
                        assert(!occurs_at(s@, sep@, c));
                    } else if c > k {
                        assert(!occurs_at(s@, sep@, k as int));
                    }
                }
            }
            let mut r: Vec<char> = Vec::new();
            let mut i: usize = k + 2;
            assert(r@ =~= s@.subrange(k + 2, k + 2));
            while i < s.len()
                invariant
                    k + 2 <= i <= s.len(),
                    r@ == s@.subrange(k + 2, i as int),
                decreases s.len() - i,
            {
                r.push(s[i]);
                i += 1;
                assert(r@ =~= s@.subrange(k + 2, i as int));
            }
            assert(r@ =~= s@.skip(k + 2));
            return r;
        }
        k += 1;
    }
    assert forall|j: int| !occurs_at(s@, sep@, j) by {
        if 0 <= j < k {
        }
    }
    assert(!occurs(s@, sep@));
    Vec::new()
}

/// The ASCII lower-case form of a character.
pub open spec fn ascii_lower(c: char) -> char {
    if 'A' <= c && c <= 'Z' { ((c as u32) + 32) as char } else { c }
}

/// Lower-cases the ASCII letters of `s`.
pub fn ascii_lowercase(s: &Vec<char>) -> (r: Vec<char>)
    ensures
        r@ == s@.map_values(|c: char| ascii_lower(c)),
{
    let mut r: Vec<char> = Vec::new();
    let mut i: usize = 0;
    while i < s.len()
        invariant
            i <= s.len(),
            r@ == s@.take(i as int).map_values(|c: char| ascii_lower(c)),
        decreases s.len() - i,
    {
        let c = s[i];
        let l = if 'A' <= c && c <= 'Z' { ((c as u32) + 32) as u8 as char } else { c };
        r.push(l);
        i += 1;
        assert(r@ =~= s@.take(i as int).map_values(|c: char| ascii_lower(c)));
    }
    assert(s@.take(s@.len() as int) =~= s@);
    r
}

/// The `String` of the characters `chars[from..]`.
pub fn string_from_chars(chars: &Vec<char>, from: usize) -> (s: String)
    requires
        from <= chars@.len(),
    ensures
        s@ == chars@.skip(from as int),
{
    let mut s = String::new();
    let mut i: usize = from;
    while i < chars.len()
        invariant
            from <= i <= chars@.len(),
            s@ == chars@.subrange(from as int, i as int),
        decreases chars.len() - i,
    {
        push_char(&mut s, chars[i]);
        i += 1;
        assert(chars@.subrange(from as int, i as int) =~= chars@.subrange(from as int, i - 1).push(
            chars@[i - 1],
        ));
    }
    assert(chars@.subrange(from as int, chars@.len() as int) =~= chars@.skip(from as int));
    s
}

} // verus!
