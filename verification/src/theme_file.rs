//! Ghostty theme files (`key = value` lines) as the theme generator reads
//! them, and the slugs generated themes are named by.
use vstd::prelude::*;
use crate::palette::Rgb;
use crate::text::{chars_of, is_whitespace, char_is_whitespace, string_from_chars};

verus! {

// ---------------------------------------------------------------------------
// Splitting and trimming
// ---------------------------------------------------------------------------

/// The pieces of `s` between occurrences of `sep` (one more piece than there
/// are separators), as `str::split` with a character pattern yields them.
pub open spec fn split_char(s: Seq<char>, sep: char) -> Seq<Seq<char>>
    decreases s.len(),
{
    if s.len() == 0 {
        seq![Seq::empty()]
    } else {
        let rest = split_char(s.drop_last(), sep);
        if s.last() == sep {
            rest.push(Seq::empty())
        } else {
            rest.update(rest.len() - 1, rest.last().push(s.last()))
        }
    }
}

/// A split always has at least one piece.
pub proof fn lemma_split_char_nonempty(s: Seq<char>, sep: char)
    ensures
        split_char(s, sep).len() >= 1,
    decreases s.len(),
{
    if s.len() > 0 {
        lemma_split_char_nonempty(s.drop_last(), sep);
    }
}

/// Splits `s` at every `sep`.
pub fn split_chars(s: &Vec<char>, sep: char) -> (pieces: Vec<Vec<char>>)
    ensures
        pieces@.map_values(|p: Vec<char>| p@) == split_char(s@, sep),
{
    let mut pieces: Vec<Vec<char>> = Vec::new();
    let mut current: Vec<char> = Vec::new();
    let mut i: usize = 0;
    while i < s.len()
        invariant
            0 <= i <= s@.len(),
            pieces@.map_values(|p: Vec<char>| p@).push(current@) == split_char(s@.take(i as int), sep),
        decreases s@.len() - i,
    {
        let c = s[i];
        assert(s@.take(i + 1).drop_last() =~= s@.take(i as int));
        assert(s@.take(i + 1).last() == c);
        proof {
            lemma_split_char_nonempty(s@.take(i as int), sep);
        }
        if c == sep {
            let done = current;
            let ghost before = pieces@;
            pieces.push(done);
            current = Vec::new();
            assert(pieces@.map_values(|p: Vec<char>| p@).push(current@) =~= split_char(
                s@.take(i as int),
                sep,
            ).push(Seq::empty()));
        } else {
            let ghost before = current@;
            current.push(c);
            let ghost whole = split_char(s@.take(i as int), sep);
            assert(pieces@.map_values(|p: Vec<char>| p@).push(current@) =~= whole.update(
                whole.len() - 1,
                whole.last().push(c),
            ));
        }
        i = i + 1;
    }
    assert(s@.take(s@.len() as int) =~= s@);
    pieces.push(current);
    pieces
}

/// `s` without leading whitespace.
pub open spec fn trim_start(s: Seq<char>) -> Seq<char>
    decreases s.len(),
{
    if s.len() > 0 && is_whitespace(s[0]) {
        trim_start(s.drop_first())
    } else {
        s
    }
}

/// `s` without trailing whitespace.
pub open spec fn trim_end(s: Seq<char>) -> Seq<char>
    decreases s.len(),
{
    if s.len() > 0 && is_whitespace(s.last()) {
        trim_end(s.drop_last())
    } else {
        s
    }
}

/// `s` without leading and trailing whitespace, as `str::trim` gives it.
pub open spec fn trim(s: Seq<char>) -> Seq<char> {
    trim_end(trim_start(s))
}

proof fn lemma_trim_start_skip(s: Seq<char>, a: int)
    requires
        0 <= a <= s.len(),
        forall|k: int| 0 <= k < a ==> is_whitespace(#[trigger] s[k]),
    ensures
        trim_start(s) == trim_start(s.subrange(a, s.len() as int)),
    decreases a,
{
    if a > 0 {
        assert(s.drop_first().subrange(a - 1, s.drop_first().len() as int) =~= s.subrange(
            a,
            s.len() as int,
        ));
        lemma_trim_start_skip(s.drop_first(), a - 1);
    } else {
        assert(s.subrange(0, s.len() as int) =~= s);
    }
}

proof fn lemma_trim_end_skip(s: Seq<char>, b: int)
    requires
        0 <= b <= s.len(),
        forall|k: int| b <= k < s.len() ==> is_whitespace(#[trigger] s[k]),
    ensures
        trim_end(s) == trim_end(s.subrange(0, b)),
    decreases s.len() - b,
{
    if b < s.len() {
        assert(s.drop_last().subrange(0, b) =~= s.subrange(0, b));
        lemma_trim_end_skip(s.drop_last(), b);
    } else {
        assert(s.subrange(0, s.len() as int) =~= s);
    }
}

/// `v` without leading and trailing whitespace.
pub fn trim_chars(v: &Vec<char>) -> (r: Vec<char>)
    ensures
        r@ == trim(v@),
{
    let mut a: usize = 0;
    while a < v.len() && char_is_whitespace(v[a])
        invariant
            0 <= a <= v@.len(),
            forall|k: int| 0 <= k < a ==> is_whitespace(#[trigger] v@[k]),
        decreases v@.len() - a,
    {
        a = a + 1;
    }
    proof {
        lemma_trim_start_skip(v@, a as int);
    }
    let ghost rest = v@.subrange(a as int, v@.len() as int);
    assert(a == v@.len() || !is_whitespace(rest[0]));
    assert(trim_start(rest) == rest);
    let mut b: usize = v.len();
    while b > a && char_is_whitespace(v[b - 1])
        invariant
            a <= b <= v@.len(),
            forall|k: int| b <= k < v@.len() ==> is_whitespace(#[trigger] v@[k]),
        decreases b - a,
    {
        b = b - 1;
    }
    proof {
        assert forall|k: int| b - a <= k < rest.len() implies is_whitespace(#[trigger] rest[k]) by {
            assert(rest[k] == v@[a + k]);
        }
        lemma_trim_end_skip(rest, (b - a) as int);
        let kept = rest.subrange(0, (b - a) as int);
        assert(kept =~= v@.subrange(a as int, b as int));
        if kept.len() > 0 {
            assert(kept.last() == v@[b - 1]);
        }
        assert(trim_end(kept) == kept);
    }
    let mut out: Vec<char> = Vec::new();
    let mut k: usize = a;
    while k < b
        invariant
            a <= k <= b <= v@.len(),
            out@ == v@.subrange(a as int, k as int),
        decreases b - k,
    {
        out.push(v[k]);
        assert(v@.subrange(a as int, k + 1) =~= v@.subrange(a as int, k as int).push(v@[k as int]));
        k = k + 1;
    }
    out
}

/// The non-empty pieces of a sequence of pieces, in order.
pub open spec fn non_empty(pieces: Seq<Seq<char>>) -> Seq<Seq<char>>
    decreases pieces.len(),
{
    if pieces.len() == 0 {
        Seq::empty()
    } else {
        let rest = non_empty(pieces.drop_last());
        if pieces.last().len() > 0 {
            rest.push(pieces.last())
        } else {
            rest
        }
    }
}

/// The trimmed, non-empty `=`-separated parts of a theme file line.
pub open spec fn line_parts(line: Seq<char>) -> Seq<Seq<char>> {
    non_empty(split_char(line, '=').map_values(|p: Seq<char>| trim(p)))
}

/// The trimmed, non-empty `=`-separated parts of a theme file line.
pub fn split_line_parts(line: &Vec<char>) -> (parts: Vec<Vec<char>>)
    ensures
        parts@.map_values(|p: Vec<char>| p@) == line_parts(line@),
{
    let pieces = split_chars(line, '=');
    let ghost trimmed = split_char(line@, '=').map_values(|p: Seq<char>| trim(p));
    let mut parts: Vec<Vec<char>> = Vec::new();
    let mut i: usize = 0;
    while i < pieces.len()
        invariant
            0 <= i <= pieces@.len(),
            pieces@.map_values(|p: Vec<char>| p@) == split_char(line@, '='),
            trimmed == split_char(line@, '=').map_values(|p: Seq<char>| trim(p)),
            parts@.map_values(|p: Vec<char>| p@) == non_empty(trimmed.take(i as int)),
        decreases pieces@.len() - i,
    {
        let part = trim_chars(&pieces[i]);
        assert(trimmed.take(i + 1).drop_last() =~= trimmed.take(i as int));
        assert(trimmed.take(i + 1).last() == part@);
        if part.len() > 0 {
            let ghost pv = part@;
            parts.push(part);
            assert(parts@.map_values(|p: Vec<char>| p@) =~= non_empty(trimmed.take(i as int)).push(pv));
        }
        i = i + 1;
    }
    assert(trimmed.take(pieces@.len() as int) =~= trimmed);
    parts
}

// ---------------------------------------------------------------------------
// Numbers and colors
// ---------------------------------------------------------------------------

/// Value of an ASCII decimal digit.
pub open spec fn decimal_digit(c: char) -> Option<int> {
    if '0' <= c <= '9' {
        Some(c as int - '0' as int)
    } else {
        None
    }
}

/// Value of an ASCII hexadecimal digit (either case).
pub open spec fn hex_digit(c: char) -> Option<int> {
    if '0' <= c <= '9' {
        Some(c as int - '0' as int)
    } else if 'a' <= c <= 'f' {
        Some(c as int - 'a' as int + 10)
    } else if 'A' <= c <= 'F' {
        Some(c as int - 'A' as int + 10)
    } else {
        None
    }
}

/// Whether every character is a decimal digit.
pub open spec fn all_decimal(s: Seq<char>) -> bool {
    forall|k: int| 0 <= k < s.len() ==> #[trigger] decimal_digit(s[k]) is Some
}

/// Value of a string of decimal digits.
pub open spec fn decimal_value(s: Seq<char>) -> int
    decreases s.len(),
{
    if s.len() == 0 {
        0
    } else {
        decimal_value(s.drop_last()) * 10 + decimal_digit(s.last())->0
    }
}

/// `usize`'s `FromStr`: an optional `+` and at least one decimal digit, with a
/// value that fits in `usize`.
pub open spec fn spec_parse_usize(s: Seq<char>) -> Option<int> {
    let digits = if s.len() > 0 && s[0] == '+' {
        s.drop_first()
    } else {
        s
    };
    if digits.len() > 0 && all_decimal(digits) && decimal_value(digits) <= usize::MAX {
        Some(decimal_value(digits))
    } else {
        None
    }
}

proof fn lemma_decimal_value_grows(s: Seq<char>, k: int)
    requires
        0 <= k <= s.len(),
        all_decimal(s),
    ensures
        decimal_value(s.take(k)) <= decimal_value(s),
        0 <= decimal_value(s.take(k)),
    decreases s.len() - k,
{
    if k < s.len() {
        lemma_decimal_value_grows(s, k + 1);
        assert(s.take(k + 1).drop_last() =~= s.take(k));
        assert(decimal_digit(s[k]) is Some);
    } else {
        assert(s.take(k) =~= s);
        lemma_decimal_value_nonneg(s);
    }
}

proof fn lemma_decimal_value_nonneg(s: Seq<char>)
    requires
        all_decimal(s),
    ensures
        0 <= decimal_value(s),
    decreases s.len(),
{
    if s.len() > 0 {
        assert(all_decimal(s.drop_last())) by {
            assert forall|k: int| 0 <= k < s.drop_last().len() implies #[trigger] decimal_digit(
                s.drop_last()[k],
            ) is Some by {
                assert(s.drop_last()[k] == s[k]);
            }
        }
        lemma_decimal_value_nonneg(s.drop_last());
        assert(decimal_digit(s[s.len() - 1]) is Some);
    }
}

/// Parses a palette index as `usize`'s `FromStr` does.
pub fn parse_usize(s: &Vec<char>) -> (r: Option<usize>)
    ensures
        r matches Some(v) ==> spec_parse_usize(s@) == Some(v as int),
        r is None ==> spec_parse_usize(s@) is None,
{
    let start: usize = if s.len() > 0 && s[0] == '+' {
        1
    } else {
        0
    };
    let ghost digits = if s@.len() > 0 && s@[0] == '+' {
        s@.drop_first()
    } else {
        s@
    };
    assert(digits =~= s@.subrange(start as int, s@.len() as int));
    if start >= s.len() {
        assert(digits.len() == 0);
        return None;
    }
    let mut value: usize = 0;
    let mut i: usize = start;
    while i < s.len()
        invariant
            start <= i <= s@.len(),
            digits == s@.subrange(start as int, s@.len() as int),
            digits == (if s@.len() > 0 && s@[0] == '+' {
                s@.drop_first()
            } else {
                s@
            }),
            all_decimal(digits.take(i - start)),
            value == decimal_value(digits.take(i - start)),
        decreases s@.len() - i,
    {
        let c = s[i];
        assert(digits[i - start] == c);
        if !('0' <= c && c <= '9') {
            assert(decimal_digit(digits[i - start]) is None);
            return None;
        }
        let d = (c as u32 - '0' as u32) as usize;
        assert(digits.take(i - start + 1).drop_last() =~= digits.take(i - start));
        assert(digits.take(i - start + 1).last() == c);
        assert(all_decimal(digits.take(i - start + 1))) by {
            assert forall|k: int| 0 <= k < i - start + 1 implies #[trigger] decimal_digit(
                digits.take(i - start + 1)[k],
            ) is Some by {
                if k < i - start {
                    assert(digits.take(i - start + 1)[k] == digits.take(i - start)[k]);
                }
            }
        }
        assert(decimal_digit(c) == Some(d as int));
        assert(decimal_value(digits.take(i - start + 1)) == value * 10 + d);
        match value.checked_mul(10) {
            Some(tens) => match tens.checked_add(d) {
                Some(next) => {
                    value = next;
                },
                None => {
                    proof {
                        lemma_value_too_large(digits, (i - start + 1) as int);
                    }
                    return None;
                },
            },
            None => {
                proof {
                    lemma_value_too_large(digits, (i - start + 1) as int);
                }
                return None;
            },
        }
        i = i + 1;
    }
    assert(digits.take(s@.len() - start) =~= digits);
    Some(value)
}

proof fn lemma_value_too_large(digits: Seq<char>, k: int)
    requires
        0 < k <= digits.len(),
        all_decimal(digits.take(k)),
        decimal_value(digits.take(k)) > usize::MAX,
    ensures
        !(all_decimal(digits) && decimal_value(digits) <= usize::MAX),
{
    if all_decimal(digits) {
        lemma_decimal_value_grows(digits, k);
    }
}

/// Value of a two-character radix-16 `u8` string, as `u8::from_str_radix`
/// parses it: an optional `+` followed by one digit, or two digits.
pub open spec fn hex_pair(a: char, b: char) -> Option<u8> {
    if a == '+' {
        match hex_digit(b) {
            Some(d) => Some(d as u8),
            None => None,
        }
    } else {
        match (hex_digit(a), hex_digit(b)) {
            (Some(x), Some(y)) => Some((x * 16 + y) as u8),
            _ => None,
        }
    }
}

/// `s` without its leading `#` characters.
pub open spec fn strip_hashes(s: Seq<char>) -> Seq<char>
    decreases s.len(),
{
    if s.len() > 0 && s[0] == '#' {
        strip_hashes(s.drop_first())
    } else {
        s
    }
}

/// A `#rrggbb` color: trimmed, leading `#`s dropped, then three two-byte
/// channels taken from the first six bytes. Any other input has no value.
pub open spec fn spec_parse_hex(hex: Seq<char>) -> Option<Rgb> {
    let h = strip_hashes(trim(hex));
    if h.len() >= 6 && forall|k: int| 0 <= k < 6 ==> (#[trigger] h[k] as u32) < 0x80 {
        match (hex_pair(h[0], h[1]), hex_pair(h[2], h[3]), hex_pair(h[4], h[5])) {
            (Some(r), Some(g), Some(b)) => Some((r, g, b)),
            _ => None,
        }
    } else {
        None
    }
}

fn hex_digit_value(c: char) -> (r: Option<u8>)
    ensures
        r matches Some(v) ==> hex_digit(c) == Some(v as int),
        r is None ==> hex_digit(c) is None,
{
    if '0' <= c && c <= '9' {
        Some((c as u32 - '0' as u32) as u8)
    } else if 'a' <= c && c <= 'f' {
        Some((c as u32 - 'a' as u32 + 10) as u8)
    } else if 'A' <= c && c <= 'F' {
        Some((c as u32 - 'A' as u32 + 10) as u8)
    } else {
        None
    }
}

fn parse_hex_pair(a: char, b: char) -> (r: Option<u8>)
    ensures
        r == hex_pair(a, b),
{
    if a == '+' {
        hex_digit_value(b)
    } else {
        match (hex_digit_value(a), hex_digit_value(b)) {
            (Some(x), Some(y)) => Some(x * 16 + y),
            _ => None,
        }
    }
}

/// Parses a `#rrggbb` color given as characters.
fn parse_hex_chars(hex: &Vec<char>) -> (rgb: Option<Rgb>)
    ensures
        rgb == spec_parse_hex(hex@),
{
    let trimmed = trim_chars(hex);
    let n = trimmed.len();
    assert(trimmed@.subrange(0, trimmed@.len() as int) =~= trimmed@);
    let mut a: usize = 0;
    while a < trimmed.len() && trimmed[a] == '#'
        invariant
            0 <= a <= trimmed@.len(),
            strip_hashes(trimmed@) == strip_hashes(trimmed@.subrange(a as int, trimmed@.len() as int)),
        decreases trimmed@.len() - a,
    {
        assert(trimmed@.subrange(a as int, trimmed@.len() as int).drop_first() =~= trimmed@.subrange(
            a + 1,
            trimmed@.len() as int,
        ));
        a = a + 1;
    }
    let ghost h = trimmed@.subrange(a as int, trimmed@.len() as int);
    assert(strip_hashes(h) == h);
    if trimmed.len() - a < 6 {
        return None;
    }
    let mut k: usize = 0;
    while k < 6
        invariant
            0 <= k <= 6,
            n == trimmed@.len(),
            a + 6 <= trimmed@.len(),
            h == trimmed@.subrange(a as int, trimmed@.len() as int),
            h == strip_hashes(trim(hex@)),
            forall|j: int| 0 <= j < k ==> (#[trigger] h[j] as u32) < 0x80,
        decreases 6 - k,
    {
        if trimmed[a + k] as u32 >= 0x80 {
            assert(h[k as int] == trimmed@[a + k]);
            assert(!((h[k as int] as u32) < 0x80));
            return None;
        }
        k = k + 1;
    }
    let r = parse_hex_pair(trimmed[a], trimmed[a + 1]);
    let g = parse_hex_pair(trimmed[a + 2], trimmed[a + 3]);
    let b = parse_hex_pair(trimmed[a + 4], trimmed[a + 5]);
    assert(h[0] == trimmed@[a as int] && h[1] == trimmed@[a + 1] && h[2] == trimmed@[a + 2]
        && h[3] == trimmed@[a + 3] && h[4] == trimmed@[a + 4] && h[5] == trimmed@[a + 5]);
    match (r, g, b) {
        (Some(r), Some(g), Some(b)) => Some((r, g, b)),
        _ => None,
    }
}

/// Reads a `#rrggbb` color. `None` where the color is malformed (the
/// generator stops there).
pub fn read_hex(hex: &str) -> (rgb: Option<Rgb>)
    ensures
        rgb == spec_parse_hex(hex@),
{
    parse_hex_chars(&chars_of(hex))
}

/// Parses a well-formed `#rrggbb` color (see [`read_hex`] for text that may
/// not be one).
pub fn parse_hex(hex: &str) -> (rgb: Rgb)
    requires
        spec_parse_hex(hex@) is Some,
    ensures
        Some(rgb) == spec_parse_hex(hex@),
{
    match parse_hex_chars(&chars_of(hex)) {
        Some(rgb) => rgb,
        None => {
            assert(false);
            (0, 0, 0)
        },
    }
}


/// `16^k`.
pub open spec fn pow16(k: nat) -> nat
    decreases k,
{
    if k == 0 {
        1
    } else {
        16 * pow16((k - 1) as nat)
    }
}

/// The last `k` lowercase hexadecimal digits of `v`, most significant first.
pub open spec fn hex_digits_of(v: nat, k: nat) -> Seq<char>
    decreases k,
{
    if k <= 1 {
        seq![crate::theme_output::hex_digit_char((v % 16) as int)]
    } else {
        hex_digits_of(v / 16, (k - 1) as nat).push(crate::theme_output::hex_digit_char((v % 16) as int))
    }
}

/// `c` with `a`-`f` in upper case.
pub open spec fn hex_upper(c: char) -> char {
    if c == 'a' {
        'A'
    } else if c == 'b' {
        'B'
    } else if c == 'c' {
        'C'
    } else if c == 'd' {
        'D'
    } else if c == 'e' {
        'E'
    } else if c == 'f' {
        'F'
    } else {
        c
    }
}

/// `n` copies of `c`.
pub open spec fn repeat_char(c: char, n: nat) -> Seq<char> {
    Seq::new(n, |_i: int| c)
}

proof fn lemma_hex_digits_of_zero(k: nat)
    requires
        k >= 1,
    ensures
        hex_digits_of(0, k) == repeat_char('0', k),
    decreases k,
{
    if k > 1 {
        lemma_hex_digits_of_zero((k - 1) as nat);
        assert(repeat_char('0', (k - 1) as nat).push('0') =~= repeat_char('0', k));
    } else {
        assert(seq!['0'] =~= repeat_char('0', 1));
    }
}

proof fn lemma_padded_hex_string(v: nat, k: nat)
    requires
        k >= 1,
        v < pow16(k),
    ensures
        crate::theme_output::zero_padded(crate::theme_output::hex_string(v), k) == hex_digits_of(v, k),
        crate::theme_output::hex_string(v).len() <= k,
    decreases k,
{
    let hs = crate::theme_output::hex_string(v);
    if v < 16 {
        assert(v % 16 == v);
        if k > 1 {
            lemma_hex_digits_of_zero((k - 1) as nat);
            assert(v / 16 == 0);
            assert(crate::theme_output::zero_padded(hs, k) =~= repeat_char('0', (k - 1) as nat).push(
                crate::theme_output::hex_digit_char(v as int),
            ));
        }
    } else {
        assert(k > 1) by {
            if k == 1 {
                assert(pow16(1) == 16 * pow16(0));
            }
        }
        let p = pow16((k - 1) as nat);
        assert(pow16(k) == 16 * p);
        assert(v / 16 < p) by (nonlinear_arith)
            requires
                v < 16 * p,
        ;
        lemma_padded_hex_string(v / 16, (k - 1) as nat);
        let inner = crate::theme_output::hex_string(v / 16);
        let c = crate::theme_output::hex_digit_char((v % 16) as int);
        assert(hs == inner.push(c));
        assert(crate::theme_output::zero_padded(hs, k) =~= crate::theme_output::zero_padded(inner, (k - 1) as nat).push(c));
    }
}

proof fn lemma_hex_digit_round_trip(d: int)
    requires
        0 <= d < 16,
    ensures
        hex_digit(crate::theme_output::hex_digit_char(d)) == Some(d),
        hex_digit(hex_upper(crate::theme_output::hex_digit_char(d))) == Some(d),
        (crate::theme_output::hex_digit_char(d) as u32) < 0x80,
        (hex_upper(crate::theme_output::hex_digit_char(d)) as u32) < 0x80,
        !is_whitespace(crate::theme_output::hex_digit_char(d)),
        !is_whitespace(hex_upper(crate::theme_output::hex_digit_char(d))),
        crate::theme_output::hex_digit_char(d) != '#' && crate::theme_output::hex_digit_char(d) != '+',
        hex_upper(crate::theme_output::hex_digit_char(d)) != '#' && hex_upper(crate::theme_output::hex_digit_char(d)) != '+',
{
}

/// The six lowercase hexadecimal digits of a packed color (its `{:06x}`).
pub open spec fn packed_hex(rgb: Rgb) -> Seq<char> {
    crate::theme_output::zero_padded(crate::theme_output::hex_string(crate::palette::packed_rgb(rgb) as nat), 6)
}

proof fn lemma_packed_hex_digits(rgb: Rgb)
    ensures
        packed_hex(rgb) == seq![
            crate::theme_output::hex_digit_char((rgb.0 / 16) as int),
            crate::theme_output::hex_digit_char((rgb.0 % 16) as int),
            crate::theme_output::hex_digit_char((rgb.1 / 16) as int),
            crate::theme_output::hex_digit_char((rgb.1 % 16) as int),
            crate::theme_output::hex_digit_char((rgb.2 / 16) as int),
            crate::theme_output::hex_digit_char((rgb.2 % 16) as int),
        ],
{
    let (r, g, b) = rgb;
    let v: nat = crate::palette::packed_rgb(rgb) as nat;
    assert(v == r * 65536 + g * 256 + b);
    assert(pow16(6) == 16777216) by {
        reveal_with_fuel(pow16, 7);
    }
    assert(v < 16777216) by (nonlinear_arith)
        requires
            v == r * 65536 + g * 256 + b,
            r < 256,
            g < 256,
            b < 256,
    ;
    lemma_padded_hex_string(v, 6);
    assert(v % 16 == b % 16 && v / 16 == r * 4096 + g * 16 + b / 16) by (nonlinear_arith)
        requires
            v == r * 65536 + g * 256 + b,
            r < 256,
            g < 256,
            b < 256,
    ;
    let v1: nat = v / 16;
    assert(v1 % 16 == b / 16 && v1 / 16 == r * 256 + g) by (nonlinear_arith)
        requires
            v1 == r * 4096 + g * 16 + b / 16,
            b < 256,
            b / 16 < 16,
    ;
    let v2: nat = v1 / 16;
    assert(v2 % 16 == g % 16 && v2 / 16 == r * 16 + g / 16) by (nonlinear_arith)
        requires
            v2 == r * 256 + g,
            g < 256,
    ;
    let v3: nat = v2 / 16;
    assert(v3 % 16 == g / 16 && v3 / 16 == r) by (nonlinear_arith)
        requires
            v3 == r * 16 + g / 16,
            g < 256,
            g / 16 < 16,
    ;
    let v4: nat = v3 / 16;
    assert(v4 % 16 == r % 16 && v4 / 16 == r / 16) by (nonlinear_arith)
        requires
            v4 == r,
    ;
    let v5: nat = v4 / 16;
    assert(v5 % 16 == r / 16) by (nonlinear_arith)
        requires
            v5 == r / 16,
            r < 256,
    ;
    reveal_with_fuel(hex_digits_of, 7);
    assert(packed_hex(rgb) =~= seq![
        crate::theme_output::hex_digit_char((rgb.0 / 16) as int),
        crate::theme_output::hex_digit_char((rgb.0 % 16) as int),
        crate::theme_output::hex_digit_char((rgb.1 / 16) as int),
        crate::theme_output::hex_digit_char((rgb.1 % 16) as int),
        crate::theme_output::hex_digit_char((rgb.2 / 16) as int),
        crate::theme_output::hex_digit_char((rgb.2 % 16) as int),
    ]);
}

proof fn lemma_strip_hashes_prefix(m: nat, h: Seq<char>)
    requires
        h.len() > 0,
        h[0] != '#',
    ensures
        strip_hashes(repeat_char('#', m) + h) == h,
    decreases m,
{
    if m > 0 {
        assert((repeat_char('#', m) + h).drop_first() =~= repeat_char('#', (m - 1) as nat) + h);
        lemma_strip_hashes_prefix((m - 1) as nat, h);
    } else {
        assert(repeat_char('#', 0) + h =~= h);
    }
}

proof fn lemma_trim_padded(p: nat, core: Seq<char>, q: nat)
    requires
        core.len() > 0,
        !is_whitespace(core[0]),
        !is_whitespace(core.last()),
    ensures
        trim(repeat_char(' ', p) + core + repeat_char(' ', q)) == core,
{
    let t = repeat_char(' ', p) + core + repeat_char(' ', q);
    assert forall|k: int| 0 <= k < p implies is_whitespace(#[trigger] t[k]) by {
        assert(t[k] == ' ');
    }
    lemma_trim_start_skip(t, p as int);
    let u = t.subrange(p as int, t.len() as int);
    assert(u =~= core + repeat_char(' ', q));
    assert(trim_start(u) == u);
    assert forall|k: int| core.len() <= k < u.len() implies is_whitespace(#[trigger] u[k]) by {
        assert(u[k] == ' ');
    }
    lemma_trim_end_skip(u, core.len() as int);
    assert(u.subrange(0, core.len() as int) =~= core);
    assert(core.last() == core[core.len() - 1]);
}

/// Formatting a color as six hexadecimal digits and reading it back gives
/// the color: packing and `parse_hex` are inverse, whatever whitespace
/// surrounds the digits, however many `#` precede them, and in either case
/// of `a`-`f`.
pub proof fn lemma_parse_hex_reads_back_packed_colors(rgb: Rgb, spaces_before: nat, hashes: nat, spaces_after: nat, upper: bool)
    ensures
        ({
            let digits = if upper {
                packed_hex(rgb).map_values(|c: char| hex_upper(c))
            } else {
                packed_hex(rgb)
            };
            spec_parse_hex(
                repeat_char(' ', spaces_before) + (repeat_char('#', hashes) + digits) + repeat_char(' ', spaces_after),
            ) == Some(rgb)
        }),
{
    let (r, g, b) = rgb;
    lemma_packed_hex_digits(rgb);
    let lower = packed_hex(rgb);
    let digits = if upper {
        lower.map_values(|c: char| hex_upper(c))
    } else {
        lower
    };
    lemma_hex_digit_round_trip((r / 16) as int);
    lemma_hex_digit_round_trip((r % 16) as int);
    lemma_hex_digit_round_trip((g / 16) as int);
    lemma_hex_digit_round_trip((g % 16) as int);
    lemma_hex_digit_round_trip((b / 16) as int);
    lemma_hex_digit_round_trip((b % 16) as int);
    assert(digits.len() == 6);
    let core = repeat_char('#', hashes) + digits;
    assert(core[0] == '#' || core[0] == digits[0]);
    assert(core.last() == digits[5]);
    lemma_trim_padded(spaces_before, core, spaces_after);
    lemma_strip_hashes_prefix(hashes, digits);
    assert((r / 16) * 16 + r % 16 == r);
    assert((g / 16) * 16 + g % 16 == g);
    assert((b / 16) * 16 + b % 16 == b);
    assert(hex_pair(digits[0], digits[1]) == Some(r));
    assert(hex_pair(digits[2], digits[3]) == Some(g));
    assert(hex_pair(digits[4], digits[5]) == Some(b));
}


// ---------------------------------------------------------------------------
// Theme files
// ---------------------------------------------------------------------------

/// The key of a palette entry line.
pub open spec fn palette_key() -> Seq<char> {
    seq!['p', 'a', 'l', 'e', 't', 't', 'e']
}

/// The key of the background line.
pub open spec fn background_key() -> Seq<char> {
    seq!['b', 'a', 'c', 'k', 'g', 'r', 'o', 'u', 'n', 'd']
}

/// The key of the foreground line.
pub open spec fn foreground_key() -> Seq<char> {
    seq!['f', 'o', 'r', 'e', 'g', 'r', 'o', 'u', 'n', 'd']
}

/// Number of ANSI palette entries a theme defines.
pub const ANSI_COLORS: usize = 16;

/// Why a theme file cannot be used.
#[derive(Debug)]
pub enum ThemeFileError {
    /// A palette line whose index is not a `usize`; holds the line.
    InvalidPaletteIndex { line: String },
    /// A color that is not `#rrggbb`; holds the value.
    InvalidHex { value: String },
    /// No line set this palette entry.
    MissingPalette { index: usize },
    MissingBackground,
    MissingForeground,
}

/// The spec-level value of a [`ThemeFileError`].
pub enum ThemeFileErrorView {
    InvalidPaletteIndex { line: Seq<char> },
    InvalidHex { value: Seq<char> },
    MissingPalette { index: int },
    MissingBackground,
    MissingForeground,
}

impl View for ThemeFileError {
    type V = ThemeFileErrorView;

    open spec fn view(&self) -> ThemeFileErrorView {
        match self {
            ThemeFileError::InvalidPaletteIndex { line } => ThemeFileErrorView::InvalidPaletteIndex {
                line: line@,
            },
            ThemeFileError::InvalidHex { value } => ThemeFileErrorView::InvalidHex { value: value@ },
            ThemeFileError::MissingPalette { index } => ThemeFileErrorView::MissingPalette {
                index: *index as int,
            },
            ThemeFileError::MissingBackground => ThemeFileErrorView::MissingBackground,
            ThemeFileError::MissingForeground => ThemeFileErrorView::MissingForeground,
        }
    }
}

/// A complete theme: the 16 ANSI colors, background and foreground.
#[derive(Debug)]
pub struct ParsedTheme {
    pub palette: Vec<Rgb>,
    pub background: Rgb,
    pub foreground: Rgb,
}

/// The colors read so far while scanning a theme file.
pub struct ScanState {
    pub palette: Seq<Option<Rgb>>,
    pub background: Option<Rgb>,
    pub foreground: Option<Rgb>,
}

/// Nothing read yet.
pub open spec fn initial_scan() -> ScanState {
    ScanState {
        palette: Seq::new(ANSI_COLORS as nat, |i: int| None::<Rgb>),
        background: None,
        foreground: None,
    }
}

/// A line without its carriage return, as `str::lines` yields it.
pub open spec fn strip_cr(line: Seq<char>) -> Seq<char> {
    if line.len() > 0 && line.last() == '\r' {
        line.drop_last()
    } else {
        line
    }
}

/// Reading one line: `palette = N = #rrggbb` sets entry `N` (indices past
/// 15 are ignored), `background = #rrggbb` and `foreground = #rrggbb` set
/// those colors, and every other line is ignored. A malformed index or
/// color stops the scan.
pub open spec fn scan_line(st: ScanState, line: Seq<char>) -> Result<ScanState, ThemeFileErrorView> {
    let parts = line_parts(line);
    if parts.len() == 0 {
        Ok(st)
    } else if parts[0] == palette_key() && parts.len() == 3 {
        match spec_parse_usize(parts[1]) {
            None => Err(ThemeFileErrorView::InvalidPaletteIndex { line: strip_cr(line) }),
            Some(index) => if index < ANSI_COLORS {
                match spec_parse_hex(parts[2]) {
                    None => Err(ThemeFileErrorView::InvalidHex { value: parts[2] }),
                    Some(rgb) => Ok(ScanState { palette: st.palette.update(index, Some(rgb)), ..st }),
                }
            } else {
                Ok(st)
            },
        }
    } else if parts[0] == background_key() && parts.len() == 2 {
        match spec_parse_hex(parts[1]) {
            None => Err(ThemeFileErrorView::InvalidHex { value: parts[1] }),
            Some(rgb) => Ok(ScanState { background: Some(rgb), ..st }),
        }
    } else if parts[0] == foreground_key() && parts.len() == 2 {
        match spec_parse_hex(parts[1]) {
            None => Err(ThemeFileErrorView::InvalidHex { value: parts[1] }),
            Some(rgb) => Ok(ScanState { foreground: Some(rgb), ..st }),
        }
    } else {
        Ok(st)
    }
}

/// Reading the first `n` lines, in order; the first error stops the scan.
pub open spec fn scan_lines(lines: Seq<Seq<char>>, n: int) -> Result<ScanState, ThemeFileErrorView>
    decreases n,
{
    if n <= 0 {
        Ok(initial_scan())
    } else {
        match scan_lines(lines, n - 1) {
            Ok(st) => scan_line(st, lines[n - 1]),
            Err(e) => Err(e),
        }
    }
}

/// The first palette index at or after `i` that no line set.
pub open spec fn first_missing(palette: Seq<Option<Rgb>>, i: int) -> Option<int>
    decreases palette.len() - i,
{
    if i >= palette.len() || i < 0 {
        None
    } else if palette[i] is None {
        Some(i)
    } else {
        first_missing(palette, i + 1)
    }
}

/// The spec-level value of a [`ParsedTheme`].
pub struct ParsedThemeView {
    pub palette: Seq<Rgb>,
    pub background: Rgb,
    pub foreground: Rgb,
}

/// A theme file's colors: every line is read in order, then every palette
/// entry, the background and the foreground must have been set (the first
/// missing one is reported).
pub open spec fn spec_parse_theme_file(content: Seq<char>) -> Result<ParsedThemeView, ThemeFileErrorView> {
    let lines = split_char(content, '\n');
    match scan_lines(lines, lines.len() as int) {
        Err(e) => Err(e),
        Ok(st) => match first_missing(st.palette, 0) {
            Some(i) => Err(ThemeFileErrorView::MissingPalette { index: i }),
            None => match (st.background, st.foreground) {
                (None, _) => Err(ThemeFileErrorView::MissingBackground),
                (Some(_), None) => Err(ThemeFileErrorView::MissingForeground),
                (Some(bg), Some(fg)) => Ok(
                    ParsedThemeView {
                        palette: st.palette.map_values(|c: Option<Rgb>| c->0),
                        background: bg,
                        foreground: fg,
                    },
                ),
            },
        },
    }
}

/// The spec-level value of a parse result.
pub open spec fn parse_result_view(r: Result<ParsedTheme, ThemeFileError>) -> Result<
    ParsedThemeView,
    ThemeFileErrorView,
> {
    match r {
        Ok(t) => Ok(ParsedThemeView { palette: t.palette@, background: t.background, foreground: t.foreground }),
        Err(e) => Err(e@),
    }
}

/// Whether two character vectors are equal.
fn chars_equal(a: &Vec<char>, b: &Vec<char>) -> (r: bool)
    ensures
        r == (a@ == b@),
{
    if a.len() != b.len() {
        return false;
    }
    let mut i: usize = 0;
    while i < a.len()
        invariant
            a@.len() == b@.len(),
            0 <= i <= a@.len(),
            forall|k: int| 0 <= k < i ==> a@[k] == b@[k],
        decreases a@.len() - i,
    {
        if a[i] != b[i] {
            return false;
        }
        i = i + 1;
    }
    assert(a@ =~= b@);
    true
}

/// The scan state while reading a file.
struct Scanner {
    palette: Vec<Option<Rgb>>,
    background: Option<Rgb>,
    foreground: Option<Rgb>,
}

impl Scanner {
    spec fn view(&self) -> ScanState {
        ScanState { palette: self.palette@, background: self.background, foreground: self.foreground }
    }

    /// Reads one line.
    fn scan(&mut self, line: &Vec<char>) -> (r: Result<(), ThemeFileError>)
        requires
            old(self).palette@.len() == ANSI_COLORS,
        ensures
            final(self).palette@.len() == ANSI_COLORS,
            match scan_line(old(self).view(), line@) {
                Ok(st) => r is Ok && final(self).view() == st,
                Err(e) => r matches Err(err) && err@ == e,
            },
    {
        let parts = split_line_parts(line);
        let ghost pv = parts@.map_values(|p: Vec<char>| p@);
        if parts.len() == 0 {
            return Ok(());
        }
        assert(pv[0] == parts@[0]@);
        let palette_word = vec!['p', 'a', 'l', 'e', 't', 't', 'e'];
        let background_word = vec!['b', 'a', 'c', 'k', 'g', 'r', 'o', 'u', 'n', 'd'];
        let foreground_word = vec!['f', 'o', 'r', 'e', 'g', 'r', 'o', 'u', 'n', 'd'];
        assert(palette_word@ =~= palette_key());
        assert(background_word@ =~= background_key());
        assert(foreground_word@ =~= foreground_key());
        if chars_equal(&parts[0], &palette_word) && parts.len() == 3 {
            assert(pv[1] == parts@[1]@ && pv[2] == parts@[2]@);
            match parse_usize(&parts[1]) {
                None => {
                    let mut text = line.clone();
                    if text.len() > 0 && text[text.len() - 1] == '\r' {
                        text.pop();
                    }
                    return Err(ThemeFileError::InvalidPaletteIndex { line: string_from_chars(&text) });
                },
                Some(index) => {
                    if index < ANSI_COLORS {
                        match parse_hex_chars(&parts[2]) {
                            None => {
                                return Err(ThemeFileError::InvalidHex { value: string_from_chars(&parts[2]) });
                            },
                            Some(rgb) => {
                                self.palette.set(index, Some(rgb));
                            },
                        }
                    }
                },
            }
        } else if chars_equal(&parts[0], &background_word) && parts.len() == 2 {
            assert(pv[1] == parts@[1]@);
            match parse_hex_chars(&parts[1]) {
                None => {
                    return Err(ThemeFileError::InvalidHex { value: string_from_chars(&parts[1]) });
                },
                Some(rgb) => {
                    self.background = Some(rgb);
                },
            }
        } else if chars_equal(&parts[0], &foreground_word) && parts.len() == 2 {
            assert(pv[1] == parts@[1]@);
            match parse_hex_chars(&parts[1]) {
                None => {
                    return Err(ThemeFileError::InvalidHex { value: string_from_chars(&parts[1]) });
                },
                Some(rgb) => {
                    self.foreground = Some(rgb);
                },
            }
        }
        Ok(())
    }
}

/// Once a scan has failed, reading more lines keeps that failure.
proof fn lemma_scan_error_sticks(lines: Seq<Seq<char>>, n: int, m: int)
    requires
        0 <= n <= m,
        scan_lines(lines, n) is Err,
    ensures
        scan_lines(lines, m) == scan_lines(lines, n),
    decreases m - n,
{
    if m > n {
        lemma_scan_error_sticks(lines, n, m - 1);
    }
}

/// Reads a Ghostty theme file: the 16 ANSI palette colors, background and
/// foreground. An error says what the file lacks or where it is malformed;
/// the generator stops on it, naming the file.
pub fn read_theme_file(content: &str) -> (parsed: Result<ParsedTheme, ThemeFileError>)
    ensures
        parse_result_view(parsed) == spec_parse_theme_file(content@),
{
    let chars = chars_of(content);
    let lines = split_chars(&chars, '\n');
    let ghost lv = lines@.map_values(|p: Vec<char>| p@);
    let mut palette: Vec<Option<Rgb>> = Vec::new();
    let mut k: usize = 0;
    while k < ANSI_COLORS
        invariant
            0 <= k <= ANSI_COLORS,
            palette@ == Seq::new(k as nat, |i: int| None::<Rgb>),
        decreases ANSI_COLORS - k,
    {
        palette.push(None);
        assert(palette@ =~= Seq::new((k + 1) as nat, |i: int| None::<Rgb>));
        k = k + 1;
    }
    let mut scanner = Scanner { palette, background: None, foreground: None };
    assert(scanner.view() == initial_scan()) by {
        assert(scanner.palette@ =~= initial_scan().palette);
    }
    let mut i: usize = 0;
    while i < lines.len()
        invariant
            0 <= i <= lines@.len(),
            lv == lines@.map_values(|p: Vec<char>| p@),
            lv == split_char(content@, '\n'),
            scanner.palette@.len() == ANSI_COLORS,
            scan_lines(lv, i as int) == Ok::<ScanState, ThemeFileErrorView>(scanner.view()),
        decreases lines@.len() - i,
    {
        assert(lv[i as int] == lines@[i as int]@);
        match scanner.scan(&lines[i]) {
            Ok(()) => {},
            Err(e) => {
                proof {
                    lemma_scan_error_sticks(lv, i + 1, lv.len() as int);
                }
                return Err(e);
            },
        }
        i = i + 1;
    }
    let mut colors: Vec<Rgb> = Vec::new();
    let mut j: usize = 0;
    while j < ANSI_COLORS
        invariant
            0 <= j <= ANSI_COLORS,
            lv == split_char(content@, '\n'),
            scan_lines(lv, lv.len() as int) == Ok::<ScanState, ThemeFileErrorView>(scanner.view()),
            scanner.palette@.len() == ANSI_COLORS,
            first_missing(scanner.palette@, 0) == first_missing(scanner.palette@, j as int),
            colors@ == scanner.palette@.take(j as int).map_values(|c: Option<Rgb>| c->0),
        decreases ANSI_COLORS - j,
    {
        match scanner.palette[j] {
            None => {
                return Err(ThemeFileError::MissingPalette { index: j });
            },
            Some(rgb) => {
                colors.push(rgb);
                assert(colors@ =~= scanner.palette@.take(j + 1).map_values(|c: Option<Rgb>| c->0));
            },
        }
        j = j + 1;
    }
    assert(scanner.palette@.take(ANSI_COLORS as int) =~= scanner.palette@);
    let background = match scanner.background {
        Some(bg) => bg,
        None => {
            return Err(ThemeFileError::MissingBackground);
        },
    };
    let foreground = match scanner.foreground {
        Some(fg) => fg,
        None => {
            return Err(ThemeFileError::MissingForeground);
        },
    };
    Ok(ParsedTheme { palette: colors, background, foreground })
}

/// The colors of a complete, well-formed theme file (see
/// [`read_theme_file`] for the files that are not): for each palette index,
/// the background and the foreground, the color of the last line that sets
/// it.
pub fn parse_theme_file(content: &str) -> (parsed: ParsedTheme)
    requires
        spec_parse_theme_file(content@) is Ok,
    ensures
        Ok::<ParsedThemeView, ThemeFileErrorView>(
            ParsedThemeView { palette: parsed.palette@, background: parsed.background, foreground: parsed.foreground },
        ) == spec_parse_theme_file(content@),
{
    match read_theme_file(content) {
        Ok(parsed) => parsed,
        Err(e) => {
            assert(parse_result_view(Err::<ParsedTheme, ThemeFileError>(e)) is Err);
            assert(false);
            ParsedTheme { palette: Vec::new(), background: (0, 0, 0), foreground: (0, 0, 0) }
        },
    }
}


// ---------------------------------------------------------------------------
// Slugs
// ---------------------------------------------------------------------------

/// `s` with every `+` spelled out as `-plus`.
pub open spec fn spell_plus(s: Seq<char>) -> Seq<char>
    decreases s.len(),
{
    if s.len() == 0 {
        Seq::empty()
    } else {
        let rest = spell_plus(s.drop_last());
        if s.last() == '+' {
            rest + seq!['-', 'p', 'l', 'u', 's']
        } else {
            rest.push(s.last())
        }
    }
}

/// Characters a slug keeps as they are.
pub open spec fn is_slug_char(c: char) -> bool {
    ('a' <= c && c <= 'z') || ('0' <= c && c <= '9')
}

/// `s` with every run of other characters turned into a single `-`, and
/// whether it ends in such a run.
pub open spec fn collapse_runs(s: Seq<char>) -> (Seq<char>, bool)
    decreases s.len(),
{
    if s.len() == 0 {
        (Seq::empty(), false)
    } else {
        let rest = collapse_runs(s.drop_last());
        let c = s.last();
        if is_slug_char(c) {
            (rest.0.push(c), false)
        } else if !rest.1 {
            (rest.0.push('-'), true)
        } else {
            (rest.0, true)
        }
    }
}

/// `s` without leading dashes.
pub open spec fn trim_start_dashes(s: Seq<char>) -> Seq<char>
    decreases s.len(),
{
    if s.len() > 0 && s[0] == '-' {
        trim_start_dashes(s.drop_first())
    } else {
        s
    }
}

/// `s` without trailing dashes.
pub open spec fn trim_end_dashes(s: Seq<char>) -> Seq<char>
    decreases s.len(),
{
    if s.len() > 0 && s.last() == '-' {
        trim_end_dashes(s.drop_last())
    } else {
        s
    }
}

/// The slug of a theme name: lowercased; `+` becomes `-plus`; every run of
/// characters other than `a-z0-9` becomes a single `-`; leading and trailing
/// dashes are dropped.
pub open spec fn spec_slugify(name: Seq<char>) -> Seq<char> {
    trim_end_dashes(
        trim_start_dashes(collapse_runs(spell_plus(crate::text::spec_to_lowercase(name))).0),
    )
}

/// A slug only holds `a-z`, `0-9` and inner dashes.
pub proof fn lemma_slug_alphabet(name: Seq<char>)
    ensures
        forall|k: int|
            0 <= k < spec_slugify(name).len() ==> is_slug_char(#[trigger] spec_slugify(name)[k])
                || spec_slugify(name)[k] == '-',
        spec_slugify(name).len() > 0 ==> spec_slugify(name)[0] != '-' && spec_slugify(name).last()
            != '-',
{
    let c = collapse_runs(spell_plus(crate::text::spec_to_lowercase(name))).0;
    lemma_collapse_alphabet(spell_plus(crate::text::spec_to_lowercase(name)));
    lemma_trim_dashes_alphabet(c);
}

proof fn lemma_collapse_alphabet(s: Seq<char>)
    ensures
        forall|k: int|
            0 <= k < collapse_runs(s).0.len() ==> is_slug_char(#[trigger] collapse_runs(s).0[k])
                || collapse_runs(s).0[k] == '-',
    decreases s.len(),
{
    if s.len() > 0 {
        lemma_collapse_alphabet(s.drop_last());
        let rest = collapse_runs(s.drop_last());
        assert forall|k: int|
            0 <= k < collapse_runs(s).0.len() implies is_slug_char(#[trigger] collapse_runs(s).0[k])
                || collapse_runs(s).0[k] == '-' by {
            if k < rest.0.len() {
                assert(collapse_runs(s).0[k] == rest.0[k]);
            }
        }
    }
}

proof fn lemma_trim_dashes_alphabet(s: Seq<char>)
    requires
        forall|k: int| 0 <= k < s.len() ==> is_slug_char(#[trigger] s[k]) || s[k] == '-',
    ensures
        forall|k: int|
            0 <= k < trim_end_dashes(trim_start_dashes(s)).len() ==> is_slug_char(
                #[trigger] trim_end_dashes(trim_start_dashes(s))[k],
            ) || trim_end_dashes(trim_start_dashes(s))[k] == '-',
        trim_end_dashes(trim_start_dashes(s)).len() > 0 ==> trim_end_dashes(trim_start_dashes(s))[0]
            != '-' && trim_end_dashes(trim_start_dashes(s)).last() != '-',
{
    lemma_trim_start_dashes(s);
    lemma_trim_end_dashes(trim_start_dashes(s));
}

proof fn lemma_trim_start_dashes(s: Seq<char>)
    ensures
        exists|a: int| 0 <= a <= s.len() && trim_start_dashes(s) == s.subrange(a, s.len() as int),
        trim_start_dashes(s).len() > 0 ==> trim_start_dashes(s)[0] != '-',
    decreases s.len(),
{
    if s.len() > 0 && s[0] == '-' {
        lemma_trim_start_dashes(s.drop_first());
        let a = choose|a: int|
            0 <= a <= s.drop_first().len() && trim_start_dashes(s.drop_first()) == s.drop_first().subrange(
                a,
                s.drop_first().len() as int,
            );
        assert(s.drop_first().subrange(a, s.drop_first().len() as int) =~= s.subrange(
            a + 1,
            s.len() as int,
        ));
    } else {
        assert(s.subrange(0, s.len() as int) =~= s);
    }
}

proof fn lemma_trim_end_dashes(s: Seq<char>)
    ensures
        exists|b: int| 0 <= b <= s.len() && trim_end_dashes(s) == s.subrange(0, b),
        trim_end_dashes(s).len() > 0 ==> trim_end_dashes(s).last() != '-',
        trim_end_dashes(s).len() > 0 && s.len() > 0 ==> trim_end_dashes(s)[0] == s[0],
    decreases s.len(),
{
    if s.len() > 0 && s.last() == '-' {
        lemma_trim_end_dashes(s.drop_last());
        let b = choose|b: int|
            0 <= b <= s.drop_last().len() && trim_end_dashes(s.drop_last()) == s.drop_last().subrange(
                0,
                b,
            );
        assert(s.drop_last().subrange(0, b) =~= s.subrange(0, b));
    } else {
        assert(s.subrange(0, s.len() as int) =~= s);
    }
}

/// No two dashes stand next to each other in `s`.
pub open spec fn no_double_dash(s: Seq<char>) -> bool {
    forall|k: int| 0 <= k < s.len() - 1 ==> !(#[trigger] s[k] == '-' && s[k + 1] == '-')
}

proof fn lemma_collapse_no_double_dash(s: Seq<char>)
    ensures
        no_double_dash(collapse_runs(s).0),
        collapse_runs(s).1 <==> (collapse_runs(s).0.len() > 0 && collapse_runs(s).0.last() == '-'),
    decreases s.len(),
{
    if s.len() > 0 {
        lemma_collapse_no_double_dash(s.drop_last());
        let rest = collapse_runs(s.drop_last());
        let r = collapse_runs(s);
        assert forall|k: int| 0 <= k < r.0.len() - 1 implies !(#[trigger] r.0[k] == '-' && r.0[k + 1] == '-') by {
            if k + 1 < rest.0.len() {
                assert(r.0[k] == rest.0[k] && r.0[k + 1] == rest.0[k + 1]);
            } else if r.0.len() > rest.0.len() {
                assert(r.0[k] == rest.0.last());
            }
        }
    }
}

proof fn lemma_subrange_no_double_dash(s: Seq<char>, a: int, b: int)
    requires
        no_double_dash(s),
        0 <= a <= b <= s.len(),
    ensures
        no_double_dash(s.subrange(a, b)),
{
    assert forall|k: int| 0 <= k < s.subrange(a, b).len() - 1 implies !(#[trigger] s.subrange(a, b)[k] == '-'
        && s.subrange(a, b)[k + 1] == '-') by {
        assert(s.subrange(a, b)[k] == s[a + k] && s.subrange(a, b)[k + 1] == s[a + k + 1]);
    }
}

/// A slug never holds two dashes in a row.
pub proof fn lemma_slug_has_no_double_dash(name: Seq<char>)
    ensures
        no_double_dash(spec_slugify(name)),
{
    let c = collapse_runs(spell_plus(crate::text::spec_to_lowercase(name))).0;
    lemma_collapse_no_double_dash(spell_plus(crate::text::spec_to_lowercase(name)));
    lemma_trim_start_dashes(c);
    let a = choose|a: int| 0 <= a <= c.len() && trim_start_dashes(c) == c.subrange(a, c.len() as int);
    lemma_subrange_no_double_dash(c, a, c.len() as int);
    let t = trim_start_dashes(c);
    lemma_trim_end_dashes(t);
    let b = choose|b: int| 0 <= b <= t.len() && trim_end_dashes(t) == t.subrange(0, b);
    lemma_subrange_no_double_dash(t, 0, b);
}

/// Characters of a slug: `a-z`, `0-9` and `-`.
pub open spec fn slug_alphabet(s: Seq<char>) -> bool {
    forall|k: int| 0 <= k < s.len() ==> is_slug_char(#[trigger] s[k]) || s[k] == '-'
}

proof fn lemma_spell_plus_identity(s: Seq<char>)
    requires
        slug_alphabet(s),
    ensures
        spell_plus(s) == s,
    decreases s.len(),
{
    if s.len() > 0 {
        assert(slug_alphabet(s.drop_last())) by {
            assert forall|k: int| 0 <= k < s.drop_last().len() implies is_slug_char(#[trigger] s.drop_last()[k])
                || s.drop_last()[k] == '-' by {
                assert(s.drop_last()[k] == s[k]);
            }
        }
        lemma_spell_plus_identity(s.drop_last());
        assert(s.last() == s[s.len() - 1]);
        assert(s.drop_last().push(s.last()) =~= s);
    }
}

proof fn lemma_collapse_identity(s: Seq<char>)
    requires
        slug_alphabet(s),
        no_double_dash(s),
    ensures
        collapse_runs(s).0 == s,
        collapse_runs(s).1 <==> (s.len() > 0 && s.last() == '-'),
    decreases s.len(),
{
    if s.len() > 0 {
        let d = s.drop_last();
        assert(slug_alphabet(d)) by {
            assert forall|k: int| 0 <= k < d.len() implies is_slug_char(#[trigger] d[k]) || d[k] == '-' by {
                assert(d[k] == s[k]);
            }
        }
        assert(no_double_dash(d)) by {
            assert forall|k: int| 0 <= k < d.len() - 1 implies !(#[trigger] d[k] == '-' && d[k + 1] == '-') by {
                assert(d[k] == s[k] && d[k + 1] == s[k + 1]);
            }
        }
        lemma_collapse_identity(d);
        assert(s.last() == s[s.len() - 1]);
        if d.len() > 0 {
            assert(d.last() == s[s.len() - 2]);
        }
        assert(d.push(s.last()) =~= s);
    }
}

/// Slugs are fixed points of slugify: the slug of a slug is itself, given
/// what `str::to_lowercase` does to ASCII text (it lowercases `A`-`Z` and
/// keeps everything else; the wrapper of `str::to_lowercase` states this for
/// every ASCII string it is called on).
pub proof fn lemma_slugify_is_idempotent(name: Seq<char>)
    requires
        crate::text::spec_to_lowercase(spec_slugify(name)) == spec_slugify(name).map_values(
            |c: char| crate::text::ascii_lowercase(c),
        ),
    ensures
        spec_slugify(spec_slugify(name)) == spec_slugify(name),
        slug_alphabet(spec_slugify(name)),
        no_double_dash(spec_slugify(name)),
{
    let r = spec_slugify(name);
    lemma_slug_alphabet(name);
    lemma_slug_has_no_double_dash(name);
    assert(r.map_values(|c: char| crate::text::ascii_lowercase(c)) =~= r) by {
        assert forall|k: int| 0 <= k < r.len() implies r.map_values(|c: char| crate::text::ascii_lowercase(c))[k]
            == #[trigger] r[k] by {
            assert(is_slug_char(r[k]) || r[k] == '-');
        }
    }
    lemma_spell_plus_identity(r);
    lemma_collapse_identity(r);
    if r.len() > 0 {
        assert(r[0] != '-');
        assert(trim_start_dashes(r) == r);
        assert(trim_end_dashes(r) == r);
    } else {
        assert(trim_start_dashes(r) == r);
        assert(trim_end_dashes(r) == r);
    }
}

/// The slug a generated theme is named by.
#[verifier::spinoff_prover]
#[verifier::rlimit(40)]
pub fn slugify(name: &str) -> (slug: String)
    ensures
        slug@ == spec_slugify(name@),
{
    let lowered = crate::text::to_lowercase(name);
    let chars = chars_of(lowered.as_str());
    let ghost lower = chars@;
    // `+` -> `-plus`
    let mut spelled: Vec<char> = Vec::new();
    let mut i: usize = 0;
    while i < chars.len()
        invariant
            0 <= i <= chars@.len(),
            spelled@ == spell_plus(chars@.take(i as int)),
        decreases chars@.len() - i,
    {
        let c = chars[i];
        assert(chars@.take(i + 1).drop_last() =~= chars@.take(i as int));
        assert(chars@.take(i + 1).last() == c);
        if c == '+' {
            let ghost before = spelled@;
            spelled.push('-');
            spelled.push('p');
            spelled.push('l');
            spelled.push('u');
            spelled.push('s');
            assert(spelled@ =~= before + seq!['-', 'p', 'l', 'u', 's']);
        } else {
            spelled.push(c);
        }
        i = i + 1;
    }
    assert(chars@.take(chars@.len() as int) =~= chars@);
    // runs of other characters -> one `-`
    let mut collapsed: Vec<char> = Vec::new();
    let mut last_dash = false;
    let mut j: usize = 0;
    while j < spelled.len()
        invariant
            0 <= j <= spelled@.len(),
            (collapsed@, last_dash) == collapse_runs(spelled@.take(j as int)),
        decreases spelled@.len() - j,
    {
        let c = spelled[j];
        assert(spelled@.take(j + 1).drop_last() =~= spelled@.take(j as int));
        assert(spelled@.take(j + 1).last() == c);
        if ('a' <= c && c <= 'z') || ('0' <= c && c <= '9') {
            collapsed.push(c);
            last_dash = false;
        } else if !last_dash {
            collapsed.push('-');
            last_dash = true;
        }
        j = j + 1;
    }
    assert(spelled@.take(spelled@.len() as int) =~= spelled@);
    // trim dashes
    assert(collapsed@.subrange(0, collapsed@.len() as int) =~= collapsed@);
    let mut a: usize = 0;
    while a < collapsed.len() && collapsed[a] == '-'
        invariant
            0 <= a <= collapsed@.len(),
            trim_start_dashes(collapsed@) == trim_start_dashes(
                collapsed@.subrange(a as int, collapsed@.len() as int),
            ),
        decreases collapsed@.len() - a,
    {
        assert(collapsed@.subrange(a as int, collapsed@.len() as int).drop_first() =~= collapsed@.subrange(
            a + 1,
            collapsed@.len() as int,
        ));
        a = a + 1;
    }
    proof {
        if a == 0 {
            assert(collapsed@.subrange(0, collapsed@.len() as int) =~= collapsed@);
        }
    }
    let ghost started = collapsed@.subrange(a as int, collapsed@.len() as int);
    assert(trim_start_dashes(started) == started);
    let mut b: usize = collapsed.len();
    while b > a && collapsed[b - 1] == '-'
        invariant
            a <= b <= collapsed@.len(),
            started == collapsed@.subrange(a as int, collapsed@.len() as int),
            trim_end_dashes(started) == trim_end_dashes(collapsed@.subrange(a as int, b as int)),
        decreases b - a,
    {
        assert(collapsed@.subrange(a as int, b as int).drop_last() =~= collapsed@.subrange(
            a as int,
            b - 1,
        ));
        b = b - 1;
    }
    let mut out: Vec<char> = Vec::new();
    let mut k: usize = a;
    while k < b
        invariant
            a <= k <= b <= collapsed@.len(),
            out@ == collapsed@.subrange(a as int, k as int),
        decreases b - k,
    {
        out.push(collapsed[k]);
        assert(collapsed@.subrange(a as int, k + 1) =~= collapsed@.subrange(a as int, k as int).push(
            collapsed@[k as int],
        ));
        k = k + 1;
    }
    string_from_chars(&out)
}


/// The curated themes' slugs; generated themes never take these names.
pub open spec fn spec_curated_theme_names() -> Seq<Seq<char>> {
    seq![
        "catppuccin"@,
        "catppuccin-latte"@,
        "terminal"@,
        "tokyo-night"@,
        "tokyo-night-day"@,
        "dracula"@,
        "nord"@,
        "gruvbox"@,
        "gruvbox-light"@,
        "one-dark"@,
        "one-light"@,
        "solarized"@,
        "solarized-light"@,
        "kanagawa"@,
        "kanagawa-lotus"@,
        "rose-pine"@,
        "rose-pine-dawn"@,
        "vesper"@,
    ]
}

/// The curated themes' slugs.
pub fn curated_theme_names() -> (names: Vec<String>)
    ensures
        crate::themes::strings_view(names@) == spec_curated_theme_names(),
{
    let names = vec![
        "catppuccin".to_owned(),
        "catppuccin-latte".to_owned(),
        "terminal".to_owned(),
        "tokyo-night".to_owned(),
        "tokyo-night-day".to_owned(),
        "dracula".to_owned(),
        "nord".to_owned(),
        "gruvbox".to_owned(),
        "gruvbox-light".to_owned(),
        "one-dark".to_owned(),
        "one-light".to_owned(),
        "solarized".to_owned(),
        "solarized-light".to_owned(),
        "kanagawa".to_owned(),
        "kanagawa-lotus".to_owned(),
        "rose-pine".to_owned(),
        "rose-pine-dawn".to_owned(),
        "vesper".to_owned(),
    ];
    assert(crate::themes::strings_view(names@) =~= spec_curated_theme_names());
    names
}

/// The decimal digit character for `d < 10`.
pub open spec fn digit_char(d: int) -> char {
    if d == 0 {
        '0'
    } else if d == 1 {
        '1'
    } else if d == 2 {
        '2'
    } else if d == 3 {
        '3'
    } else if d == 4 {
        '4'
    } else if d == 5 {
        '5'
    } else if d == 6 {
        '6'
    } else if d == 7 {
        '7'
    } else if d == 8 {
        '8'
    } else {
        '9'
    }
}

/// The decimal representation of `n`.
pub open spec fn decimal_string(n: nat) -> Seq<char>
    decreases n,
{
    if n < 10 {
        seq![digit_char(n as int)]
    } else {
        decimal_string(n / 10).push(digit_char((n % 10) as int))
    }
}

fn digit_to_char(d: usize) -> (c: char)
    requires
        d < 10,
    ensures
        c == digit_char(d as int),
{
    if d == 0 {
        '0'
    } else if d == 1 {
        '1'
    } else if d == 2 {
        '2'
    } else if d == 3 {
        '3'
    } else if d == 4 {
        '4'
    } else if d == 5 {
        '5'
    } else if d == 6 {
        '6'
    } else if d == 7 {
        '7'
    } else if d == 8 {
        '8'
    } else {
        '9'
    }
}

/// The decimal representation of `n`.
pub fn format_decimal(n: usize) -> (digits: Vec<char>)
    ensures
        digits@ == decimal_string(n as nat),
    decreases n,
{
    if n < 10 {
        let digits = vec![digit_to_char(n)];
        assert(digits@ =~= seq![digit_char(n as int)]);
        digits
    } else {
        let mut digits = format_decimal(n / 10);
        digits.push(digit_to_char(n % 10));
        digits
    }
}

/// Number of entries among the first `upto` that equal `s`.
pub open spec fn count_equal(names: Seq<Seq<char>>, s: Seq<char>, upto: int) -> nat
    decreases upto,
{
    if upto <= 0 {
        0
    } else {
        count_equal(names, s, upto - 1) + if names[upto - 1] == s {
            1nat
        } else {
            0nat
        }
    }
}

/// The name of a generated theme: its raw slug the first time it occurs,
/// and `slug-N` for its `N`th occurrence.
pub open spec fn numbered_slug(raw: Seq<char>, occurrence: nat) -> Seq<char> {
    if occurrence == 1 {
        raw
    } else {
        raw + seq!['-'] + decimal_string(occurrence)
    }
}

/// The name each theme file gets: `None` for a file whose slug collides with
/// a curated theme (the curated version wins); otherwise its slug, numbered
/// by how often that slug has occurred so far.
pub open spec fn spec_assign_theme_slugs(raw: Seq<Seq<char>>, curated: Seq<Seq<char>>) -> Seq<
    Option<Seq<char>>,
> {
    Seq::new(
        raw.len(),
        |k: int|
            if curated.contains(raw[k]) {
                None
            } else {
                Some(numbered_slug(raw[k], count_equal(raw, raw[k], k + 1)))
            },
    )
}

proof fn lemma_decimal_string_ends_in_a_digit(n: nat)
    ensures
        decimal_string(n).len() > 0,
        ('0' <= decimal_string(n).last() <= '9'),
    decreases n,
{
    if n >= 10 {
        lemma_decimal_string_ends_in_a_digit(n / 10);
    }
}

/// A generated theme never takes a curated theme's name: curated slugs are
/// excluded outright, and a numbered slug ends in a digit while every curated
/// name ends in a letter.
pub proof fn lemma_generated_names_avoid_curated(raw: Seq<Seq<char>>, k: int)
    requires
        0 <= k < raw.len(),
    ensures
        spec_assign_theme_slugs(raw, spec_curated_theme_names())[k] matches Some(name)
            ==> !spec_curated_theme_names().contains(name),
{
    let curated = spec_curated_theme_names();
    let named = spec_assign_theme_slugs(raw, curated);
    if let Some(name) = named[k] {
        let n = count_equal(raw, raw[k], k + 1);
        if n != 1 {
            lemma_decimal_string_ends_in_a_digit(n);
            assert(name.last() == decimal_string(n).last());
            assert forall|i: int| 0 <= i < curated.len() implies #[trigger] curated[i] != name by {
                reveal_strlit("catppuccin");
                reveal_strlit("catppuccin-latte");
                reveal_strlit("terminal");
                reveal_strlit("tokyo-night");
                reveal_strlit("tokyo-night-day");
                reveal_strlit("dracula");
                reveal_strlit("nord");
                reveal_strlit("gruvbox");
                reveal_strlit("gruvbox-light");
                reveal_strlit("one-dark");
                reveal_strlit("one-light");
                reveal_strlit("solarized");
                reveal_strlit("solarized-light");
                reveal_strlit("kanagawa");
                reveal_strlit("kanagawa-lotus");
                reveal_strlit("rose-pine");
                reveal_strlit("rose-pine-dawn");
                reveal_strlit("vesper");
                assert(curated[i].len() > 0);
                assert(!('0' <= curated[i].last() <= '9'));
            }
        }
    }
}

/// The spec-level value of optional names.
pub open spec fn opt_strings_view(v: Seq<Option<String>>) -> Seq<Option<Seq<char>>> {
    v.map_values(|o: Option<String>| crate::shell::opt_string_view(o))
}

/// Whether `names` holds a name with the characters of `s`.
fn contains_name(names: &Vec<String>, s: &Vec<char>) -> (r: bool)
    ensures
        r == crate::themes::strings_view(names@).contains(s@),
{
    let ghost all = crate::themes::strings_view(names@);
    let mut i: usize = 0;
    while i < names.len()
        invariant
            0 <= i <= names@.len(),
            all == crate::themes::strings_view(names@),
            forall|k: int| 0 <= k < i ==> all[k] != s@,
        decreases names@.len() - i,
    {
        let candidate = chars_of(names[i].as_str());
        assert(all[i as int] == names@[i as int]@);
        if chars_equal(&candidate, s) {
            return true;
        }
        i = i + 1;
    }
    false
}

/// Names the generated themes: the raw slugs in file order, with the
/// curated slugs excluded and repeated slugs numbered.
pub fn assign_theme_slugs(raw: &Vec<String>, curated: &Vec<String>) -> (named: Vec<Option<String>>)
    ensures
        opt_strings_view(named@) == spec_assign_theme_slugs(
            crate::themes::strings_view(raw@),
            crate::themes::strings_view(curated@),
        ),
{
    let ghost rv = crate::themes::strings_view(raw@);
    let ghost cv = crate::themes::strings_view(curated@);
    let mut named: Vec<Option<String>> = Vec::new();
    let n = raw.len();
    let mut k: usize = 0;
    while k < raw.len()
        invariant
            n == raw@.len(),
            0 <= k <= raw@.len(),
            rv == crate::themes::strings_view(raw@),
            cv == crate::themes::strings_view(curated@),
            opt_strings_view(named@) == spec_assign_theme_slugs(rv, cv).take(k as int),
        decreases raw@.len() - k,
    {
        let slug = chars_of(raw[k].as_str());
        assert(rv[k as int] == slug@);
        let entry = if contains_name(curated, &slug) {
            None
        } else {
            let mut count: usize = 0;
            let mut j: usize = 0;
            while j <= k
                invariant
                    0 <= j <= k + 1,
                    n == raw@.len(),
                    k < raw@.len(),
                    rv == crate::themes::strings_view(raw@),
                    slug@ == rv[k as int],
                    count == count_equal(rv, slug@, j as int),
                    count <= j,
                decreases k + 1 - j,
            {
                let other = chars_of(raw[j].as_str());
                assert(rv[j as int] == other@);
                if chars_equal(&other, &slug) {
                    count = count + 1;
                }
                j = j + 1;
            }
            if count == 1 {
                Some(raw[k].clone())
            } else {
                let mut name = slug;
                name.push('-');
                let digits = format_decimal(count);
                let mut d: usize = 0;
                let ghost base = name@;
                while d < digits.len()
                    invariant
                        0 <= d <= digits@.len(),
                        name@ == base + digits@.take(d as int),
                    decreases digits@.len() - d,
                {
                    name.push(digits[d]);
                    assert(base + digits@.take(d + 1) =~= (base + digits@.take(d as int)).push(digits@[d as int]));
                    d = d + 1;
                }
                assert(digits@.take(digits@.len() as int) =~= digits@);
                assert(name@ =~= rv[k as int] + seq!['-'] + decimal_string(count as nat));
                Some(string_from_chars(&name))
            }
        };
        let ghost ev = crate::shell::opt_string_view(entry);
        assert(ev == spec_assign_theme_slugs(rv, cv)[k as int]);
        let ghost before = named@;
        named.push(entry);
        assert(opt_strings_view(named@) =~= opt_strings_view(before).push(ev));
        assert(opt_strings_view(named@) =~= spec_assign_theme_slugs(rv, cv).take(k + 1));
        k = k + 1;
    }
    assert(spec_assign_theme_slugs(rv, cv).take(raw@.len() as int) =~= spec_assign_theme_slugs(rv, cv));
    named
}

} // verus!
