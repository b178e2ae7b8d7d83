//! The generated theme table: themes ordered by slug, and the Rust source
//! text of their entries.
use vstd::prelude::*;
use crate::text::{chars_of, string_from_chars};

verus! {

broadcast use vstd::seq_lib::group_to_multiset_ensures;

/// A theme derived from a theme file: its slug, whether its background is
/// dark, and its 16 UI tokens packed as `0xRRGGBB`, in palette-token order.
#[derive(Debug)]
pub struct DerivedTheme {
    pub slug: String,
    pub is_dark: bool,
    pub colors: [u32; 16],
}

/// The spec-level value of a [`DerivedTheme`].
pub struct DerivedThemeView {
    pub slug: Seq<char>,
    pub is_dark: bool,
    pub colors: Seq<u32>,
}

impl View for DerivedTheme {
    type V = DerivedThemeView;

    open spec fn view(&self) -> DerivedThemeView {
        DerivedThemeView { slug: self.slug@, is_dark: self.is_dark, colors: self.colors@ }
    }
}

/// The spec-level values of a list of themes.
pub open spec fn themes_view(ts: Seq<DerivedTheme>) -> Seq<DerivedThemeView> {
    ts.map_values(|t: DerivedTheme| t@)
}

// ---------------------------------------------------------------------------
// Ordering by slug
// ---------------------------------------------------------------------------

/// Lexicographic order on character sequences, by code point (the order in
/// which `str` compares its UTF-8 bytes).
pub open spec fn lex_le(a: Seq<char>, b: Seq<char>) -> bool
    decreases a.len(),
{
    if a.len() == 0 {
        true
    } else if b.len() == 0 {
        false
    } else if a[0] != b[0] {
        a[0] < b[0]
    } else {
        lex_le(a.drop_first(), b.drop_first())
    }
}

/// Any two sequences are ordered one way or the other.
pub proof fn lemma_lex_le_total(a: Seq<char>, b: Seq<char>)
    ensures
        lex_le(a, b) || lex_le(b, a),
    decreases a.len(),
{
    if a.len() > 0 && b.len() > 0 {
        if a[0] == b[0] {
            lemma_lex_le_total(a.drop_first(), b.drop_first());
        }
    }
}

/// The order is transitive.
pub proof fn lemma_lex_le_transitive(a: Seq<char>, b: Seq<char>, c: Seq<char>)
    requires
        lex_le(a, b),
        lex_le(b, c),
    ensures
        lex_le(a, c),
    decreases a.len(),
{
    if a.len() > 0 && b.len() > 0 && c.len() > 0 && a[0] == b[0] && b[0] == c[0] {
        lemma_lex_le_transitive(a.drop_first(), b.drop_first(), c.drop_first());
    }
}

/// The order is antisymmetric: sequences ordered both ways are equal.
pub proof fn lemma_lex_le_antisymmetric(a: Seq<char>, b: Seq<char>)
    requires
        lex_le(a, b),
        lex_le(b, a),
    ensures
        a == b,
    decreases a.len(),
{
    if a.len() > 0 && b.len() > 0 {
        lemma_lex_le_antisymmetric(a.drop_first(), b.drop_first());
        assert(a =~= seq![a[0]] + a.drop_first());
        assert(b =~= seq![b[0]] + b.drop_first());
    }
}

/// `a` comes first at position `i`: the two agree before `i`, and there
/// `a`'s character has the smaller code point.
pub open spec fn first_difference_below(a: Seq<char>, b: Seq<char>, i: int) -> bool {
    0 <= i < a.len() && i < b.len() && a.take(i) == b.take(i) && a[i] < b[i]
}

/// Slug order is the lexicographic order of code points (the order of
/// `str`'s own comparison): `a` sorts no later than `b` exactly when `a` is
/// a prefix of `b`, or at the first position where they differ `a`'s
/// character has the smaller code point. So, for instance, every slug that
/// starts with a digit sorts before every slug that starts with a letter.
pub proof fn lemma_lex_le_is_code_point_order(a: Seq<char>, b: Seq<char>)
    ensures
        lex_le(a, b) <==> ((a.len() <= b.len() && b.take(a.len() as int) == a) || exists|i: int|
            #[trigger] first_difference_below(a, b, i)),
    decreases a.len(),
{
    if a.len() == 0 {
        assert(b.take(0) =~= a);
    } else if b.len() == 0 {
        assert forall|i: int| !#[trigger] first_difference_below(a, b, i) by {}
    } else if a[0] != b[0] {
        assert(!(a.len() <= b.len() && b.take(a.len() as int) == a)) by {
            if a.len() <= b.len() && b.take(a.len() as int) == a {
                assert(b.take(a.len() as int)[0] == b[0]);
            }
        }
        assert forall|i: int| #[trigger] first_difference_below(a, b, i) implies i == 0 by {
            if i > 0 {
                assert(a.take(i)[0] == b.take(i)[0]);
            }
        }
        if a[0] < b[0] {
            assert(a.take(0) =~= b.take(0));
            assert(first_difference_below(a, b, 0));
        }
    } else {
        let a1 = a.drop_first();
        let b1 = b.drop_first();
        lemma_lex_le_is_code_point_order(a1, b1);
        if a.len() <= b.len() {
            if b.take(a.len() as int) == a {
                assert(b1.take(a1.len() as int) =~= a1) by {
                    assert forall|k: int| 0 <= k < a1.len() implies b1.take(a1.len() as int)[k] == a1[k] by {
                        assert(b.take(a.len() as int)[k + 1] == a[k + 1]);
                    }
                }
            }
            if b1.take(a1.len() as int) == a1 {
                assert(b.take(a.len() as int) =~= a) by {
                    assert forall|k: int| 0 <= k < a.len() implies b.take(a.len() as int)[k] == a[k] by {
                        if k > 0 {
                            assert(b1.take(a1.len() as int)[k - 1] == a1[k - 1]);
                        }
                    }
                }
            }
        }
        assert forall|i: int| #[trigger] first_difference_below(a, b, i) implies first_difference_below(a1, b1, i - 1) by {
            if i == 0 {
                assert(false);
            }
            assert(a1.take(i - 1) =~= a.take(i).drop_first());
            assert(b1.take(i - 1) =~= b.take(i).drop_first());
        }
        assert forall|i: int| #[trigger] first_difference_below(a1, b1, i) implies first_difference_below(a, b, i + 1) by {
            assert(a.take(i + 1) =~= seq![a[0]] + a1.take(i));
            assert(b.take(i + 1) =~= seq![b[0]] + b1.take(i));
        }
        if exists|i: int| #[trigger] first_difference_below(a, b, i) {
            let i = choose|i: int| #[trigger] first_difference_below(a, b, i);
            assert(first_difference_below(a1, b1, i - 1));
        }
        if exists|i: int| #[trigger] first_difference_below(a1, b1, i) {
            let i = choose|i: int| #[trigger] first_difference_below(a1, b1, i);
            assert(first_difference_below(a, b, i + 1));
        }
    }
}

proof fn lemma_lex_le_skip(a: Seq<char>, b: Seq<char>, i: int)
    requires
        0 <= i <= a.len(),
        i <= b.len(),
        a.take(i) == b.take(i),
    ensures
        lex_le(a, b) == lex_le(a.skip(i), b.skip(i)),
    decreases i,
{
    if i > 0 {
        assert(a[0] == a.take(i)[0]);
        assert(b[0] == b.take(i)[0]);
        assert(a.drop_first().take(i - 1) =~= a.take(i).drop_first());
        assert(b.drop_first().take(i - 1) =~= b.take(i).drop_first());
        lemma_lex_le_skip(a.drop_first(), b.drop_first(), i - 1);
        assert(a.drop_first().skip(i - 1) =~= a.skip(i));
        assert(b.drop_first().skip(i - 1) =~= b.skip(i));
    } else {
        assert(a.skip(0) =~= a);
        assert(b.skip(0) =~= b);
    }
}

/// Whether slug `a` sorts no later than slug `b`.
pub fn slug_le(a: &str, b: &str) -> (r: bool)
    ensures
        r == lex_le(a@, b@),
{
    let x = chars_of(a);
    let y = chars_of(b);
    let mut i: usize = 0;
    while i < x.len() && i < y.len() && x[i] == y[i]
        invariant
            0 <= i <= x@.len(),
            i <= y@.len(),
            x@.take(i as int) == y@.take(i as int),
        decreases x@.len() - i,
    {
        assert(x@.take(i + 1) =~= x@.take(i as int).push(x@[i as int]));
        assert(y@.take(i + 1) =~= y@.take(i as int).push(y@[i as int]));
        i = i + 1;
    }
    proof {
        lemma_lex_le_skip(x@, y@, i as int);
    }
    if i == x.len() {
        true
    } else if i == y.len() {
        false
    } else {
        assert(x@.skip(i as int)[0] == x@[i as int]);
        assert(y@.skip(i as int)[0] == y@[i as int]);
        x[i] < y[i]
    }
}

/// The themes are in ascending slug order.
pub open spec fn sorted_by_slug(ts: Seq<DerivedTheme>) -> bool {
    forall|i: int, j: int| 0 <= i < j < ts.len() ==> lex_le(#[trigger] ts[i].slug@, #[trigger] ts[j].slug@)
}

/// Every sequence is ordered before itself.
pub proof fn lemma_lex_le_reflexive(a: Seq<char>)
    ensures
        lex_le(a, a),
    decreases a.len(),
{
    if a.len() > 0 {
        lemma_lex_le_reflexive(a.drop_first());
    }
}

/// The themes with slug `s`, in order.
pub open spec fn with_slug(ts: Seq<DerivedTheme>, s: Seq<char>) -> Seq<DerivedTheme> {
    ts.filter(|t: DerivedTheme| t.slug@ == s)
}

proof fn lemma_filter_none(ts: Seq<DerivedTheme>, s: Seq<char>)
    requires
        forall|k: int| 0 <= k < ts.len() ==> #[trigger] ts[k].slug@ != s,
    ensures
        with_slug(ts, s) == Seq::<DerivedTheme>::empty(),
    decreases ts.len(),
{
    reveal(Seq::filter);
    if ts.len() > 0 {
        assert forall|k: int| 0 <= k < ts.drop_last().len() implies #[trigger] ts.drop_last()[k].slug@ != s by {
            assert(ts.drop_last()[k] == ts[k]);
        }
        lemma_filter_none(ts.drop_last(), s);
        assert(ts.last() == ts[ts.len() - 1]);
    }
}

/// Orders the themes by slug. The result is ascending by slug and holds,
/// for every slug, exactly the themes with that slug in their original
/// order: the same themes, with equal slugs kept in place (a stable sort).
pub fn sort_themes_by_slug(themes: Vec<DerivedTheme>) -> (sorted: Vec<DerivedTheme>)
    ensures
        sorted_by_slug(sorted@),
        forall|s: Seq<char>| #[trigger] with_slug(sorted@, s) == with_slug(themes@, s),
        sorted@.to_multiset() == themes@.to_multiset(),
        sorted@.len() == themes@.len(),
{
    broadcast use vstd::multiset::group_multiset_axioms;

    let ghost all = themes@;
    let mut remaining = themes;
    let mut out: Vec<DerivedTheme> = Vec::new();
    proof {
        assert forall|s: Seq<char>| #[trigger] with_slug(out@, s) + with_slug(remaining@, s) == with_slug(all, s) by {
            reveal(Seq::filter);
            assert(with_slug(out@, s) =~= Seq::<DerivedTheme>::empty());
            assert(with_slug(out@, s) + with_slug(remaining@, s) =~= with_slug(remaining@, s));
        }
    }
    while remaining.len() > 0
        invariant
            sorted_by_slug(out@),
            out@.to_multiset().add(remaining@.to_multiset()) == all.to_multiset(),
            forall|s: Seq<char>| #[trigger] with_slug(out@, s) + with_slug(remaining@, s) == with_slug(all, s),
        decreases remaining@.len(),
    {
        let ghost before_rem = remaining@;
        let x = remaining.remove(0);
        proof {
            vstd::seq_lib::to_multiset_remove(before_rem, 0);
            assert(before_rem =~= seq![x] + remaining@);
        }
        let mut p: usize = 0;
        while p < out.len() && slug_le(out[p].slug.as_str(), x.slug.as_str())
            invariant
                0 <= p <= out@.len(),
                forall|k: int| 0 <= k < p ==> lex_le(#[trigger] out@[k].slug@, x.slug@),
            decreases out@.len() - p,
        {
            p = p + 1;
        }
        proof {
            if p < out@.len() {
                lemma_lex_le_total(out@[p as int].slug@, x.slug@);
                assert forall|k: int| p <= k < out@.len() implies lex_le(x.slug@, #[trigger] out@[k].slug@) by {
                    if k > p {
                        lemma_lex_le_transitive(x.slug@, out@[p as int].slug@, out@[k].slug@);
                    }
                }
                assert forall|k: int| p <= k < out@.len() implies #[trigger] out@[k].slug@ != x.slug@ by {
                    if out@[k].slug@ == x.slug@ {
                        lemma_lex_le_reflexive(x.slug@);
                        if k > p {
                            assert(lex_le(out@[p as int].slug@, out@[k].slug@));
                        }
                    }
                }
            }
        }
        let ghost before_out = out@;
        let ghost xv = x;
        out.insert(p, x);
        proof {
            vstd::seq_lib::to_multiset_insert(before_out, p as int, xv);
            assert(out@ == before_out.insert(p as int, xv));
            assert forall|i: int, j: int| 0 <= i < j < out@.len() implies lex_le(
                #[trigger] out@[i].slug@,
                #[trigger] out@[j].slug@,
            ) by {
                if j < p {
                    assert(out@[i] == before_out[i] && out@[j] == before_out[j]);
                } else if j == p {
                    assert(out@[i] == before_out[i]);
                } else if i == p {
                    assert(out@[j] == before_out[j - 1]);
                } else if i < p {
                    assert(out@[i] == before_out[i] && out@[j] == before_out[j - 1]);
                    lemma_lex_le_transitive(before_out[i].slug@, xv.slug@, before_out[j - 1].slug@);
                } else {
                    assert(out@[i] == before_out[i - 1] && out@[j] == before_out[j - 1]);
                }
            }
            assert(out@.to_multiset().add(remaining@.to_multiset()) =~= all.to_multiset());
            let head = before_out.take(p as int);
            let tail = before_out.skip(p as int);
            assert(before_out =~= head + tail);
            assert(out@ =~= head + (seq![xv] + tail));
            assert forall|s: Seq<char>| #[trigger] with_slug(out@, s) + with_slug(remaining@, s) == with_slug(all, s) by {
                let pred = |t: DerivedTheme| t.slug@ == s;
                Seq::filter_distributes_over_add(head, tail, pred);
                Seq::filter_distributes_over_add(head, seq![xv] + tail, pred);
                tail.lemma_filter_prepend(xv, pred);
                remaining@.lemma_filter_prepend(xv, pred);
                assert(with_slug(before_out, s) + with_slug(before_rem, s) == with_slug(all, s));
                if xv.slug@ == s {
                    assert forall|k: int| 0 <= k < tail.len() implies #[trigger] tail[k].slug@ != s by {
                        assert(tail[k] == before_out[p + k]);
                    }
                    lemma_filter_none(tail, s);
                    assert(with_slug(out@, s) =~= with_slug(before_out, s) + seq![xv]);
                    assert(with_slug(before_rem, s) =~= seq![xv] + with_slug(remaining@, s));
                    assert(with_slug(out@, s) + with_slug(remaining@, s) =~= with_slug(before_out, s)
                        + with_slug(before_rem, s));
                } else {
                    assert(with_slug(out@, s) =~= with_slug(before_out, s));
                    assert(with_slug(before_rem, s) =~= with_slug(remaining@, s));
                }
            }
        }
    }
    proof {
        assert(remaining@.to_multiset() =~= vstd::multiset::Multiset::empty());
        assert(out@.to_multiset() =~= all.to_multiset());
        vstd::seq_lib::to_multiset_len(out@);
        vstd::seq_lib::to_multiset_len(all);
        assert forall|s: Seq<char>| #[trigger] with_slug(out@, s) == with_slug(all, s) by {
            reveal(Seq::filter);
            assert(with_slug(remaining@, s) =~= Seq::<DerivedTheme>::empty());
            assert(with_slug(out@, s) + with_slug(remaining@, s) =~= with_slug(out@, s));
        }
    }
    out
}

// ---------------------------------------------------------------------------
// Entry text
// ---------------------------------------------------------------------------

/// The lowercase hexadecimal digit for `d < 16`.
pub open spec fn hex_digit_char(d: int) -> char {
    if d < 10 {
        crate::theme_file::digit_char(d)
    } else if d == 10 {
        'a'
    } else if d == 11 {
        'b'
    } else if d == 12 {
        'c'
    } else if d == 13 {
        'd'
    } else if d == 14 {
        'e'
    } else {
        'f'
    }
}

/// The lowercase hexadecimal representation of `n`, without leading zeros.
pub open spec fn hex_string(n: nat) -> Seq<char>
    decreases n,
{
    if n < 16 {
        seq![hex_digit_char(n as int)]
    } else {
        hex_string(n / 16).push(hex_digit_char((n % 16) as int))
    }
}

/// `s` with zeros in front, to at least `width` characters.
pub open spec fn zero_padded(s: Seq<char>, width: nat) -> Seq<char> {
    if s.len() >= width {
        s
    } else {
        Seq::new((width - s.len()) as nat, |_i: int| '0') + s
    }
}

/// A packed color as it stands in the table: `0x` and at least six
/// lowercase hexadecimal digits.
pub open spec fn color_literal(c: u32) -> Seq<char> {
    seq!['0', 'x'] + zero_padded(hex_string(c as nat), 6)
}

/// The colors' literals, separated by `", "`.
pub open spec fn color_list(colors: Seq<u32>) -> Seq<char>
    decreases colors.len(),
{
    if colors.len() == 0 {
        Seq::empty()
    } else if colors.len() == 1 {
        color_literal(colors[0])
    } else {
        color_list(colors.drop_last()) + seq![',', ' '] + color_literal(colors.last())
    }
}

/// `true` or `false`.
pub open spec fn bool_text(b: bool) -> Seq<char> {
    if b {
        "true"@
    } else {
        "false"@
    }
}

/// The table entry of one theme.
pub open spec fn theme_entry_text(t: DerivedThemeView) -> Seq<char> {
    "    GeneratedTheme {\n"@ + "        slug: \""@ + t.slug + "\",\n"@ + "        is_dark: "@
        + bool_text(t.is_dark) + ",\n"@ + "        colors: ["@ + color_list(t.colors) + "],\n"@
        + "    },\n"@
}

/// The table entries of the themes, in order.
pub open spec fn theme_entries_text(ts: Seq<DerivedThemeView>) -> Seq<char>
    decreases ts.len(),
{
    if ts.len() == 0 {
        Seq::empty()
    } else {
        theme_entries_text(ts.drop_last()) + theme_entry_text(ts.last())
    }
}

fn hex_digit_to_char(d: u32) -> (c: char)
    requires
        d < 16,
    ensures
        c == hex_digit_char(d as int),
{
    if d == 0 {
        '0'
    } else if d == 1 {
        '1'
    } else if d == 2 {
        '2'
    } else if d == 3 {
        '3'
    } else if d == 4 {
        '4'
    } else if d == 5 {
        '5'
    } else if d == 6 {
        '6'
    } else if d == 7 {
        '7'
    } else if d == 8 {
        '8'
    } else if d == 9 {
        '9'
    } else if d == 10 {
        'a'
    } else if d == 11 {
        'b'
    } else if d == 12 {
        'c'
    } else if d == 13 {
        'd'
    } else if d == 14 {
        'e'
    } else {
        'f'
    }
}

fn hex_digits(n: u32) -> (digits: Vec<char>)
    ensures
        digits@ == hex_string(n as nat),
    decreases n,
{
    if n < 16 {
        let digits = vec![hex_digit_to_char(n)];
        assert(digits@ =~= seq![hex_digit_char(n as int)]);
        digits
    } else {
        let mut digits = hex_digits(n / 16);
        digits.push(hex_digit_to_char(n % 16));
        digits
    }
}

/// Appends the characters of `s` to `out`.
fn append_str(out: &mut Vec<char>, s: &str)
    ensures
        final(out)@ == old(out)@ + s@,
{
    let chars = chars_of(s);
    append_chars(out, &chars);
}

/// Appends `chars` to `out`.
fn append_chars(out: &mut Vec<char>, chars: &Vec<char>)
    ensures
        final(out)@ == old(out)@ + chars@,
{
    let ghost start = out@;
    let mut i: usize = 0;
    while i < chars.len()
        invariant
            0 <= i <= chars@.len(),
            out@ == start + chars@.take(i as int),
        decreases chars@.len() - i,
    {
        out.push(chars[i]);
        assert(start + chars@.take(i + 1) =~= (start + chars@.take(i as int)).push(chars@[i as int]));
        i = i + 1;
    }
    assert(chars@.take(chars@.len() as int) =~= chars@);
}

/// Appends the literal of color `c` to `out`.
fn append_color_literal(out: &mut Vec<char>, c: u32)
    ensures
        final(out)@ == old(out)@ + color_literal(c),
{
    let ghost start = out@;
    out.push('0');
    out.push('x');
    let digits = hex_digits(c);
    let ghost lead = out@;
    let mut pad: usize = digits.len();
    while pad < 6
        invariant
            digits@.len() <= pad,
            pad <= 6 || pad == digits@.len(),
            out@ == lead + Seq::new((pad - digits@.len()) as nat, |_i: int| '0'),
        decreases 6 - pad,
    {
        out.push('0');
        assert(out@ =~= lead + Seq::new((pad + 1 - digits@.len()) as nat, |_i: int| '0'));
        pad = pad + 1;
    }
    append_chars(out, &digits);
    proof {
        if digits@.len() >= 6 {
            assert(Seq::new((pad - digits@.len()) as nat, |_i: int| '0') =~= Seq::<char>::empty());
            assert(out@ =~= start + color_literal(c));
        } else {
            assert(out@ =~= start + color_literal(c));
        }
    }
}

/// Appends the entry of theme `t` to `out`.
fn append_theme_entry(out: &mut Vec<char>, t: &DerivedTheme)
    ensures
        final(out)@ == old(out)@ + theme_entry_text(t@),
{
    let ghost start = out@;
    append_str(out, "    GeneratedTheme {\n");
    append_str(out, "        slug: \"");
    append_str(out, t.slug.as_str());
    append_str(out, "\",\n");
    append_str(out, "        is_dark: ");
    if t.is_dark {
        append_str(out, "true");
    } else {
        append_str(out, "false");
    }
    append_str(out, ",\n");
    append_str(out, "        colors: [");
    let ghost before_colors = out@;
    let mut i: usize = 0;
    while i < 16
        invariant
            0 <= i <= 16,
            t.colors@.len() == 16,
            out@ == before_colors + color_list(t.colors@.take(i as int)),
        decreases 16 - i,
    {
        let ghost prev = out@;
        if i > 0 {
            out.push(',');
            out.push(' ');
        }
        append_color_literal(out, t.colors[i]);
        proof {
            let taken = t.colors@.take(i + 1);
            assert(taken.drop_last() =~= t.colors@.take(i as int));
            assert(taken.last() == t.colors@[i as int]);
            if i == 0 {
                assert(color_list(t.colors@.take(0)) =~= Seq::<char>::empty());
                assert(out@ =~= before_colors + color_list(taken));
            } else {
                assert(out@ =~= before_colors + color_list(taken));
            }
        }
        i = i + 1;
    }
    assert(t.colors@.take(16) =~= t.colors@);
    append_str(out, "],\n");
    append_str(out, "    },\n");
    assert(out@ =~= start + theme_entry_text(t@));
}

/// The table entries of the themes, in the order given: for each theme its
/// slug, whether it is dark, and its colors as `0x`-prefixed hexadecimal.
pub fn render_theme_entries(themes: &Vec<DerivedTheme>) -> (text: String)
    ensures
        text@ == theme_entries_text(themes_view(themes@)),
{
    let ghost tv = themes_view(themes@);
    let mut out: Vec<char> = Vec::new();
    let mut i: usize = 0;
    while i < themes.len()
        invariant
            0 <= i <= themes@.len(),
            tv == themes_view(themes@),
            out@ == theme_entries_text(tv.take(i as int)),
        decreases themes@.len() - i,
    {
        append_theme_entry(&mut out, &themes[i]);
        proof {
            let taken = tv.take(i + 1);
            assert(taken.drop_last() =~= tv.take(i as int));
            assert(taken.last() == themes@[i as int]@);
        }
        i = i + 1;
    }
    assert(tv.take(themes@.len() as int) =~= tv);
    string_from_chars(&out)
}

/// The text the generated file opens with: the `GeneratedTheme` declaration
/// and the start of the `GENERATED_THEMES` table.
pub const FILE_HEADER: &'static str = "\
// @generated by `just gen-themes` from iTerm2-Color-Schemes 97e244cf. Do not edit by hand.

pub struct GeneratedTheme {
    pub slug: &'static str,
    #[allow(dead_code)]
    pub is_dark: bool,
    /// 16 tokens, packed 0xRRGGBB, in Palette-token order:
    /// accent, panel_bg, surface0, surface1, surface_dim, overlay0, overlay1,
    /// text, subtext0, mauve, green, yellow, red, blue, teal, peach
    pub colors: [u32; 16],
}

pub static GENERATED_THEMES: &[GeneratedTheme] = &[
";

/// The text the generated file ends with: the end of the table and the
/// generated file's own tests.
pub const FILE_FOOTER: &'static str = "\
];

#[cfg(test)]
mod tests {
    use super::*;

    const CURATED_NAMES: &[&str] = &[
        \"catppuccin\",
        \"catppuccin-latte\",
        \"terminal\",
        \"tokyo-night\",
        \"tokyo-night-day\",
        \"dracula\",
        \"nord\",
        \"gruvbox\",
        \"gruvbox-light\",
        \"one-dark\",
        \"one-light\",
        \"solarized\",
        \"solarized-light\",
        \"kanagawa\",
        \"kanagawa-lotus\",
        \"rose-pine\",
        \"rose-pine-dawn\",
        \"vesper\",
    ];

    #[test]
    fn theme_count_in_range() {
        let len = GENERATED_THEMES.len();
        assert!((550..=592).contains(&len), \"unexpected theme count: {len}\");
    }

    #[test]
    fn slugs_are_ascending_and_unique() {
        for pair in GENERATED_THEMES.windows(2) {
            assert!(
                pair[0].slug < pair[1].slug,
                \"slugs not strictly ascending: {} >= {}\",
                pair[0].slug,
                pair[1].slug
            );
        }
    }

    #[test]
    fn no_curated_name_collisions() {
        for theme in GENERATED_THEMES {
            assert!(
                !CURATED_NAMES.contains(&theme.slug),
                \"generated slug collides with curated name: {}\",
                theme.slug
            );
        }
    }

    #[test]
    fn has_both_dark_and_light_themes() {
        assert!(GENERATED_THEMES.iter().any(|t| t.is_dark));
        assert!(GENERATED_THEMES.iter().any(|t| !t.is_dark));
    }
}
";

/// The whole generated file for the themes, in the order given.
pub open spec fn generated_file_text(ts: Seq<DerivedThemeView>) -> Seq<char> {
    FILE_HEADER@ + theme_entries_text(ts) + FILE_FOOTER@
}

/// The generated Rust source file: the header, the themes' table entries,
/// and the footer.
pub fn render_generated_file(themes: &Vec<DerivedTheme>) -> (text: String)
    ensures
        text@ == generated_file_text(themes_view(themes@)),
{
    let entries = render_theme_entries(themes);
    let mut out: Vec<char> = Vec::new();
    append_str(&mut out, FILE_HEADER);
    append_str(&mut out, entries.as_str());
    append_str(&mut out, FILE_FOOTER);
    assert(out@ =~= generated_file_text(themes_view(themes@)));
    string_from_chars(&out)
}

} // verus!
