//! Character-level text helpers: whitespace, case folding, substring search
//! and the multi-word search used by the pickers.
use vstd::prelude::*;

verus! {

/// Collects the characters of `s` into a vector.
pub fn chars_of(s: &str) -> (r: Vec<char>)
    ensures
        r@ == s@,
{
    let mut out: Vec<char> = Vec::new();
    for c in it: s.chars()
        invariant
            out@ == it.seq().take(it.index() as int),
            it.seq() == s@,
    {
        out.push(c);
    }
    out
}

/// Builds a `String` from its characters (std's `FromIterator<char>` for
/// `String`): the string holds exactly the given characters, in order.
#[verifier::external_body]
pub(crate) fn string_from_chars(chars: &Vec<char>) -> (s: String)
    ensures
        s@ == chars@,
{
    chars.iter().collect()
}

/// The characters with the Unicode `White_Space` property.
pub open spec fn is_whitespace(c: char) -> bool {
    let v = c as u32;
    ||| 0x09 <= v <= 0x0D
    ||| v == 0x20
    ||| v == 0x85
    ||| v == 0xA0
    ||| v == 0x1680
    ||| 0x2000 <= v <= 0x200A
    ||| v == 0x2028
    ||| v == 0x2029
    ||| v == 0x202F
    ||| v == 0x205F
    ||| v == 0x3000
}

/// Whether `c` is whitespace, by the Unicode `White_Space` property.
pub fn char_is_whitespace(c: char) -> (r: bool)
    ensures
        r == is_whitespace(c),
{
    let v = c as u32;
    (0x09 <= v && v <= 0x0D) || v == 0x20 || v == 0x85 || v == 0xA0 || v == 0x1680 || (0x2000
        <= v && v <= 0x200A) || v == 0x2028 || v == 0x2029 || v == 0x202F || v == 0x205F || v
        == 0x3000
}

/// What `str::to_lowercase` returns for a string with the given characters.
pub uninterp spec fn spec_to_lowercase(s: Seq<char>) -> Seq<char>;

/// The ASCII lowercase of `c`: `A`-`Z` become `a`-`z`, everything else
/// stays.
pub open spec fn ascii_lowercase(c: char) -> char {
    if 'A' <= c && c <= 'Z' {
        ((c as u32) + 32) as char
    } else {
        c
    }
}

/// `str::to_lowercase`: the Unicode lowercase form of `s`. Its result is
/// named by [`spec_to_lowercase`]; the Unicode case tables are not restated.
/// For a string of ASCII characters alone, the result is the ASCII
/// lowercase of each character (`A`-`Z` become `a`-`z`, the rest stay), as
/// the Unicode mapping gives for ASCII.
#[verifier::external_body]
pub(crate) fn to_lowercase(s: &str) -> (r: String)
    ensures
        r@ == spec_to_lowercase(s@),
        (forall|i: int| 0 <= i < s@.len() ==> (#[trigger] s@[i] as u32) < 0x80) ==> r@
            == s@.map_values(|c: char| ascii_lowercase(c)),
{
    s.to_lowercase()
}

/// `word` occurs in `text` starting at index `k`.
pub open spec fn occurs_at(text: Seq<char>, word: Seq<char>, k: int) -> bool {
    0 <= k && k + word.len() <= text.len() && text.subrange(k, k + word.len()) == word
}

/// `word` occurs somewhere in `text`.
pub open spec fn contains_seq(text: Seq<char>, word: Seq<char>) -> bool {
    exists|k: int| occurs_at(text, word, k)
}

/// `s[i..j]` is a whitespace-separated word of `s`: a maximal run of
/// non-whitespace characters.
pub open spec fn is_word(s: Seq<char>, i: int, j: int) -> bool {
    &&& 0 <= i < j <= s.len()
    &&& forall|k: int| i <= k < j ==> !is_whitespace(#[trigger] s[k])
    &&& (i == 0 || is_whitespace(s[i - 1]))
    &&& (j == s.len() || is_whitespace(s[j]))
}

/// Case-insensitive multi-word substring match: every whitespace-separated
/// word of the query, lowercased, occurs in the lowercased text. An empty (or
/// all-whitespace) query has no words and so matches everything.
pub open spec fn spec_text_matches_query(query: Seq<char>, text: Seq<char>) -> bool {
    forall|i: int, j: int|
        #[trigger] is_word(query, i, j) ==> contains_seq(
            spec_to_lowercase(text),
            spec_to_lowercase(query.subrange(i, j)),
        )
}

/// A query without words (empty or all whitespace) matches every text.
pub proof fn lemma_blank_query_matches_everything(query: Seq<char>, text: Seq<char>)
    requires
        forall|k: int| 0 <= k < query.len() ==> is_whitespace(#[trigger] query[k]),
    ensures
        spec_text_matches_query(query, text),
{
    assert forall|i: int, j: int| #[trigger] is_word(query, i, j) implies contains_seq(
        spec_to_lowercase(text),
        spec_to_lowercase(query.subrange(i, j)),
    ) by {
        assert(!is_whitespace(query[i]));
    }
}

/// The characters `v[i..j]` as a new vector.
fn slice_chars(v: &Vec<char>, i: usize, j: usize) -> (r: Vec<char>)
    requires
        i <= j <= v@.len(),
    ensures
        r@ == v@.subrange(i as int, j as int),
{
    let mut out: Vec<char> = Vec::new();
    let mut k: usize = i;
    while k < j
        invariant
            i <= k <= j <= v@.len(),
            out@ == v@.subrange(i as int, k as int),
        decreases j - k,
    {
        out.push(v[k]);
        assert(v@.subrange(i as int, k + 1) =~= v@.subrange(i as int, k as int).push(v@[k as int]));
        k = k + 1;
    }
    out
}

/// Whether `text[k..k + (j - i)]` equals `word[i..j]`.
fn occurs_here(text: &Vec<char>, word: &Vec<char>, i: usize, j: usize, k: usize) -> (r: bool)
    requires
        i <= j <= word@.len(),
        k + (j - i) <= text@.len(),
    ensures
        r == occurs_at(text@, word@.subrange(i as int, j as int), k as int),
{
    let text_len = text.len();
    let mut n: usize = 0;
    while n < j - i
        invariant
            text_len == text@.len(),
            i <= j <= word@.len(),
            k + (j - i) <= text@.len(),
            0 <= n <= j - i,
            forall|m: int| 0 <= m < n ==> text@.subrange(k as int, k + (j - i))[m] == #[trigger] word@.subrange(i as int, j as int)[m],
        decreases j - i - n,
    {
        assert(k + n < text@.len());
        assert(i + n < word@.len());
        let tk: usize = k + n;
        let wi: usize = i + n;
        if text[tk] != word[wi] {
            assert(text@.subrange(k as int, k + (j - i))[n as int] != word@.subrange(
                i as int,
                j as int,
            )[n as int]);
            return false;
        }
        n = n + 1;
    }
    assert(text@.subrange(k as int, k + (j - i)) =~= word@.subrange(i as int, j as int));
    true
}

/// Whether `word[i..j]` occurs anywhere in `text`.
fn contains_word(text: &Vec<char>, word: &Vec<char>, i: usize, j: usize) -> (r: bool)
    requires
        i <= j <= word@.len(),
    ensures
        r == contains_seq(text@, word@.subrange(i as int, j as int)),
{
    let len = j - i;
    if len > text.len() {
        assert forall|k: int| !occurs_at(text@, word@.subrange(i as int, j as int), k) by {}
        return false;
    }
    let mut k: usize = 0;
    let last = text.len() - len;
    while k < last
        invariant
            last == text@.len() - len,
            i <= j <= word@.len(),
            len == j - i,
            len <= text@.len(),
            0 <= k <= last,
            forall|m: int| 0 <= m < k ==> !occurs_at(text@, word@.subrange(i as int, j as int), m),
        decreases text@.len() + 1 - k,
    {
        if occurs_here(text, word, i, j, k) {
            return true;
        }
        k = k + 1;
    }
    if occurs_here(text, word, i, j, last) {
        return true;
    }
    assert forall|m: int| !occurs_at(text@, word@.subrange(i as int, j as int), m) by {}
    false
}

/// The same case-insensitive multi-word substring match the pickers use: every
/// whitespace-separated word of `query` must occur in `text`, ignoring case.
pub fn text_matches_query(query: &str, text: &str) -> (r: bool)
    ensures
        r == spec_text_matches_query(query@, text@),
{
    let lowered_text = to_lowercase(text);
    let q = chars_of(query);
    let t = chars_of(lowered_text.as_str());
    let ghost qs = q@;
    let ghost ts = t@;
    let mut i: usize = 0;
    while i < q.len()
        invariant
            qs == q@,
            ts == t@,
            qs == query@,
            ts == spec_to_lowercase(text@),
            0 <= i <= q@.len(),
            i == 0 || i == q@.len() || is_whitespace(q@[i as int]) || is_whitespace(q@[i - 1]),
            forall|a: int, b: int|
                #[trigger] is_word(qs, a, b) && a < i ==> contains_seq(
                    ts,
                    spec_to_lowercase(qs.subrange(a, b)),
                ),
        decreases q@.len() - i,
    {
        if char_is_whitespace(q[i]) {
            i = i + 1;
        } else {
            assert(i == 0 || is_whitespace(q@[i - 1]));
            let mut j: usize = i + 1;
            while j < q.len() && !char_is_whitespace(q[j])
                invariant
                    qs == q@,
                    i < j <= q@.len(),
                    forall|k: int| i <= k < j ==> !is_whitespace(#[trigger] q@[k]),
                decreases q@.len() - j,
            {
                j = j + 1;
            }
            assert(is_word(qs, i as int, j as int));
            let word = string_from_chars(&slice_chars(&q, i, j));
            let lowered_word = to_lowercase(word.as_str());
            let w = chars_of(lowered_word.as_str());
            if !contains_word(&t, &w, 0, w.len()) {
                assert(w@.subrange(0, w@.len() as int) =~= w@);
                return false;
            }
            assert(w@.subrange(0, w@.len() as int) =~= w@);
            assert forall|a: int, b: int| #[trigger] is_word(qs, a, b) && a < j implies contains_seq(
                ts,
                spec_to_lowercase(qs.subrange(a, b)),
            ) by {
                if a >= i {
                    if a > i {
                        assert(!is_whitespace(qs[a - 1]));
                    } else {
                        if b < j {
                            assert(!is_whitespace(qs[b]));
                        }
                        if b > j {
                            assert(!is_whitespace(qs[j as int]));
                        }
                    }
                }
            }
            i = j;
        }
    }
    true
}

/// Replaces every `' '` and `'_'` with `'-'`.
pub open spec fn dash_separators(s: Seq<char>) -> Seq<char> {
    s.map_values(|c: char| if c == ' ' || c == '_' { '-' } else { c })
}

/// The canonical form two theme names are compared by.
pub open spec fn spec_normalized_theme_name(name: Seq<char>) -> Seq<char> {
    dash_separators(spec_to_lowercase(name))
}

/// Lowercases a theme name and turns spaces and underscores into dashes, so
/// that "Tokyo Night" and "tokyo_night" both match "tokyo-night".
pub fn normalized_theme_name(name: &str) -> (r: String)
    ensures
        r@ == spec_normalized_theme_name(name@),
{
    let lowered = to_lowercase(name);
    let chars = chars_of(lowered.as_str());
    let mut out: Vec<char> = Vec::new();
    let mut i: usize = 0;
    while i < chars.len()
        invariant
            0 <= i <= chars@.len(),
            chars@ == spec_to_lowercase(name@),
            out@ == dash_separators(chars@.take(i as int)),
        decreases chars@.len() - i,
    {
        let c = chars[i];
        if c == ' ' || c == '_' {
            out.push('-');
        } else {
            out.push(c);
        }
        assert(chars@.take(i + 1) =~= chars@.take(i as int).push(c));
        assert(dash_separators(chars@.take(i + 1)) =~= dash_separators(chars@.take(i as int)).push(
            if c == ' ' || c == '_' {
                '-'
            } else {
                c
            },
        ));
        i = i + 1;
    }
    assert(chars@.take(chars@.len() as int) =~= chars@);
    string_from_chars(&out)
}

} // verus!
