//! The theme catalog and the theme picker's name matching.
use vstd::prelude::*;
use crate::palette::Palette;
use crate::text::{
    normalized_theme_name, spec_normalized_theme_name, spec_text_matches_query,
    text_matches_query,
};

verus! {

/// One theme of the catalog: its name and the palette it renders with.
#[derive(Clone, Debug)]
pub struct ThemeEntry {
    pub name: String,
    pub palette: Palette,
}

/// The spec-level value of a [`ThemeEntry`].
pub struct ThemeEntryView {
    pub name: Seq<char>,
    pub palette: Palette,
}

impl View for ThemeEntry {
    type V = ThemeEntryView;

    open spec fn view(&self) -> ThemeEntryView {
        ThemeEntryView { name: self.name@, palette: self.palette }
    }
}

/// The characters of each string of a sequence.
pub open spec fn strings_view(v: Seq<String>) -> Seq<Seq<char>> {
    v.map_values(|s: String| s@)
}

/// The spec-level values of the catalog entries.
pub open spec fn themes_view(v: Seq<ThemeEntry>) -> Seq<ThemeEntryView> {
    v.map_values(|t: ThemeEntry| t@)
}

/// The names of the catalog's themes, in catalog order.
pub open spec fn catalog_names(themes: Seq<ThemeEntryView>) -> Seq<Seq<char>> {
    themes.map_values(|t: ThemeEntryView| t.name)
}

/// The names that match `filter`, in their original order.
pub open spec fn spec_filtered_theme_names(names: Seq<Seq<char>>, filter: Seq<char>) -> Seq<Seq<char>>
    decreases names.len(),
{
    if names.len() == 0 {
        Seq::empty()
    } else {
        let rest = spec_filtered_theme_names(names.drop_last(), filter);
        if spec_text_matches_query(filter, names.last()) {
            rest.push(names.last())
        } else {
            rest
        }
    }
}

/// The filtered list keeps exactly the matching names, in order, and an empty
/// filter keeps every name.
pub proof fn lemma_filtered_names_are_matching_subsequence(names: Seq<Seq<char>>, filter: Seq<char>)
    ensures
        spec_filtered_theme_names(names, filter).len() <= names.len(),
        forall|k: int|
            0 <= k < spec_filtered_theme_names(names, filter).len() ==> names.contains(
                #[trigger] spec_filtered_theme_names(names, filter)[k],
            ) && spec_text_matches_query(filter, spec_filtered_theme_names(names, filter)[k]),
        forall|k: int|
            0 <= k < names.len() && spec_text_matches_query(filter, #[trigger] names[k])
                ==> spec_filtered_theme_names(names, filter).contains(names[k]),
    decreases names.len(),
{
    if names.len() > 0 {
        let init = names.drop_last();
        lemma_filtered_names_are_matching_subsequence(init, filter);
        let rest = spec_filtered_theme_names(init, filter);
        assert forall|k: int|
            0 <= k < spec_filtered_theme_names(names, filter).len() implies names.contains(
                #[trigger] spec_filtered_theme_names(names, filter)[k],
            ) && spec_text_matches_query(filter, spec_filtered_theme_names(names, filter)[k]) by {
            if k < rest.len() {
                let w = choose|w: int| 0 <= w < init.len() && init[w] == rest[k];
                assert(names[w] == rest[k]);
            } else {
                assert(names[names.len() - 1] == names.last());
            }
        }
        assert forall|k: int|
            0 <= k < names.len() && spec_text_matches_query(filter, #[trigger] names[k])
                implies spec_filtered_theme_names(names, filter).contains(names[k]) by {
            let f = spec_filtered_theme_names(names, filter);
            if k < names.len() - 1 {
                assert(init[k] == names[k]);
                let w = choose|w: int| 0 <= w < rest.len() && rest[w] == init[k];
                if spec_text_matches_query(filter, names.last()) {
                    assert(f[w] == rest[w]);
                }
            } else {
                assert(f[f.len() - 1] == names.last());
            }
        }
    }
}

/// The theme picker's list: the names of `names` that match `filter` with the
/// case-insensitive multi-word substring match, in their original order. An
/// empty filter matches everything.
pub fn filtered_theme_names(names: &Vec<String>, filter: &str) -> (filtered: Vec<String>)
    ensures
        strings_view(filtered@) == spec_filtered_theme_names(strings_view(names@), filter@),
{
    let mut out: Vec<String> = Vec::new();
    let mut i: usize = 0;
    while i < names.len()
        invariant
            0 <= i <= names@.len(),
            strings_view(out@) == spec_filtered_theme_names(
                strings_view(names@).take(i as int),
                filter@,
            ),
        decreases names@.len() - i,
    {
        let all = Ghost(strings_view(names@));
        assert(all@.take(i + 1).drop_last() =~= all@.take(i as int));
        assert(all@.take(i + 1).last() == names@[i as int]@);
        if text_matches_query(filter, names[i].as_str()) {
            let name = names[i].clone();
            out.push(name);
            assert(strings_view(out@) =~= spec_filtered_theme_names(all@.take(i as int), filter@).push(
                names@[i as int]@,
            ));
        }
        i = i + 1;
    }
    assert(strings_view(names@).take(names@.len() as int) =~= strings_view(names@));
    out
}

/// The first index at or after `i` whose name normalizes to `key`, or 0 when
/// there is none.
pub open spec fn first_normalized_match(names: Seq<Seq<char>>, key: Seq<char>, i: int) -> int
    decreases names.len() - i,
{
    if i >= names.len() || i < 0 {
        0
    } else if spec_normalized_theme_name(names[i]) == key {
        i
    } else {
        first_normalized_match(names, key, i + 1)
    }
}

/// Index of the first name that normalizes to the same form as `name`, or 0
/// when none does.
pub open spec fn spec_theme_index_in(names: Seq<Seq<char>>, name: Seq<char>) -> int {
    first_normalized_match(names, spec_normalized_theme_name(name), 0)
}

/// The index found is the first one that matches, when any does.
pub proof fn lemma_theme_index_is_first_match(names: Seq<Seq<char>>, key: Seq<char>, i: int)
    requires
        0 <= i,
    ensures
        0 <= first_normalized_match(names, key, i),
        names.len() > 0 ==> first_normalized_match(names, key, i) < names.len(),
        (exists|k: int| i <= k < names.len() && spec_normalized_theme_name(names[k]) == key) ==> {
            let r = first_normalized_match(names, key, i);
            &&& i <= r < names.len()
            &&& spec_normalized_theme_name(names[r]) == key
            &&& forall|k: int| i <= k < r ==> spec_normalized_theme_name(names[k]) != key
        },
        !(exists|k: int| i <= k < names.len() && spec_normalized_theme_name(names[k]) == key)
            ==> first_normalized_match(names, key, i) == 0,
    decreases names.len() - i,
{
    if i < names.len() {
        lemma_theme_index_is_first_match(names, key, i + 1);
        if spec_normalized_theme_name(names[i]) != key {
            if exists|k: int| i <= k < names.len() && spec_normalized_theme_name(names[k]) == key {
                let k = choose|k: int| i <= k < names.len() && spec_normalized_theme_name(names[k]) == key;
                assert(k != i);
            }
        }
    }
}

/// Index of `name` in `names`, comparing normalized forms, or 0 when absent.
pub fn theme_index_in(names: &Vec<String>, name: &str) -> (index: usize)
    ensures
        index == spec_theme_index_in(strings_view(names@), name@),
{
    let normalized = normalized_theme_name(name);
    let ghost all = strings_view(names@);
    let ghost key = spec_normalized_theme_name(name@);
    let mut i: usize = 0;
    while i < names.len()
        invariant
            0 <= i <= names@.len(),
            all == strings_view(names@),
            key == normalized@,
            key == spec_normalized_theme_name(name@),
            first_normalized_match(all, key, 0) == first_normalized_match(all, key, i as int),
        decreases names@.len() - i,
    {
        let candidate = normalized_theme_name(names[i].as_str());
        assert(all[i as int] == names@[i as int]@);
        if candidate == normalized {
            return i;
        }
        i = i + 1;
    }
    0
}

/// The palette of the first catalog theme named exactly `name`.
pub open spec fn palette_lookup_from(themes: Seq<ThemeEntryView>, name: Seq<char>, i: int) -> Option<Palette>
    decreases themes.len() - i,
{
    if i >= themes.len() || i < 0 {
        None
    } else if themes[i].name == name {
        Some(themes[i].palette)
    } else {
        palette_lookup_from(themes, name, i + 1)
    }
}

/// The palette the catalog gives the theme named `name`, if it has one.
pub open spec fn spec_palette_for_theme(themes: Seq<ThemeEntryView>, name: Seq<char>) -> Option<Palette> {
    palette_lookup_from(themes, name, 0)
}

/// Looks up the palette of the theme named `name` in the catalog.
pub fn palette_for_theme(themes: &Vec<ThemeEntry>, name: &str) -> (palette: Option<Palette>)
    ensures
        palette == spec_palette_for_theme(themes_view(themes@), name@),
{
    let ghost all = themes_view(themes@);
    let mut i: usize = 0;
    while i < themes.len()
        invariant
            0 <= i <= themes@.len(),
            all == themes_view(themes@),
            palette_lookup_from(all, name@, 0) == palette_lookup_from(all, name@, i as int),
        decreases themes@.len() - i,
    {
        let candidate = themes[i].name.as_str();
        assert(all[i as int] == themes@[i as int]@);
        if string_eq(candidate, name) {
            return Some(themes[i].palette);
        }
        i = i + 1;
    }
    None
}

/// Whether two strings hold the same characters.
pub fn string_eq(a: &str, b: &str) -> (r: bool)
    ensures
        r == (a@ == b@),
{
    let ac = crate::text::chars_of(a);
    let bc = crate::text::chars_of(b);
    if ac.len() != bc.len() {
        return false;
    }
    let mut i: usize = 0;
    while i < ac.len()
        invariant
            ac@ == a@,
            bc@ == b@,
            ac@.len() == bc@.len(),
            0 <= i <= ac@.len(),
            forall|k: int| 0 <= k < i ==> ac@[k] == bc@[k],
        decreases ac@.len() - i,
    {
        if ac[i] != bc[i] {
            assert(ac@[i as int] != bc@[i as int]);
            proof {
                if a@ == b@ {
                    assert(ac@[i as int] == bc@[i as int]);
                }
            }
            return false;
        }
        i = i + 1;
    }
    assert(ac@ =~= bc@);
    true
}

/// The names of the catalog's themes, in catalog order.
pub fn theme_names(themes: &Vec<ThemeEntry>) -> (names: Vec<String>)
    ensures
        strings_view(names@) == catalog_names(themes_view(themes@)),
{
    let mut out: Vec<String> = Vec::new();
    let mut i: usize = 0;
    while i < themes.len()
        invariant
            0 <= i <= themes@.len(),
            strings_view(out@) == catalog_names(themes_view(themes@)).take(i as int),
        decreases themes@.len() - i,
    {
        let name = themes[i].name.clone();
        assert(name@ == catalog_names(themes_view(themes@))[i as int]);
        let ghost before = out@;
        out.push(name);
        assert(out@ == before.push(name));
        assert(strings_view(out@) =~= strings_view(before).push(name@));
        assert(strings_view(out@) =~= catalog_names(themes_view(themes@)).take(i + 1));
        i = i + 1;
    }
    assert(catalog_names(themes_view(themes@)).take(themes@.len() as int) =~= catalog_names(
        themes_view(themes@),
    ));
    out
}

/// An empty filter keeps every name, in order.
pub proof fn lemma_empty_filter_keeps_every_name(names: Seq<Seq<char>>)
    ensures
        spec_filtered_theme_names(names, Seq::empty()) == names,
    decreases names.len(),
{
    if names.len() > 0 {
        lemma_empty_filter_keeps_every_name(names.drop_last());
        crate::text::lemma_blank_query_matches_everything(Seq::empty(), names.last());
        assert(names.drop_last().push(names.last()) =~= names);
    }
}

} // verus!
