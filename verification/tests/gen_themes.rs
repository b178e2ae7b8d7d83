use herdr::palette::pack;
use herdr::text::{normalized_theme_name, text_matches_query};
use herdr::theme_file::{
    assign_theme_slugs, curated_theme_names, format_decimal, parse_hex, parse_theme_file, read_hex, read_theme_file, slugify,
    ThemeFileError,
};
use herdr::theme_output::{
    render_generated_file, render_theme_entries, slug_le, sort_themes_by_slug, DerivedTheme, FILE_FOOTER,
    FILE_HEADER,
};

fn theme_text(skip_palette: Option<usize>, background: bool, foreground: bool) -> String {
    let mut out = String::from("# a comment line\n\n");
    for i in 0..16 {
        if Some(i) != skip_palette {
            out.push_str(&format!("palette = {i}=#{:02x}{:02x}{:02x}\n", i * 10, i * 11, i * 12));
        }
    }
    if background {
        out.push_str("background = #1e1e2e\r\n");
    }
    if foreground {
        out.push_str("foreground=cdd6f4\n");
    }
    out.push_str("cursor-color = #f5e0dc\n");
    out
}

#[test]
fn hex_colors_parse_with_or_without_a_hash() {
    assert_eq!(parse_hex("#1e1e2e"), (0x1e, 0x1e, 0x2e));
    assert_eq!(parse_hex("  ##CDD6F4 "), (0xcd, 0xd6, 0xf4));
    assert_eq!(read_hex("#12345"), None);
    assert_eq!(read_hex("#12g456"), None);
    assert_eq!(parse_hex("+f+f+f"), (15, 15, 15));
    assert_eq!(parse_hex("#1e1e2eff"), (0x1e, 0x1e, 0x2e));
}

#[test]
fn a_complete_theme_file_parses() {
    let parsed = parse_theme_file(&theme_text(None, true, true));
    assert_eq!(parsed.palette.len(), 16);
    assert_eq!(parsed.palette[0], (0, 0, 0));
    assert_eq!(parsed.palette[15], (150, 165, 180));
    assert_eq!(parsed.background, (0x1e, 0x1e, 0x2e));
    assert_eq!(parsed.foreground, (0xcd, 0xd6, 0xf4));
}

#[test]
fn later_lines_override_earlier_ones_and_high_indices_are_ignored() {
    let text = format!("{}palette = 3=#ffffff\npalette = 16=#000000\n", theme_text(None, true, true));
    let parsed = parse_theme_file(&text);
    assert_eq!(parsed.palette[3], (0xff, 0xff, 0xff));
}

#[test]
fn theme_file_errors_name_what_is_wrong() {
    assert!(matches!(
        read_theme_file(&theme_text(Some(7), true, true)),
        Err(ThemeFileError::MissingPalette { index: 7 })
    ));
    assert!(matches!(
        read_theme_file(&theme_text(None, false, true)),
        Err(ThemeFileError::MissingBackground)
    ));
    assert!(matches!(
        read_theme_file(&theme_text(None, true, false)),
        Err(ThemeFileError::MissingForeground)
    ));
    match read_theme_file("palette = x=#000000\n") {
        Err(ThemeFileError::InvalidPaletteIndex { line }) => assert_eq!(line, "palette = x=#000000"),
        other => panic!("unexpected {other:?}"),
    }
    match read_theme_file("background = #zzzzzz\n") {
        Err(ThemeFileError::InvalidHex { value }) => assert_eq!(value, "#zzzzzz"),
        other => panic!("unexpected {other:?}"),
    }
}

#[test]
fn slugs_follow_the_slug_rules() {
    assert_eq!(slugify("Catppuccin Mocha"), "catppuccin-mocha");
    assert_eq!(slugify("Builtin Solarized Dark"), "builtin-solarized-dark");
    assert_eq!(slugify("C++ Theme"), "c-plus-plus-theme");
    assert_eq!(slugify("  --Rosé Pine (Moon)--  "), "ros-pine-moon");
    assert_eq!(slugify("3024 Night"), "3024-night");
    assert_eq!(slugify("+"), "plus");
    assert_eq!(slugify("!!!"), "");
}

#[test]
fn generated_names_skip_curated_slugs_and_number_repeats() {
    let raw: Vec<String> = ["nord", "zenburn", "zenburn", "dracula", "zenburn", "ayu"]
        .iter()
        .map(|s| s.to_string())
        .collect();
    let named = assign_theme_slugs(&raw, &curated_theme_names());
    assert_eq!(
        named,
        vec![
            None,
            Some("zenburn".to_string()),
            Some("zenburn-2".to_string()),
            None,
            Some("zenburn-3".to_string()),
            Some("ayu".to_string()),
        ]
    );
}

#[test]
fn curated_names_are_the_eighteen_hand_authored_themes() {
    let curated = curated_theme_names();
    assert_eq!(curated.len(), 18);
    assert_eq!(curated[0], "catppuccin");
    assert_eq!(curated[17], "vesper");
}

#[test]
fn decimal_formatting_has_no_leading_zeros() {
    assert_eq!(format_decimal(0), vec!['0']);
    assert_eq!(format_decimal(1203), vec!['1', '2', '0', '3']);
}

#[test]
fn packing_puts_red_in_the_high_byte() {
    assert_eq!(pack((0x12, 0x34, 0x56)), 0x123456);
    assert_eq!(pack((0xff, 0, 0)), 0xff0000);
    assert_eq!(pack((0, 0, 0xff)), 0x0000ff);
}

fn theme(slug: &str, is_dark: bool, first: u32) -> DerivedTheme {
    let mut colors = [0u32; 16];
    colors[0] = first;
    colors[15] = 0xffffff;
    DerivedTheme { slug: slug.to_string(), is_dark, colors }
}

#[test]
fn slugs_order_by_code_point() {
    assert!(slug_le("abc", "abd"));
    assert!(slug_le("ab", "abc"));
    assert!(!slug_le("abc", "ab"));
    assert!(slug_le("zen-2", "zen2"));
    assert!(slug_le("same", "same"));
}

#[test]
fn themes_sort_by_slug_and_keep_the_order_of_equal_slugs() {
    let sorted = sort_themes_by_slug(vec![
        theme("zenburn", true, 1),
        theme("ayu", false, 2),
        theme("monokai", true, 3),
        theme("ayu", true, 4),
    ]);
    let order: Vec<(&str, u32)> = sorted.iter().map(|t| (t.slug.as_str(), t.colors[0])).collect();
    assert_eq!(order, vec![("ayu", 2), ("ayu", 4), ("monokai", 3), ("zenburn", 1)]);
}

#[test]
fn theme_entries_render_as_rust_literals() {
    let text = render_theme_entries(&vec![theme("ayu", false, 0x0a0b0c), theme("nord", true, 0x1234567)]);
    let zeros = "0x000000, ".repeat(14);
    let expected = format!(
        "    GeneratedTheme {{\n        slug: \"ayu\",\n        is_dark: false,\n        colors: [0x0a0b0c, {zeros}0xffffff],\n    }},\n    GeneratedTheme {{\n        slug: \"nord\",\n        is_dark: true,\n        colors: [0x1234567, {zeros}0xffffff],\n    }},\n"
    );
    assert_eq!(text, expected);
    assert_eq!(render_theme_entries(&vec![]), "");
}

#[test]
fn theme_search_is_case_insensitive_and_word_by_word() {
    assert!(text_matches_query("Tokyo NIGHT", "tokyonight-storm"));
    assert!(text_matches_query("  ", "anything"));
    assert!(!text_matches_query("tokyo day", "tokyonight-storm"));
    assert_eq!(normalized_theme_name("Tokyo Night_Day"), "tokyo-night-day");
}

#[test]
fn slugs_are_fixed_points_without_double_dashes() {
    for name in ["Catppuccin Mocha", "C++ Theme", "  --Rosé Pine (Moon)--  ", "a -- b", "X+Y"] {
        let slug = slugify(name);
        assert!(!slug.contains("--"));
        assert_eq!(slugify(&slug), slug);
    }
}

#[test]
fn packed_colors_read_back_through_parse_hex() {
    for rgb in [(0u8, 0u8, 0u8), (0x12, 0x34, 0x56), (0xff, 0x0a, 0xb0), (1, 2, 3)] {
        let packed = pack(rgb);
        assert_eq!(parse_hex(&format!("#{packed:06x}")), rgb);
        assert_eq!(parse_hex(&format!(" ##{packed:06X} ")), rgb);
    }
}

#[test]
fn the_generated_file_wraps_the_entries_in_its_header_and_footer() {
    let themes = vec![theme("ayu", false, 1)];
    let text = render_generated_file(&themes);
    assert_eq!(text, format!("{FILE_HEADER}{}{FILE_FOOTER}", render_theme_entries(&themes)));
    assert!(text.contains("pub struct GeneratedTheme {"));
    assert!(text.ends_with("}\n"));
}
