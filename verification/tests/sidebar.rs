use herdr::agent::Agent;
use herdr::agent_logo::{agent_brand_color, agent_logo_mask, logo_image_id, LOGO_COLS};
use herdr::palette::{Color, Palette};
use herdr::sidebar::{
    agent_brand_style, agent_panel_entries_from, apply_token_style, expanded_sidebar_sections,
    render_token_row, resolved_token_spans, sidebar_content, sidebar_section_divider_rect,
    sidebar_section_heights, truncate_end, PaneDetail, Rect, ResolvedToken, ResolvedTokenKind,
    ResolvedTokenLine, SidebarTokenStyle, Span, Style, BOLD, DIM,
};
use herdr::status::AgentStatus;

fn rgb(hex: u32) -> Color {
    Color::Rgb((hex >> 16) as u8, (hex >> 8) as u8, hex as u8)
}

fn catppuccin() -> Palette {
    Palette {
        accent: rgb(0xcba6f7),
        panel_bg: rgb(0x1e1e2e),
        surface0: rgb(0x313244),
        surface1: rgb(0x45475a),
        surface_dim: rgb(0x181825),
        overlay0: rgb(0x6c7086),
        overlay1: rgb(0x7f849c),
        text: rgb(0xcdd6f4),
        subtext0: rgb(0xa6adc8),
        mauve: rgb(0xcba6f7),
        green: rgb(0xa6e3a1),
        yellow: rgb(0xf9e2af),
        red: rgb(0xf38ba8),
        blue: rgb(0x89b4fa),
        teal: rgb(0x94e2d5),
        peach: rgb(0xfab387),
    }
}

/// The agent's name as its `agent` token prints it: the lowercase variant name.
fn agent_name(agent: Agent) -> String {
    format!("{agent:?}").to_lowercase()
}

fn display_width(s: &str) -> usize {
    unicode_width::UnicodeWidthStr::width(s)
}

fn row(kinds: Vec<ResolvedTokenKind>) -> Vec<ResolvedToken> {
    kinds.into_iter().map(ResolvedToken::unstyled).collect()
}

fn spans_for(resolved: &Vec<ResolvedToken>, agent: Option<Agent>, secondary_style: Style) -> Vec<Span> {
    spans_for_with_logo(resolved, agent, secondary_style, false).spans
}

fn spans_for_with_logo(
    resolved: &Vec<ResolvedToken>,
    agent: Option<Agent>,
    secondary_style: Style,
    logo_will_render: bool,
) -> ResolvedTokenLine {
    resolved_token_spans(
        resolved,
        ("*", Style::new()),
        Style::new(),
        Style::new(),
        secondary_style,
        Style::new(),
        &catppuccin(),
        80,
        agent,
        logo_will_render,
    )
}

fn narrow_row(resolved: &Vec<ResolvedToken>, max_width: usize) -> Vec<String> {
    resolved_token_spans(
        resolved,
        ("*", Style::new()),
        Style::new(),
        Style::new(),
        Style::new(),
        Style::new(),
        &catppuccin(),
        max_width,
        None,
        false,
    )
    .spans
    .into_iter()
    .map(|s| s.content)
    .collect()
}

#[test]
fn branded_agent_colors_the_agent_name_token() {
    let spans = spans_for(
        &row(vec![ResolvedTokenKind::Agent(agent_name(Agent::Claude))]),
        Some(Agent::Claude),
        Style::new().fg(Color::Magenta),
    );
    assert_eq!(spans.len(), 1);
    assert_eq!(spans[0].style.fg, agent_brand_color(Agent::Claude));
}

#[test]
fn bold_only_agent_uses_theme_text_without_a_brand_color() {
    let palette = catppuccin();
    let spans = spans_for(
        &row(vec![ResolvedTokenKind::Agent("grok".into())]),
        Some(Agent::Grok),
        Style::new().fg(Color::Magenta),
    );
    assert_eq!(spans.len(), 1);
    assert_eq!(spans[0].style.fg, Some(palette.text));
    assert!(spans[0].style.add_modifier & BOLD != 0);
}

#[test]
fn unbranded_agent_falls_through_to_secondary_style() {
    let secondary = Style::new().fg(Color::Magenta);
    let spans = spans_for(&row(vec![ResolvedTokenKind::Agent("pi".into())]), Some(Agent::Pi), secondary);
    assert_eq!(spans.len(), 1);
    assert_eq!(spans[0].style, secondary);
}

#[test]
fn agent_token_with_no_canonical_agent_falls_through_to_secondary_style() {
    let secondary = Style::new().fg(Color::Magenta);
    let spans = spans_for(&row(vec![ResolvedTokenKind::Agent("unknown".into())]), None, secondary);
    assert_eq!(spans.len(), 1);
    assert_eq!(spans[0].style, secondary);
}

#[test]
fn tab_token_renders_teal() {
    let palette = catppuccin();
    let spans = spans_for(&row(vec![ResolvedTokenKind::Tab("main".into())]), None, Style::new());
    assert_eq!(spans.len(), 1);
    assert_eq!(spans[0].style.fg, Some(palette.teal));
}

#[test]
fn agent_icon_falls_back_to_brand_colored_name_with_no_blank_gap() {
    let spans = spans_for(
        &row(vec![
            ResolvedTokenKind::AgentIcon { fallback: agent_name(Agent::Claude) },
            ResolvedTokenKind::Pane("main".into()),
        ]),
        Some(Agent::Claude),
        Style::new(),
    );
    assert_eq!(spans.len(), 3, "expected icon, separator, pane spans");
    assert_eq!(spans[0].content, agent_name(Agent::Claude));
    assert!(!spans[0].content.is_empty());
    assert_eq!(spans[0].style.fg, agent_brand_color(Agent::Claude));
}

#[test]
fn agent_icon_elides_instead_of_duplicating_a_row_that_already_names_the_agent() {
    let spans = spans_for(
        &row(vec![
            ResolvedTokenKind::Agent(agent_name(Agent::Claude)),
            ResolvedTokenKind::AgentIcon { fallback: agent_name(Agent::Claude) },
        ]),
        Some(Agent::Claude),
        Style::new(),
    );
    assert_eq!(spans.len(), 1);
    assert_eq!(spans[0].content, agent_name(Agent::Claude));
}

#[test]
fn agent_icon_falls_back_for_an_agent_with_no_bundled_mask() {
    assert!(!agent_logo_mask(Agent::Devin));
    let spans = spans_for(
        &row(vec![ResolvedTokenKind::AgentIcon { fallback: "devin".into() }]),
        Some(Agent::Devin),
        Style::new(),
    );
    assert_eq!(spans.len(), 1);
    assert_eq!(spans[0].content, "devin");
    assert_eq!(spans[0].style.fg, agent_brand_color(Agent::Devin));
}

#[test]
fn same_agent_across_independent_panes_resolves_the_same_brand_style() {
    let pane_one = spans_for(
        &row(vec![ResolvedTokenKind::AgentIcon { fallback: agent_name(Agent::Claude) }]),
        Some(Agent::Claude),
        Style::new(),
    );
    let pane_two = spans_for(
        &row(vec![ResolvedTokenKind::AgentIcon { fallback: agent_name(Agent::Claude) }]),
        Some(Agent::Claude),
        Style::new(),
    );
    assert_eq!(pane_one[0].style, pane_two[0].style);
    assert_eq!(logo_image_id(Agent::Claude), logo_image_id(Agent::Claude));
}

#[test]
fn token_level_style_override_still_applies_on_top_of_brand_color() {
    let mut resolved = row(vec![ResolvedTokenKind::Agent(agent_name(Agent::Claude))]);
    resolved[0].style = SidebarTokenStyle { fg: None, bold: Some(true), dim: None };
    let spans = spans_for(&resolved, Some(Agent::Claude), Style::new());
    assert_eq!(spans.len(), 1);
    assert_eq!(spans[0].style.fg, agent_brand_color(Agent::Claude));
    assert!(spans[0].style.add_modifier & BOLD != 0);
}

#[test]
fn real_logo_reserves_a_fixed_width_box_and_reports_its_column() {
    let line = spans_for_with_logo(
        &row(vec![
            ResolvedTokenKind::AgentIcon { fallback: agent_name(Agent::Claude) },
            ResolvedTokenKind::Pane("main".into()),
        ]),
        Some(Agent::Claude),
        Style::new(),
        true,
    );
    assert_eq!(line.spans.len(), 3, "expected icon box, separator, pane");
    assert_eq!(display_width(&line.spans[0].content), LOGO_COLS as usize);
    assert_eq!(line.logo_column, Some(0));
}

#[test]
fn real_logo_never_elides_even_when_the_row_also_names_the_agent() {
    let line = spans_for_with_logo(
        &row(vec![
            ResolvedTokenKind::Agent(agent_name(Agent::Claude)),
            ResolvedTokenKind::AgentIcon { fallback: agent_name(Agent::Claude) },
        ]),
        Some(Agent::Claude),
        Style::new(),
        true,
    );
    assert_eq!(line.spans.len(), 3, "expected agent name, separator, logo box");
    assert!(line.logo_column.is_some());
}

#[test]
fn logo_column_accounts_for_preceding_token_width() {
    let line = spans_for_with_logo(
        &row(vec![
            ResolvedTokenKind::StateIcon,
            ResolvedTokenKind::AgentIcon { fallback: agent_name(Agent::Claude) },
        ]),
        Some(Agent::Claude),
        Style::new(),
        true,
    );
    let expected = display_width("*") as u16 + display_width(" ") as u16;
    assert_eq!(line.logo_column, Some(expected));
}

#[test]
fn a_row_that_fits_is_rendered_in_full_with_separators() {
    let resolved = row(vec![
        ResolvedTokenKind::StateIcon,
        ResolvedTokenKind::Workspace("web".into()),
        ResolvedTokenKind::GitStatus { ahead: 2, behind: 11 },
    ]);
    assert_eq!(
        narrow_row(&resolved, 80),
        vec!["*", " ", "web", " ", "\u{2191}2", " ", "\u{2193}11"]
    );
}

#[test]
fn a_narrow_row_truncates_its_text_with_an_ellipsis() {
    let resolved = row(vec![
        ResolvedTokenKind::StateIcon,
        ResolvedTokenKind::Pane("backend-server".into()),
    ]);
    // Two columns go to the icon and the separator; the pane keeps six.
    assert_eq!(narrow_row(&resolved, 8), vec!["*", " ", "backe\u{2026}"]);
}

#[test]
fn text_that_cannot_fit_is_dropped_before_fixed_width_tokens() {
    let resolved = row(vec![
        ResolvedTokenKind::StateIcon,
        ResolvedTokenKind::Pane("backend".into()),
        ResolvedTokenKind::GitStatus { ahead: 1, behind: 0 },
    ]);
    // The icon, the status and one separator take four columns: no room is
    // left for even one column of text and its separator.
    assert_eq!(narrow_row(&resolved, 5), vec!["*", " ", "\u{2191}1"]);
}

#[test]
fn the_checked_renderer_agrees_with_the_plain_one() {
    let resolved = row(vec![
        ResolvedTokenKind::StateIcon,
        ResolvedTokenKind::Tab("main".into()),
    ]);
    let checked = render_token_row(
        &resolved,
        ("*", Style::new()),
        Style::new(),
        Style::new(),
        Style::new(),
        Style::new(),
        &catppuccin(),
        80,
        None,
        false,
    )
    .expect("a short row fits");
    let contents: Vec<String> = checked.spans.into_iter().map(|s| s.content).collect();
    assert_eq!(contents, narrow_row(&resolved, 80));
}

#[test]
fn truncation_keeps_text_that_fits_and_marks_cut_text() {
    assert_eq!(truncate_end("hello", 5), "hello");
    assert_eq!(truncate_end("hello", 4), "hel\u{2026}");
    assert_eq!(truncate_end("hello", 1), "\u{2026}");
    assert_eq!(truncate_end("hello", 0), "");
    assert_eq!(truncate_end("日本語", 4), "日\u{2026}");
}

#[test]
fn token_style_overrides_set_and_clear_modifiers() {
    let base = Style::new().fg(Color::Red).add_modifier(DIM);
    let patched = apply_token_style(
        base,
        SidebarTokenStyle { fg: Some(Color::Blue), bold: Some(true), dim: Some(false) },
    );
    assert_eq!(patched.fg, Some(Color::Blue));
    assert_eq!(patched.add_modifier, BOLD);
    assert_eq!(patched.sub_modifier, DIM);
    let untouched = apply_token_style(base, SidebarTokenStyle { fg: None, bold: None, dim: None });
    assert_eq!(untouched, base);
}

#[test]
fn brand_styles_depend_on_the_agent_alone() {
    let p = catppuccin();
    assert_eq!(
        agent_brand_style(Agent::Codex, &p),
        Some(Style::new().fg(Color::Rgb(0x10, 0xA3, 0x7F)))
    );
    assert_eq!(agent_brand_style(Agent::Cursor, &p), Some(Style::new().fg(p.text).add_modifier(BOLD)));
    assert_eq!(agent_brand_style(Agent::Pi, &p), None);
}

#[test]
fn short_sidebars_split_evenly_and_tall_ones_keep_three_rows() {
    assert_eq!(sidebar_section_heights(0, 9), (0, 0));
    assert_eq!(sidebar_section_heights(5, 1), (3, 2));
    assert_eq!(sidebar_section_heights(20, 1), (3, 17));
    assert_eq!(sidebar_section_heights(20, 19), (17, 3));
    assert_eq!(sidebar_section_heights(20, 12), (12, 8));
}

#[test]
fn the_sections_stack_inside_the_content_area() {
    let area = Rect::new(2, 1, 31, 21);
    assert_eq!(sidebar_content(area), Rect::new(2, 1, 30, 21));
    let (top, bottom) = expanded_sidebar_sections(area, 12);
    assert_eq!(top, Rect::new(2, 1, 30, 12));
    assert_eq!(bottom, Rect::new(2, 13, 30, 9));
    assert_eq!(sidebar_section_divider_rect(area, 12), Rect::new(2, 13, 30, 1));
    assert_eq!(sidebar_section_divider_rect(Rect::new(0, 0, 10, 5), 2), Rect::empty());
    assert_eq!(expanded_sidebar_sections(Rect::new(0, 0, 1, 9), 4), (Rect::empty(), Rect::empty()));
}

#[test]
fn rectangles_are_clamped_to_the_coordinate_space() {
    let r = Rect::new(65_000, 65_530, 1_000, 10);
    assert_eq!(r.width, 535);
    assert_eq!(r.height, 5);
}

fn detail(tab_idx: usize, pane_id: u64) -> PaneDetail {
    PaneDetail {
        tab_idx,
        pane_id,
        agent_kind_label: None,
        state: AgentStatus::Idle,
        seen: false,
        last_agent_state_change_seq: None,
        tokens: std::collections::HashMap::new(),
    }
}

#[test]
fn panel_entries_list_every_pane_tagged_with_its_workspace() {
    let entries = agent_panel_entries_from(vec![
        vec![detail(0, 10), detail(1, 11)],
        vec![],
        vec![detail(2, 30)],
    ]);
    let summary: Vec<(usize, usize, u64)> =
        entries.iter().map(|e| (e.ws_idx, e.tab_idx, e.pane_id)).collect();
    assert_eq!(summary, vec![(0, 0, 10), (0, 1, 11), (2, 2, 30)]);
}
