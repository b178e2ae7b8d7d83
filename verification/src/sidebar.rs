//! Sidebar layout: how the sidebar splits into its workspace and detail
//! sections, the brand styling of agent names, and how a row of resolved
//! tokens is fitted into the sidebar's width.
use vstd::prelude::*;
use crate::agent::Agent;
use crate::agent_logo::{agent_brand_color, spec_brand_rgb, LOGO_COLS};
use crate::palette::{Color, Palette};

verus! {

// ---------------------------------------------------------------------------
// Rectangles and the section split
// ---------------------------------------------------------------------------

/// A screen rectangle, in cells.
#[derive(Clone, Copy, Debug, PartialEq, Eq, Structural)]
pub struct Rect {
    pub x: u16,
    pub y: u16,
    pub width: u16,
    pub height: u16,
}

/// The rectangle `Rect::new` builds: width and height are clamped so that the
/// rectangle stays inside the `u16` coordinate space.
pub open spec fn spec_rect_new(x: u16, y: u16, width: u16, height: u16) -> Rect {
    Rect {
        x,
        y,
        width: if width > u16::MAX - x {
            (u16::MAX - x) as u16
        } else {
            width
        },
        height: if height > u16::MAX - y {
            (u16::MAX - y) as u16
        } else {
            height
        },
    }
}

impl Rect {
    /// A rectangle at `(x, y)`, clamped to the `u16` coordinate space.
    pub fn new(x: u16, y: u16, width: u16, height: u16) -> (r: Rect)
        ensures
            r == spec_rect_new(x, y, width, height),
    {
        let max_width = u16::MAX - x;
        let max_height = u16::MAX - y;
        Rect {
            x,
            y,
            width: if width > max_width {
                max_width
            } else {
                width
            },
            height: if height > max_height {
                max_height
            } else {
                height
            },
        }
    }

    /// The empty rectangle at the origin.
    pub fn empty() -> (r: Rect)
        ensures
            r == (Rect { x: 0, y: 0, width: 0, height: 0 }),
    {
        Rect { x: 0, y: 0, width: 0, height: 0 }
    }

    /// Whether the rectangle has no area.
    pub fn is_empty(&self) -> (r: bool)
        ensures
            r == (self.width == 0 || self.height == 0),
    {
        self.width == 0 || self.height == 0
    }
}

/// Heights of the workspace and detail sections for a sidebar `total` rows
/// tall. Short sidebars split evenly (the workspace section takes the odd
/// row); taller ones give the workspace section `scaled` rows — the
/// configured share of the height, rounded — kept at least 3 rows away from
/// either edge.
pub open spec fn spec_sidebar_section_heights(total: u16, scaled: u16) -> (u16, u16) {
    if total == 0 {
        (0, 0)
    } else if total < 6 {
        let workspace = ((total + 1) / 2) as u16;
        (workspace, (total - workspace) as u16)
    } else {
        let workspace = if scaled < 3 {
            3u16
        } else if scaled > total - 3 {
            (total - 3) as u16
        } else {
            scaled
        };
        (workspace, (total - workspace) as u16)
    }
}

/// Splits a sidebar `total_height` rows tall into workspace and detail
/// section heights; `scaled_workspace_height` is the configured split ratio
/// (clamped to 0.1..=0.9) times the height, rounded.
pub fn sidebar_section_heights(total_height: u16, scaled_workspace_height: u16) -> (heights: (
    u16,
    u16,
))
    ensures
        heights == spec_sidebar_section_heights(total_height, scaled_workspace_height),
        heights.0 + heights.1 == total_height,
        total_height >= 6 ==> heights.0 >= 3 && heights.1 >= 3,
{
    if total_height == 0 {
        return (0, 0);
    }
    if total_height < 6 {
        let workspace_height = total_height / 2 + total_height % 2;
        return (workspace_height, total_height - workspace_height);
    }
    let upper = total_height - 3;
    let workspace_height = if scaled_workspace_height < 3 {
        3
    } else if scaled_workspace_height > upper {
        upper
    } else {
        scaled_workspace_height
    };
    (workspace_height, total_height - workspace_height)
}

/// The sidebar's content area: everything but its rightmost column.
pub open spec fn spec_sidebar_content(area: Rect) -> Rect {
    spec_rect_new(
        area.x,
        area.y,
        if area.width >= 1 {
            (area.width - 1) as u16
        } else {
            0u16
        },
        area.height,
    )
}

/// The sidebar's content area: everything but its rightmost column (the
/// divider to the panes).
pub fn sidebar_content(area: Rect) -> (content: Rect)
    ensures
        content == spec_sidebar_content(area),
{
    Rect::new(area.x, area.y, area.width.saturating_sub(1), area.height)
}

/// The workspace and detail sections of an expanded sidebar, stacked in the
/// content area.
pub open spec fn spec_expanded_sidebar_sections(area: Rect, scaled: u16) -> (Rect, Rect) {
    let content = spec_sidebar_content(area);
    if content.width == 0 || content.height == 0 {
        (Rect { x: 0, y: 0, width: 0, height: 0 }, Rect { x: 0, y: 0, width: 0, height: 0 })
    } else {
        let heights = spec_sidebar_section_heights(content.height, scaled);
        (
            spec_rect_new(content.x, content.y, content.width, heights.0),
            spec_rect_new(content.x, (content.y + heights.0) as u16, content.width, heights.1),
        )
    }
}

/// The workspace and detail sections of an expanded sidebar;
/// `scaled_workspace_height` is the split ratio times the content height,
/// rounded.
pub fn expanded_sidebar_sections(area: Rect, scaled_workspace_height: u16) -> (sections: (Rect, Rect))
    ensures
        sections == spec_expanded_sidebar_sections(area, scaled_workspace_height),
{
    let content = sidebar_content(area);
    if content.is_empty() {
        return (Rect::empty(), Rect::empty());
    }
    let (workspace_height, detail_height) = sidebar_section_heights(
        content.height,
        scaled_workspace_height,
    );
    (
        Rect::new(content.x, content.y, content.width, workspace_height),
        Rect::new(content.x, content.y + workspace_height, content.width, detail_height),
    )
}

/// The one-row divider between the two sections, or the empty rectangle for
/// a sidebar too small to have one.
pub open spec fn spec_sidebar_section_divider_rect(area: Rect, scaled: u16) -> Rect {
    let content = spec_sidebar_content(area);
    if content.width == 0 || content.height < 6 {
        Rect { x: 0, y: 0, width: 0, height: 0 }
    } else {
        let heights = spec_sidebar_section_heights(content.height, scaled);
        spec_rect_new(content.x, (content.y + heights.0) as u16, content.width, 1)
    }
}

/// The one-row divider between the two sections.
pub fn sidebar_section_divider_rect(area: Rect, scaled_workspace_height: u16) -> (divider: Rect)
    ensures
        divider == spec_sidebar_section_divider_rect(area, scaled_workspace_height),
{
    let content = sidebar_content(area);
    if content.width == 0 || content.height < 6 {
        return Rect::empty();
    }
    let (workspace_height, _) = sidebar_section_heights(content.height, scaled_workspace_height);
    Rect::new(content.x, content.y + workspace_height, content.width, 1)
}

/// The two sections tile the content area: the detail section starts where
/// the workspace section ends, both span its width, and their heights add
/// up to its height.
pub proof fn lemma_sections_tile_the_content(area: Rect, scaled: u16)
    requires
        spec_sidebar_content(area).width > 0,
        spec_sidebar_content(area).height > 0,
    ensures
        ({
            let content = spec_sidebar_content(area);
            let (top, bottom) = spec_expanded_sidebar_sections(area, scaled);
            &&& top.x == content.x && bottom.x == content.x
            &&& top.y == content.y
            &&& top.width == content.width && bottom.width == content.width
            &&& bottom.y == top.y + top.height
            &&& top.height + bottom.height == content.height
        }),
{
}

// ---------------------------------------------------------------------------
// Styles
// ---------------------------------------------------------------------------

/// Modifier bit for bold text.
pub const BOLD: u16 = 1;

/// Modifier bit for dim text.
pub const DIM: u16 = 2;

/// A text style: optional colors and the modifiers it adds and removes.
#[derive(Clone, Copy, Debug, PartialEq, Eq, Structural)]
pub struct Style {
    pub fg: Option<Color>,
    pub bg: Option<Color>,
    pub add_modifier: u16,
    pub sub_modifier: u16,
}

impl Style {
    /// The style that changes nothing.
    pub fn new() -> (s: Style)
        ensures
            s == (Style { fg: None, bg: None, add_modifier: 0, sub_modifier: 0 }),
    {
        Style { fg: None, bg: None, add_modifier: 0, sub_modifier: 0 }
    }

    /// The style with foreground `color`.
    pub fn fg(self, color: Color) -> (s: Style)
        ensures
            s == (Style { fg: Some(color), ..self }),
    {
        Style { fg: Some(color), ..self }
    }

    /// The style that adds `modifier` (and no longer removes it).
    pub fn add_modifier(self, modifier: u16) -> (s: Style)
        ensures
            s == (Style {
                sub_modifier: self.sub_modifier & !modifier,
                add_modifier: self.add_modifier | modifier,
                ..self
            }),
    {
        Style {
            sub_modifier: self.sub_modifier & !modifier,
            add_modifier: self.add_modifier | modifier,
            ..self
        }
    }

    /// The style that removes `modifier` (and no longer adds it).
    pub fn remove_modifier(self, modifier: u16) -> (s: Style)
        ensures
            s == (Style {
                add_modifier: self.add_modifier & !modifier,
                sub_modifier: self.sub_modifier | modifier,
                ..self
            }),
    {
        Style {
            add_modifier: self.add_modifier & !modifier,
            sub_modifier: self.sub_modifier | modifier,
            ..self
        }
    }
}

/// The default style.
pub open spec fn plain_style() -> Style {
    Style { fg: None, bg: None, add_modifier: 0, sub_modifier: 0 }
}

/// A per-token style override from the user's config.
#[derive(Clone, Copy, Debug, PartialEq, Eq, Structural)]
pub struct SidebarTokenStyle {
    pub fg: Option<Color>,
    pub bold: Option<bool>,
    pub dim: Option<bool>,
}

/// `style` with a token's override applied: its foreground replaces the
/// style's, and its bold and dim switches add or remove those modifiers.
pub open spec fn spec_apply_token_style(style: Style, patch: SidebarTokenStyle) -> Style {
    let s1 = match patch.fg {
        Some(c) => Style { fg: Some(c), ..style },
        None => style,
    };
    let s2 = match patch.bold {
        Some(true) => Style {
            sub_modifier: s1.sub_modifier & !BOLD,
            add_modifier: s1.add_modifier | BOLD,
            ..s1
        },
        Some(false) => Style {
            add_modifier: s1.add_modifier & !BOLD,
            sub_modifier: s1.sub_modifier | BOLD,
            ..s1
        },
        None => s1,
    };
    match patch.dim {
        Some(true) => Style {
            sub_modifier: s2.sub_modifier & !DIM,
            add_modifier: s2.add_modifier | DIM,
            ..s2
        },
        Some(false) => Style {
            add_modifier: s2.add_modifier & !DIM,
            sub_modifier: s2.sub_modifier | DIM,
            ..s2
        },
        None => s2,
    }
}

/// Applies a token's style override on top of `style`.
pub fn apply_token_style(style: Style, patch: SidebarTokenStyle) -> (s: Style)
    ensures
        s == spec_apply_token_style(style, patch),
{
    let mut style = style;
    if let Some(foreground) = patch.fg {
        style = style.fg(foreground);
    }
    if let Some(bold) = patch.bold {
        style = if bold {
            style.add_modifier(BOLD)
        } else {
            style.remove_modifier(BOLD)
        };
    }
    if let Some(dim) = patch.dim {
        style = if dim {
            style.add_modifier(DIM)
        } else {
            style.remove_modifier(DIM)
        };
    }
    style
}

/// Brand-recognition style of an agent's name: its brand color when it has
/// one; the theme's text color in bold for brands without a color identity
/// (Grok, Cursor, OpenCode); `None` otherwise.
pub open spec fn spec_agent_brand_style(agent: Agent, p: Palette) -> Option<Style> {
    match spec_brand_rgb(agent) {
        Some(rgb) => Some(Style { fg: Some(Color::Rgb(rgb.0, rgb.1, rgb.2)), ..plain_style() }),
        None => match agent {
            Agent::Grok | Agent::Cursor | Agent::OpenCode => Some(
                Style { fg: Some(p.text), add_modifier: BOLD, ..plain_style() },
            ),
            _ => None,
        },
    }
}

/// Brand-recognition style for an agent's name token (and its logo).
pub fn agent_brand_style(agent: Agent, p: &Palette) -> (style: Option<Style>)
    ensures
        style == spec_agent_brand_style(agent, *p),
{
    if let Some(color) = agent_brand_color(agent) {
        return Some(Style::new().fg(color));
    }
    match agent {
        Agent::Grok | Agent::Cursor | Agent::OpenCode => {
            let s = Style::new().fg(p.text).add_modifier(BOLD);
            assert(0u16 & !1u16 == 0u16) by (bit_vector);
            assert(0u16 | 1u16 == 1u16) by (bit_vector);
            Some(s)
        },
        _ => None,
    }
}


/// A label and its logo never disagree: whenever an agent's name is styled
/// with an RGB foreground, its logo is tinted with exactly that color.
pub proof fn lemma_logo_tint_matches_the_label(agent: Agent, p: Palette)
    ensures
        spec_agent_brand_style(agent, p) matches Some(style) ==> (style.fg matches Some(
            Color::Rgb(r, g, b),
        ) ==> crate::agent_logo::spec_logo_tint(agent, p.text) == (r, g, b)),
{
}

// ---------------------------------------------------------------------------
// Text width and truncation
// ---------------------------------------------------------------------------

/// What `UnicodeWidthStr::width` returns for a string with these characters:
/// the number of terminal columns it occupies.
pub uninterp spec fn spec_display_width(s: Seq<char>) -> nat;

/// `UnicodeWidthStr::width`: the number of terminal columns `s` occupies.
/// Its result is named by [`spec_display_width`]; the Unicode width tables
/// are not restated. A string of printable ASCII characters (space to `~`)
/// is one column per character.
#[verifier::external_body]
pub(crate) fn display_width(s: &str) -> (width: usize)
    ensures
        width == spec_display_width(s@),
        (forall|i: int| 0 <= i < s@.len() ==> 0x20 <= (#[trigger] s@[i] as u32) <= 0x7e) ==> width
            == s@.len(),
{
    unicode_width::UnicodeWidthStr::width(s)
}

/// The ellipsis that marks truncated text.
pub open spec fn ellipsis() -> char {
    '\u{2026}'
}

/// The longest prefix length `k' <= k` whose width fits in `limit` (0 when
/// none does).
pub open spec fn fitting_prefix_len(text: Seq<char>, limit: int, k: int) -> int
    decreases k,
{
    if k <= 0 {
        0
    } else if spec_display_width(text.take(k)) <= limit {
        k
    } else {
        fitting_prefix_len(text, limit, k - 1)
    }
}

/// `text` cut to fit `max_width` columns: unchanged when it fits; otherwise
/// the longest prefix that leaves room for an ellipsis, then the ellipsis
/// (nothing at all when no column is available).
pub open spec fn spec_truncate_end(text: Seq<char>, max_width: int) -> Seq<char> {
    if spec_display_width(text) <= max_width {
        text
    } else if max_width <= 0 {
        Seq::empty()
    } else {
        text.take(fitting_prefix_len(text, max_width - 1, text.len() as int)).push(ellipsis())
    }
}

proof fn lemma_fitting_prefix_len_bounds(text: Seq<char>, limit: int, k: int)
    requires
        0 <= k <= text.len(),
    ensures
        0 <= fitting_prefix_len(text, limit, k) <= k,
    decreases k,
{
    if k > 0 {
        lemma_fitting_prefix_len_bounds(text, limit, k - 1);
    }
}

/// Cuts `text` to fit `max_width` columns, ending it with an ellipsis when
/// anything was cut.
pub fn truncate_end(text: &str, max_width: usize) -> (cut: String)
    ensures
        cut@ == spec_truncate_end(text@, max_width as int),
{
    if display_width(text) <= max_width {
        return text.to_owned();
    }
    if max_width == 0 {
        return String::new();
    }
    let chars = crate::text::chars_of(text);
    let mut k: usize = chars.len();
    let ghost full = chars@.len() as int;
    while k > 0
        invariant
            0 <= k <= chars@.len(),
            chars@ == text@,
            full == chars@.len(),
            max_width >= 1,
            fitting_prefix_len(text@, max_width - 1, full) == fitting_prefix_len(text@, max_width - 1, k as int),
        ensures
            fitting_prefix_len(text@, max_width - 1, full) == k,
        decreases k,
    {
        let mut prefix: Vec<char> = Vec::new();
        let mut j: usize = 0;
        while j < k
            invariant
                0 <= j <= k <= chars@.len(),
                prefix@ == chars@.take(j as int),
            decreases k - j,
        {
            prefix.push(chars[j]);
            assert(chars@.take(j + 1) =~= chars@.take(j as int).push(chars@[j as int]));
            j = j + 1;
        }
        let prefix_text = crate::text::string_from_chars(&prefix);
        if display_width(prefix_text.as_str()) <= max_width - 1 {
            break;
        }
        k = k - 1;
    }
    let mut out: Vec<char> = Vec::new();
    let mut j: usize = 0;
    while j < k
        invariant
            0 <= j <= k <= chars@.len(),
            out@ == chars@.take(j as int),
        decreases k - j,
    {
        out.push(chars[j]);
        assert(chars@.take(j + 1) =~= chars@.take(j as int).push(chars@[j as int]));
        j = j + 1;
    }
    out.push('\u{2026}');
    crate::text::string_from_chars(&out)
}


// ---------------------------------------------------------------------------
// Resolved tokens
// ---------------------------------------------------------------------------

/// What a sidebar row token shows.
#[derive(Clone, Debug)]
pub enum ResolvedTokenKind {
    StateIcon,
    StateText(String),
    Machine(String),
    Workspace(String),
    Tab(String),
    Pane(String),
    Agent(String),
    /// The agent's logo, or its name where no logo can be drawn.
    AgentIcon { fallback: String },
    GitStatus { ahead: usize, behind: usize },
    TerminalTitle(String),
    Branch(String),
    Custom(String),
}

/// The spec-level value of a [`ResolvedTokenKind`].
pub enum TokenKindView {
    StateIcon,
    StateText(Seq<char>),
    Machine(Seq<char>),
    Workspace(Seq<char>),
    Tab(Seq<char>),
    Pane(Seq<char>),
    Agent(Seq<char>),
    AgentIcon { fallback: Seq<char> },
    GitStatus { ahead: usize, behind: usize },
    TerminalTitle(Seq<char>),
    Branch(Seq<char>),
    Custom(Seq<char>),
}

impl View for ResolvedTokenKind {
    type V = TokenKindView;

    open spec fn view(&self) -> TokenKindView {
        match self {
            ResolvedTokenKind::StateIcon => TokenKindView::StateIcon,
            ResolvedTokenKind::StateText(t) => TokenKindView::StateText(t@),
            ResolvedTokenKind::Machine(t) => TokenKindView::Machine(t@),
            ResolvedTokenKind::Workspace(t) => TokenKindView::Workspace(t@),
            ResolvedTokenKind::Tab(t) => TokenKindView::Tab(t@),
            ResolvedTokenKind::Pane(t) => TokenKindView::Pane(t@),
            ResolvedTokenKind::Agent(t) => TokenKindView::Agent(t@),
            ResolvedTokenKind::AgentIcon { fallback } => TokenKindView::AgentIcon {
                fallback: fallback@,
            },
            ResolvedTokenKind::GitStatus { ahead, behind } => TokenKindView::GitStatus {
                ahead: *ahead,
                behind: *behind,
            },
            ResolvedTokenKind::TerminalTitle(t) => TokenKindView::TerminalTitle(t@),
            ResolvedTokenKind::Branch(t) => TokenKindView::Branch(t@),
            ResolvedTokenKind::Custom(t) => TokenKindView::Custom(t@),
        }
    }
}

/// A token of a sidebar row, with the user's style override for it.
#[derive(Clone, Debug)]
pub struct ResolvedToken {
    pub kind: ResolvedTokenKind,
    pub style: SidebarTokenStyle,
}

/// The spec-level value of a [`ResolvedToken`].
pub struct TokenView {
    pub kind: TokenKindView,
    pub style: SidebarTokenStyle,
}

impl View for ResolvedToken {
    type V = TokenView;

    open spec fn view(&self) -> TokenView {
        TokenView { kind: self.kind@, style: self.style }
    }
}

/// The style override that changes nothing.
pub open spec fn no_override() -> SidebarTokenStyle {
    SidebarTokenStyle { fg: None, bold: None, dim: None }
}

impl ResolvedToken {
    /// A token without a style override.
    pub fn unstyled(kind: ResolvedTokenKind) -> (token: ResolvedToken)
        ensures
            token.kind == kind,
            token.style == no_override(),
    {
        ResolvedToken { kind, style: SidebarTokenStyle { fg: None, bold: None, dim: None } }
    }
}

/// The spec-level values of a row's tokens.
pub open spec fn tokens_view(tokens: Seq<ResolvedToken>) -> Seq<TokenView> {
    tokens.map_values(|t: ResolvedToken| t@)
}

/// The text of a text-carrying token (an agent icon's fallback name included).
pub open spec fn token_text(kind: TokenKindView) -> Option<Seq<char>> {
    match kind {
        TokenKindView::StateText(t) => Some(t),
        TokenKindView::Machine(t) => Some(t),
        TokenKindView::Workspace(t) => Some(t),
        TokenKindView::Tab(t) => Some(t),
        TokenKindView::Pane(t) => Some(t),
        TokenKindView::Agent(t) => Some(t),
        TokenKindView::AgentIcon { fallback } => Some(fallback),
        TokenKindView::TerminalTitle(t) => Some(t),
        TokenKindView::Branch(t) => Some(t),
        TokenKindView::Custom(t) => Some(t),
        _ => None,
    }
}

/// `↑N`: commits ahead.
pub open spec fn ahead_text(n: usize) -> Seq<char> {
    seq!['\u{2191}'] + crate::theme_file::decimal_string(n as nat)
}

/// `↓N`: commits behind.
pub open spec fn behind_text(n: usize) -> Seq<char> {
    seq!['\u{2193}'] + crate::theme_file::decimal_string(n as nat)
}

/// Columns of a git status token: `↑N` when ahead, `↓N` when behind, and a
/// space between them when both.
pub open spec fn git_width(ahead: usize, behind: usize) -> int {
    (if ahead > 0 {
        spec_display_width(ahead_text(ahead)) as int
    } else {
        0
    }) + (if behind > 0 {
        spec_display_width(behind_text(behind)) as int
    } else {
        0
    }) + (if ahead > 0 && behind > 0 {
        1int
    } else {
        0
    })
}

/// Columns a token needs whatever the width: the state icon, a git status,
/// or a logo image that will be drawn.
pub open spec fn fixed_width(t: TokenView, icon_width: int, logo: bool) -> int {
    match t.kind {
        TokenKindView::StateIcon => icon_width,
        TokenKindView::GitStatus { ahead, behind } => git_width(ahead, behind),
        TokenKindView::AgentIcon { .. } => if logo {
            LOGO_COLS as int
        } else {
            0
        },
        _ => 0,
    }
}

/// Columns a text token would like; text can be cut down to fit. An agent
/// icon takes none when its logo is drawn (its box is fixed) or when the
/// row's own agent token already prints the name (it is elided).
pub open spec fn flexible_width(t: TokenView, logo: bool, names_agent: bool) -> int {
    if t.kind is AgentIcon && (logo || names_agent) {
        0
    } else {
        match token_text(t.kind) {
            Some(text) => spec_display_width(text) as int,
            None => 0,
        }
    }
}

/// Whether the row prints the agent name through its own `agent` token.
pub open spec fn row_names_agent(tokens: Seq<TokenView>) -> bool {
    exists|i: int| 0 <= i < tokens.len() && tokens[i].kind is Agent
}

/// Columns of the separator between two visible tokens. Every pair of
/// adjacent visible tokens is separated by a single space, whatever the two
/// tokens are.
pub open spec fn separator_width() -> int {
    spec_display_width(" "@) as int
}

/// Columns of a decimal number with a leading arrow.
fn arrow_number_width(arrow: char, n: usize) -> (r: (String, usize))
    ensures
        r.0@ == seq![arrow] + crate::theme_file::decimal_string(n as nat),
        r.1 == spec_display_width(r.0@),
{
    let digits = crate::theme_file::format_decimal(n);
    let mut chars: Vec<char> = vec![arrow];
    let mut k: usize = 0;
    while k < digits.len()
        invariant
            0 <= k <= digits@.len(),
            chars@ == seq![arrow] + digits@.take(k as int),
        decreases digits@.len() - k,
    {
        chars.push(digits[k]);
        assert(seq![arrow] + digits@.take(k + 1) =~= (seq![arrow] + digits@.take(k as int)).push(digits@[k as int]));
        k = k + 1;
    }
    assert(digits@.take(digits@.len() as int) =~= digits@);
    let text = crate::text::string_from_chars(&chars);
    let width = display_width(text.as_str());
    (text, width)
}

/// Columns a token needs whatever the width.
fn token_fixed_width(token: &ResolvedToken, icon_width: usize, logo_will_render: bool) -> (w: usize)
    requires
        fixed_width(token@, icon_width as int, logo_will_render) <= usize::MAX,
    ensures
        w == fixed_width(token@, icon_width as int, logo_will_render),
{
    match &token.kind {
        ResolvedTokenKind::StateIcon => icon_width,
        ResolvedTokenKind::GitStatus { ahead, behind } => {
            let up = if *ahead > 0 {
                arrow_number_width('\u{2191}', *ahead).1
            } else {
                0
            };
            let down = if *behind > 0 {
                arrow_number_width('\u{2193}', *behind).1
            } else {
                0
            };
            let gap: usize = if *ahead > 0 && *behind > 0 {
                1
            } else {
                0
            };
            up + down + gap
        },
        ResolvedTokenKind::AgentIcon { .. } => if logo_will_render {
            LOGO_COLS as usize
        } else {
            0
        },
        _ => 0,
    }
}

/// The text of a text-carrying token.
fn token_text_of(kind: &ResolvedTokenKind) -> (text: Option<&String>)
    ensures
        match token_text(kind@) {
            Some(t) => text matches Some(s) && s@ == t,
            None => text is None,
        },
{
    match kind {
        ResolvedTokenKind::StateText(t) => Some(t),
        ResolvedTokenKind::Machine(t) => Some(t),
        ResolvedTokenKind::Workspace(t) => Some(t),
        ResolvedTokenKind::Tab(t) => Some(t),
        ResolvedTokenKind::Pane(t) => Some(t),
        ResolvedTokenKind::Agent(t) => Some(t),
        ResolvedTokenKind::AgentIcon { fallback } => Some(fallback),
        ResolvedTokenKind::TerminalTitle(t) => Some(t),
        ResolvedTokenKind::Branch(t) => Some(t),
        ResolvedTokenKind::Custom(t) => Some(t),
        _ => None,
    }
}

/// Columns a text token would like.
fn token_flexible_width(token: &ResolvedToken, logo_will_render: bool, names_agent: bool) -> (w: usize)
    ensures
        w == flexible_width(token@, logo_will_render, names_agent),
{
    let is_icon = match &token.kind {
        ResolvedTokenKind::AgentIcon { .. } => true,
        _ => false,
    };
    if is_icon && (logo_will_render || names_agent) {
        return 0;
    }
    match token_text_of(&token.kind) {
        Some(text) => display_width(text.as_str()),
        None => 0,
    }
}


// ---------------------------------------------------------------------------
// Fitting a row into the sidebar width
// ---------------------------------------------------------------------------

/// Columns the active tokens among the first `k` need at minimum: their fixed
/// width plus one column for each text.
pub open spec fn content_sum(active: Seq<bool>, fixed: Seq<usize>, flex: Seq<usize>, k: int) -> int
    decreases k,
{
    if k <= 0 {
        0
    } else {
        content_sum(active, fixed, flex, k - 1) + if active[k - 1] {
            fixed[k - 1] as int + if flex[k - 1] > 0 {
                1int
            } else {
                0
            }
        } else {
            0
        }
    }
}

/// Number of active tokens among the first `k`.
pub open spec fn active_count(active: Seq<bool>, k: int) -> int
    decreases k,
{
    if k <= 0 {
        0
    } else {
        active_count(active, k - 1) + if active[k - 1] {
            1int
        } else {
            0
        }
    }
}

/// Columns of the separators between the active tokens among the first `k`.
pub open spec fn separator_sum(active: Seq<bool>, k: int) -> int
    decreases k,
{
    if k <= 0 {
        0
    } else {
        separator_sum(active, k - 1) + if active[k - 1] && active_count(active, k - 1) > 0 {
            separator_width()
        } else {
            0
        }
    }
}

/// Columns the active tokens need at minimum, separators included.
pub open spec fn minimum_width(active: Seq<bool>, fixed: Seq<usize>, flex: Seq<usize>) -> int {
    content_sum(active, fixed, flex, active.len() as int) + separator_sum(active, active.len() as int)
}

/// An upper bound on every width sum over the first `k` tokens.
pub open spec fn width_bound(fixed: Seq<usize>, flex: Seq<usize>, k: int) -> int
    decreases k,
{
    if k <= 0 {
        0
    } else {
        width_bound(fixed, flex, k - 1) + fixed[k - 1] + flex[k - 1] + 1 + separator_width()
    }
}

proof fn lemma_sums_bounded(active: Seq<bool>, fixed: Seq<usize>, flex: Seq<usize>, k: int)
    requires
        0 <= k <= active.len(),
        active.len() == fixed.len(),
        active.len() == flex.len(),
    ensures
        0 <= content_sum(active, fixed, flex, k),
        0 <= separator_sum(active, k),
        0 <= active_count(active, k) <= k,
        content_sum(active, fixed, flex, k) + separator_sum(active, k) <= width_bound(fixed, flex, k),
        0 <= width_bound(fixed, flex, k),
    decreases k,
{
    if k > 0 {
        lemma_sums_bounded(active, fixed, flex, k - 1);
    }
}

proof fn lemma_width_bound_grows(fixed: Seq<usize>, flex: Seq<usize>, j: int, k: int)
    requires
        0 <= j <= k <= fixed.len(),
        fixed.len() == flex.len(),
    ensures
        width_bound(fixed, flex, j) <= width_bound(fixed, flex, k),
    decreases k - j,
{
    if j < k {
        lemma_width_bound_grows(fixed, flex, j, k - 1);
    }
}

/// Minimum columns the active tokens need.
fn minimum_width_of(active: &Vec<bool>, fixed: &Vec<usize>, flex: &Vec<usize>, sw: usize) -> (w: usize)
    requires
        active@.len() == fixed@.len(),
        active@.len() == flex@.len(),
        sw == separator_width(),
        width_bound(fixed@, flex@, fixed@.len() as int) <= usize::MAX,
    ensures
        w == minimum_width(active@, fixed@, flex@),
{
    let n = active.len();
    let mut content: usize = 0;
    let mut count: usize = 0;
    let mut separators: usize = 0;
    let mut i: usize = 0;
    while i < n
        invariant
            n == active@.len(),
            active@.len() == fixed@.len(),
            active@.len() == flex@.len(),
            sw == separator_width(),
            width_bound(fixed@, flex@, fixed@.len() as int) <= usize::MAX,
            0 <= i <= n,
            content == content_sum(active@, fixed@, flex@, i as int),
            count == active_count(active@, i as int),
            separators == separator_sum(active@, i as int),
        decreases n - i,
    {
        proof {
            lemma_sums_bounded(active@, fixed@, flex@, i + 1);
            lemma_width_bound_grows(fixed@, flex@, i + 1, n as int);
        }
        if active[i] {
            if count > 0 {
                separators = separators + sw;
            }
            content = content + fixed[i] + if flex[i] > 0 {
                1
            } else {
                0
            };
            count = count + 1;
        }
        i = i + 1;
    }
    proof {
        lemma_sums_bounded(active@, fixed@, flex@, n as int);
    }
    content + separators
}

/// `active` with every text token switched off.
pub open spec fn drop_flexible(active: Seq<bool>, flex: Seq<usize>) -> Seq<bool> {
    Seq::new(active.len(), |i: int| if flex[i] > 0 { false } else { active[i] })
}

/// Switching text tokens back on from the last to the `i`th, each one kept
/// only when everything switched on still fits.
pub open spec fn refill(active: Seq<bool>, fixed: Seq<usize>, flex: Seq<usize>, max_width: int, i: int) -> Seq<bool>
    decreases active.len() - i,
{
    if i >= active.len() || i < 0 {
        active
    } else {
        let later = refill(active, fixed, flex, max_width, i + 1);
        if flex[i] == 0 {
            later
        } else {
            let tried = later.update(i, true);
            if minimum_width(tried, fixed, flex) > max_width {
                later.update(i, false)
            } else {
                tried
            }
        }
    }
}

proof fn lemma_refill_len(active: Seq<bool>, fixed: Seq<usize>, flex: Seq<usize>, max_width: int, i: int)
    ensures
        refill(active, fixed, flex, max_width, i).len() == active.len(),
    decreases active.len() - i,
{
    if 0 <= i < active.len() {
        lemma_refill_len(active, fixed, flex, max_width, i + 1);
    }
}

/// Which tokens are shown: all of them when their minimum widths fit;
/// otherwise every fixed-width token, plus the text tokens that still fit,
/// preferring the later ones.
pub open spec fn spec_visible_tokens(active: Seq<bool>, fixed: Seq<usize>, flex: Seq<usize>, max_width: int) -> Seq<bool> {
    if minimum_width(active, fixed, flex) > max_width {
        refill(drop_flexible(active, flex), fixed, flex, max_width, 0)
    } else {
        active
    }
}

/// Chooses which tokens are shown.
fn choose_visible_tokens(
    active: Vec<bool>,
    fixed: &Vec<usize>,
    flex: &Vec<usize>,
    sw: usize,
    max_width: usize,
) -> (visible: Vec<bool>)
    requires
        active@.len() == fixed@.len(),
        active@.len() == flex@.len(),
        sw == separator_width(),
        width_bound(fixed@, flex@, fixed@.len() as int) <= usize::MAX,
    ensures
        visible@ == spec_visible_tokens(active@, fixed@, flex@, max_width as int),
        visible@.len() == active@.len(),
{
    if minimum_width_of(&active, fixed, flex, sw) <= max_width {
        return active;
    }
    let n = active.len();
    let mut current = active;
    let mut i: usize = 0;
    while i < n
        invariant
            n == current@.len(),
            n == flex@.len(),
            0 <= i <= n,
            current@ == Seq::new(n as nat, |k: int| if k < i && flex@[k] > 0 { false } else { active@[k] }),
        decreases n - i,
    {
        if flex[i] > 0 {
            current.set(i, false);
        }
        assert(current@ =~= Seq::new(n as nat, |k: int| if k < i + 1 && flex@[k] > 0 { false } else { active@[k] }));
        i = i + 1;
    }
    let ghost dropped = current@;
    assert(dropped =~= drop_flexible(active@, flex@));
    proof {
        lemma_refill_len(dropped, fixed@, flex@, max_width as int, n as int);
    }
    let mut index: usize = n;
    while index > 0
        invariant
            0 <= index <= n,
            n == flex@.len(),
            n == fixed@.len(),
            n == dropped.len(),
            sw == separator_width(),
            width_bound(fixed@, flex@, fixed@.len() as int) <= usize::MAX,
            current@ == refill(dropped, fixed@, flex@, max_width as int, index as int),
            current@.len() == n,
        decreases index,
    {
        index = index - 1;
        proof {
            lemma_refill_len(dropped, fixed@, flex@, max_width as int, index + 1);
        }
        if flex[index] > 0 {
            current.set(index, true);
            if minimum_width_of(&current, fixed, flex, sw) > max_width {
                current.set(index, false);
                assert(current@ =~= refill(dropped, fixed@, flex@, max_width as int, index + 1).update(
                    index as int,
                    false,
                ));
            }
        }
    }
    current
}

/// The columns fixed-width tokens take among the first `k` active ones.
pub open spec fn fixed_sum(active: Seq<bool>, fixed: Seq<usize>, k: int) -> int
    decreases k,
{
    if k <= 0 {
        0
    } else {
        fixed_sum(active, fixed, k - 1) + if active[k - 1] {
            fixed[k - 1] as int
        } else {
            0
        }
    }
}

/// Sum of the first `k` budgets.
pub open spec fn budget_sum(b: Seq<usize>, k: int) -> int
    decreases k,
{
    if k <= 0 {
        0
    } else {
        budget_sum(b, k - 1) + b[k - 1]
    }
}

/// One round of growing budgets: each text budget still short of its text's
/// width grows by one column, in order, until the spare columns run out.
pub open spec fn grow_pass(b: Seq<usize>, flex: Seq<usize>, rem: int, i: int, grew: bool) -> (Seq<usize>, int, bool)
    decreases flex.len() - i,
{
    if i >= flex.len() || i < 0 {
        (b, rem, grew)
    } else if b[i] > 0 && b[i] < flex[i] {
        let b1 = b.update(i, (b[i] + 1) as usize);
        if rem - 1 == 0 {
            (b1, 0, true)
        } else {
            grow_pass(b1, flex, rem - 1, i + 1, true)
        }
    } else {
        grow_pass(b, flex, rem, i + 1, grew)
    }
}

/// Growing budgets round by round until the spare columns run out or no
/// budget can grow.
pub open spec fn grow_budgets(b: Seq<usize>, flex: Seq<usize>, rem: int) -> Seq<usize>
    decreases rem,
{
    if rem <= 0 {
        b
    } else {
        let r = grow_pass(b, flex, rem, 0, false);
        if r.2 && 0 <= r.1 < rem {
            grow_budgets(r.0, flex, r.1)
        } else {
            r.0
        }
    }
}

/// The column budget of each token: every shown text gets one column, then
/// the spare columns are handed out round by round.
pub open spec fn spec_token_budgets(visible: Seq<bool>, fixed: Seq<usize>, flex: Seq<usize>, max_width: int) -> Seq<usize> {
    let n = visible.len() as int;
    let b0 = Seq::new(visible.len(), |i: int| if visible[i] && flex[i] > 0 { 1usize } else { 0usize });
    let used = separator_sum(visible, n) + fixed_sum(visible, fixed, n);
    let spare = if max_width > used { max_width - used } else { 0 };
    let rem = if spare > budget_sum(b0, n) { spare - budget_sum(b0, n) } else { 0 };
    grow_budgets(b0, flex, rem)
}

proof fn lemma_grow_pass(b: Seq<usize>, flex: Seq<usize>, rem: int, i: int, grew: bool)
    requires
        b.len() == flex.len(),
        rem > 0,
        0 <= i <= flex.len(),
        forall|k: int| 0 <= k < b.len() ==> b[k] <= flex[k],
    ensures
        ({
            let r = grow_pass(b, flex, rem, i, grew);
            &&& r.0.len() == b.len()
            &&& 0 <= r.1 <= rem
            &&& (r.2 && !grew ==> r.1 < rem)
            &&& (!r.2 ==> r.1 == rem && r.0 == b)
            &&& (grew ==> r.2)
            &&& forall|k: int| 0 <= k < b.len() ==> r.0[k] <= flex[k] && b[k] <= r.0[k]
        }),
    decreases flex.len() - i,
{
    if i < flex.len() {
        if b[i] > 0 && b[i] < flex[i] {
            let b1 = b.update(i, (b[i] + 1) as usize);
            assert(forall|k: int| 0 <= k < b.len() ==> b1[k] <= flex[k] && b[k] <= b1[k]);
            if rem - 1 != 0 {
                lemma_grow_pass(b1, flex, rem - 1, i + 1, true);
            }
        } else {
            lemma_grow_pass(b, flex, rem, i + 1, grew);
        }
    }
}

/// Hands out the spare columns as token budgets.
fn token_budgets(visible: &Vec<bool>, fixed: &Vec<usize>, flex: &Vec<usize>, sw: usize, max_width: usize) -> (budgets: Vec<usize>)
    requires
        visible@.len() == fixed@.len(),
        visible@.len() == flex@.len(),
        sw == separator_width(),
        width_bound(fixed@, flex@, fixed@.len() as int) <= usize::MAX,
    ensures
        budgets@ == spec_token_budgets(visible@, fixed@, flex@, max_width as int),
        budgets@.len() == visible@.len(),
{
    let n = visible.len();
    let ghost b0 = Seq::new(visible@.len(), |i: int| if visible@[i] && flex@[i] > 0 { 1usize } else { 0usize });
    let mut budgets: Vec<usize> = Vec::new();
    let mut separators: usize = 0;
    let mut fixed_total: usize = 0;
    let mut count: usize = 0;
    let mut minimum: usize = 0;
    let mut i: usize = 0;
    while i < n
        invariant
            n == visible@.len(),
            visible@.len() == fixed@.len(),
            visible@.len() == flex@.len(),
            sw == separator_width(),
            width_bound(fixed@, flex@, fixed@.len() as int) <= usize::MAX,
            b0 == Seq::new(visible@.len(), |i: int| if visible@[i] && flex@[i] > 0 { 1usize } else { 0usize }),
            0 <= i <= n,
            budgets@ == b0.take(i as int),
            separators == separator_sum(visible@, i as int),
            fixed_total == fixed_sum(visible@, fixed@, i as int),
            count == active_count(visible@, i as int),
            minimum == budget_sum(b0, i as int),
            separators + fixed_total + minimum <= width_bound(fixed@, flex@, i as int),
        decreases n - i,
    {
        proof {
            lemma_sums_bounded(visible@, fixed@, flex@, i + 1);
            lemma_width_bound_grows(fixed@, flex@, i + 1, n as int);
        }
        assert(b0.take(i + 1).drop_last() =~= b0.take(i as int));
        if visible[i] {
            if count > 0 {
                separators = separators + sw;
            }
            fixed_total = fixed_total + fixed[i];
            count = count + 1;
        }
        let b: usize = if visible[i] && flex[i] > 0 {
            1
        } else {
            0
        };
        budgets.push(b);
        minimum = minimum + b;
        assert(budgets@ =~= b0.take(i + 1));
        i = i + 1;
    }
    assert(b0.take(n as int) =~= b0);
    let mut remaining = max_width.saturating_sub(separators + fixed_total).saturating_sub(minimum);
    let ghost rem0 = remaining as int;
    assert(forall|k: int| 0 <= k < budgets@.len() ==> budgets@[k] <= flex@[k]);
    while remaining > 0
        invariant
            n == budgets@.len(),
            n == flex@.len(),
            forall|k: int| 0 <= k < budgets@.len() ==> budgets@[k] <= flex@[k],
            grow_budgets(budgets@, flex@, remaining as int) == grow_budgets(b0, flex@, rem0),
        ensures
            budgets@ == grow_budgets(b0, flex@, rem0),
        decreases remaining,
    {
        let ghost start = budgets@;
        let ghost start_rem = remaining as int;
        let mut grew = false;
        let mut i: usize = 0;
        while i < n
            invariant_except_break
                remaining > 0,
                grow_pass(start, flex@, start_rem, 0, false) == grow_pass(budgets@, flex@, remaining as int, i as int, grew),
            invariant
                n == budgets@.len(),
                n == flex@.len(),
                0 <= i <= n,
                forall|k: int| 0 <= k < budgets@.len() ==> budgets@[k] <= flex@[k],
            ensures
                forall|k: int| 0 <= k < budgets@.len() ==> budgets@[k] <= flex@[k],
                n == budgets@.len(),
                grow_pass(start, flex@, start_rem, 0, false) == (budgets@, remaining as int, grew),
            decreases n - i,
        {
            if budgets[i] > 0 && budgets[i] < flex[i] {
                let ghost before = budgets@;
                let ghost before_rem = remaining as int;
                let ghost before_grew = grew;
                let grown = budgets[i] + 1;
                budgets.set(i, grown);
                remaining = remaining - 1;
                grew = true;
                assert(budgets@ == before.update(i as int, (before[i as int] + 1) as usize));
                if remaining == 0 {
                    assert(grow_pass(before, flex@, before_rem, i as int, before_grew) == (budgets@, 0int, true));
                    break;
                }
            }
            i = i + 1;
        }
        proof {
            lemma_grow_pass(start, flex@, start_rem, 0, false);
        }
        if !grew {
            break;
        }
    }
    budgets
}


// ---------------------------------------------------------------------------
// Rendering a row
// ---------------------------------------------------------------------------

/// A run of styled text.
#[derive(Clone, Debug)]
pub struct Span {
    pub content: String,
    pub style: Style,
}

/// The spec-level value of a [`Span`].
pub struct SpanView {
    pub content: Seq<char>,
    pub style: Style,
}

impl View for Span {
    type V = SpanView;

    open spec fn view(&self) -> SpanView {
        SpanView { content: self.content@, style: self.style }
    }
}

/// The spans of a row by value.
pub open spec fn spans_view(spans: Seq<Span>) -> Seq<SpanView> {
    spans.map_values(|s: Span| s@)
}

/// A rendered row: its spans and, when a logo image will be drawn, the
/// column (from the start of the row) to place it at.
#[derive(Debug)]
pub struct ResolvedTokenLine {
    pub spans: Vec<Span>,
    pub logo_column: Option<u16>,
}

/// What a row is rendered with besides its tokens.
pub struct LineContext {
    pub icon_text: Seq<char>,
    pub icon_style: Style,
    pub state_text_style: Style,
    pub workspace_style: Style,
    pub secondary_style: Style,
    pub custom_style: Style,
    pub palette: Palette,
    pub agent: Option<Agent>,
    pub logo: bool,
    pub names_agent: bool,
}

/// The spans so far, the column the next one starts at, and the logo's
/// column once placed.
pub struct RenderState {
    pub spans: Seq<SpanView>,
    pub column: u16,
    pub logo_column: Option<u16>,
}

/// `column` advanced by `width` columns (as a `u16`), saturating.
pub open spec fn advance(column: u16, width: int) -> u16 {
    let w = width as u16;
    if column + w > u16::MAX {
        u16::MAX
    } else {
        (column + w) as u16
    }
}

/// `st` with a span appended that is `width` columns wide.
pub open spec fn push_span(st: RenderState, content: Seq<char>, style: Style, width: int) -> RenderState {
    RenderState {
        spans: st.spans.push(SpanView { content, style }),
        column: advance(st.column, width),
        ..st
    }
}

/// `st` with a text token's text, cut to its budget, appended.
pub open spec fn push_text(st: RenderState, text: Seq<char>, budget: int, base: Style, patch: SidebarTokenStyle) -> RenderState {
    let cut = spec_truncate_end(text, budget);
    push_span(st, cut, spec_apply_token_style(base, patch), spec_display_width(cut) as int)
}

/// The style of an agent's name: its brand style, or the secondary style.
pub open spec fn agent_name_style(ctx: LineContext) -> Style {
    match ctx.agent {
        Some(a) => match spec_agent_brand_style(a, ctx.palette) {
            Some(s) => s,
            None => ctx.secondary_style,
        },
        None => ctx.secondary_style,
    }
}

/// The style of the separator between tokens: dim, in the palette's
/// overlay color.
pub open spec fn separator_style(p: Palette) -> Style {
    Style { fg: Some(p.overlay0), add_modifier: DIM, ..plain_style() }
}

/// The style with only a foreground.
pub open spec fn fg_style(c: Color) -> Style {
    Style { fg: Some(c), ..plain_style() }
}

/// Appending one token.
pub open spec fn render_token(st: RenderState, t: TokenView, budget: int, ctx: LineContext) -> RenderState {
    match t.kind {
        TokenKindView::StateIcon => push_span(
            st,
            ctx.icon_text,
            spec_apply_token_style(ctx.icon_style, t.style),
            spec_display_width(ctx.icon_text) as int,
        ),
        TokenKindView::StateText(x) => push_text(st, x, budget, ctx.state_text_style, t.style),
        TokenKindView::Workspace(x) => push_text(st, x, budget, ctx.workspace_style, t.style),
        TokenKindView::Tab(x) => push_text(st, x, budget, fg_style(ctx.palette.teal), t.style),
        TokenKindView::Agent(x) => push_text(st, x, budget, agent_name_style(ctx), t.style),
        TokenKindView::AgentIcon { fallback } => if ctx.logo {
            RenderState {
                spans: st.spans.push(SpanView { content: seq![' ', ' '], style: plain_style() }),
                column: advance(st.column, LOGO_COLS as int),
                logo_column: Some(st.column),
            }
        } else if !ctx.names_agent {
            push_text(st, fallback, budget, agent_name_style(ctx), t.style)
        } else {
            st
        },
        TokenKindView::Machine(x) => push_text(st, x, budget, ctx.secondary_style, t.style),
        TokenKindView::Pane(x) => push_text(st, x, budget, ctx.secondary_style, t.style),
        TokenKindView::Branch(x) => push_text(st, x, budget, ctx.secondary_style, t.style),
        TokenKindView::GitStatus { ahead, behind } => {
            let st1 = if ahead > 0 {
                push_span(
                    st,
                    ahead_text(ahead),
                    spec_apply_token_style(fg_style(ctx.palette.green), t.style),
                    spec_display_width(ahead_text(ahead)) as int,
                )
            } else {
                st
            };
            let st2 = if ahead > 0 && behind > 0 {
                push_span(st1, seq![' '], spec_apply_token_style(plain_style(), t.style), 1)
            } else {
                st1
            };
            if behind > 0 {
                push_span(
                    st2,
                    behind_text(behind),
                    spec_apply_token_style(fg_style(ctx.palette.red), t.style),
                    spec_display_width(behind_text(behind)) as int,
                )
            } else {
                st2
            }
        },
        TokenKindView::TerminalTitle(x) => push_text(st, x, budget, ctx.custom_style, t.style),
        TokenKindView::Custom(x) => push_text(st, x, budget, ctx.custom_style, t.style),
    }
}

/// Rendering the visible tokens among the first `k`, a separator (a single
/// space, dim in the palette's overlay color) before every visible token but
/// the first.
pub open spec fn render_upto(tokens: Seq<TokenView>, visible: Seq<bool>, budgets: Seq<usize>, ctx: LineContext, k: int) -> RenderState
    decreases k,
{
    if k <= 0 {
        RenderState { spans: Seq::empty(), column: 0, logo_column: None }
    } else {
        let st = render_upto(tokens, visible, budgets, ctx, k - 1);
        if visible[k - 1] {
            let st1 = if active_count(visible, k - 1) > 0 {
                push_span(st, " "@, separator_style(ctx.palette), separator_width())
            } else {
                st
            };
            render_token(st1, tokens[k - 1], budgets[k - 1] as int, ctx)
        } else {
            st
        }
    }
}

/// The tokens shown before any is dropped for width: all of them, except an
/// agent icon that would only repeat the name the row already prints.
pub open spec fn initially_shown(tokens: Seq<TokenView>, logo: bool, names_agent: bool) -> Seq<bool> {
    Seq::new(tokens.len(), |i: int| !(names_agent && !logo && tokens[i].kind is AgentIcon))
}

/// The fixed widths of a row's tokens.
pub open spec fn fixed_widths(tokens: Seq<TokenView>, icon_width: int, logo: bool) -> Seq<usize> {
    Seq::new(tokens.len(), |i: int| fixed_width(tokens[i], icon_width, logo) as usize)
}

/// The flexible widths of a row's tokens.
pub open spec fn flexible_widths(tokens: Seq<TokenView>, logo: bool, names_agent: bool) -> Seq<usize> {
    Seq::new(tokens.len(), |i: int| flexible_width(tokens[i], logo, names_agent) as usize)
}

/// The widths of a row fit in machine integers.
pub open spec fn row_widths_fit(tokens: Seq<TokenView>, icon_text: Seq<char>, logo: bool) -> bool {
    let names = row_names_agent(tokens);
    let icon_width = spec_display_width(icon_text) as int;
    &&& forall|i: int| 0 <= i < tokens.len() ==> fixed_width(#[trigger] tokens[i], icon_width, logo) <= usize::MAX
    &&& width_bound(fixed_widths(tokens, icon_width, logo), flexible_widths(tokens, logo, names), tokens.len() as int) <= usize::MAX
}

/// A row of tokens fitted into `max_width` columns: the tokens whose minimum
/// widths fit are shown (fixed-width ones always, text ones preferring the
/// later ones), each shown text gets a column budget (one column, then the
/// spare columns round by round) and is cut to it, and separators go between
/// shown tokens. A logo that will be drawn gets a fixed box, and its column
/// is reported.
pub open spec fn spec_resolved_token_spans(tokens: Seq<TokenView>, ctx: LineContext, max_width: int) -> RenderState {
    let icon_width = spec_display_width(ctx.icon_text) as int;
    let fixed = fixed_widths(tokens, icon_width, ctx.logo);
    let flex = flexible_widths(tokens, ctx.logo, ctx.names_agent);
    let shown = initially_shown(tokens, ctx.logo, ctx.names_agent);
    let visible = spec_visible_tokens(shown, fixed, flex, max_width);
    let budgets = spec_token_budgets(visible, fixed, flex, max_width);
    render_upto(tokens, visible, budgets, ctx, tokens.len() as int)
}

/// Rendering state while a row is built.
struct LineBuilder {
    spans: Vec<Span>,
    column: u16,
    logo_column: Option<u16>,
}

impl LineBuilder {
    spec fn view(&self) -> RenderState {
        RenderState { spans: spans_view(self.spans@), column: self.column, logo_column: self.logo_column }
    }

    fn push(&mut self, content: String, style: Style, width: usize)
        ensures
            final(self).view() == push_span(old(self).view(), content@, style, width as int),
    {
        let ghost before = self.spans@;
        let ghost cv = content@;
        self.spans.push(Span { content, style });
        assert(spans_view(self.spans@) =~= spans_view(before).push(SpanView { content: cv, style }));
        self.column = self.column.saturating_add(width as u16);
    }

    fn push_text(&mut self, text: &str, budget: usize, base: Style, patch: SidebarTokenStyle)
        ensures
            final(self).view() == push_text(old(self).view(), text@, budget as int, base, patch),
    {
        let cut = truncate_end(text, budget);
        let width = display_width(cut.as_str());
        self.push(cut, apply_token_style(base, patch), width);
    }
}

/// Fits a row of resolved tokens into `max_width` columns and renders it.
pub fn resolved_token_spans(
    resolved: &Vec<ResolvedToken>,
    state_icon: (&str, Style),
    state_text_style: Style,
    workspace_style: Style,
    secondary_style: Style,
    custom_style: Style,
    palette: &Palette,
    max_width: usize,
    agent: Option<Agent>,
    logo_will_render: bool,
) -> (line: ResolvedTokenLine)
    requires
        row_widths_fit(tokens_view(resolved@), state_icon.0@, logo_will_render),
    ensures
        ({
            let ctx = LineContext {
                icon_text: state_icon.0@,
                icon_style: state_icon.1,
                state_text_style,
                workspace_style,
                secondary_style,
                custom_style,
                palette: *palette,
                agent,
                logo: logo_will_render,
                names_agent: row_names_agent(tokens_view(resolved@)),
            };
            let expected = spec_resolved_token_spans(tokens_view(resolved@), ctx, max_width as int);
            spans_view(line.spans@) == expected.spans && line.logo_column == expected.logo_column
        }),
{
    let ghost tv = tokens_view(resolved@);
    let n = resolved.len();
    // Whether this row prints the agent name through its own `agent` token.
    let mut names_agent = false;
    let mut i: usize = 0;
    while i < n
        invariant
            n == resolved@.len(),
            tv == tokens_view(resolved@),
            0 <= i <= n,
            names_agent == exists|k: int| 0 <= k < i && tv[k].kind is Agent,
        decreases n - i,
    {
        let is_agent = match &resolved[i].kind {
            ResolvedTokenKind::Agent(_) => true,
            _ => false,
        };
        assert(tv[i as int] == resolved@[i as int]@);
        if is_agent {
            names_agent = true;
        }
        i = i + 1;
    }
    let ghost ctx = LineContext {
        icon_text: state_icon.0@,
        icon_style: state_icon.1,
        state_text_style,
        workspace_style,
        secondary_style,
        custom_style,
        palette: *palette,
        agent,
        logo: logo_will_render,
        names_agent,
    };
    let icon_width = display_width(state_icon.0);
    let sw = display_width(" ");
    let ghost fixed_spec = fixed_widths(tv, icon_width as int, logo_will_render);
    let ghost flex_spec = flexible_widths(tv, logo_will_render, names_agent);
    let mut fixed: Vec<usize> = Vec::new();
    let mut flex: Vec<usize> = Vec::new();
    let mut shown: Vec<bool> = Vec::new();
    let mut i: usize = 0;
    while i < n
        invariant
            n == resolved@.len(),
            tv == tokens_view(resolved@),
            0 <= i <= n,
            row_widths_fit(tv, state_icon.0@, logo_will_render),
            names_agent == row_names_agent(tv),
            icon_width == spec_display_width(state_icon.0@),
            fixed_spec == fixed_widths(tv, icon_width as int, logo_will_render),
            flex_spec == flexible_widths(tv, logo_will_render, names_agent),
            fixed@ == fixed_spec.take(i as int),
            flex@ == flex_spec.take(i as int),
            shown@ == initially_shown(tv, logo_will_render, names_agent).take(i as int),
        decreases n - i,
    {
        let token = &resolved[i];
        assert(tv[i as int] == token@);
        let f = token_fixed_width(token, icon_width, logo_will_render);
        let x = token_flexible_width(token, logo_will_render, names_agent);
        let is_icon = match &token.kind {
            ResolvedTokenKind::AgentIcon { .. } => true,
            _ => false,
        };
        fixed.push(f);
        flex.push(x);
        shown.push(!(names_agent && !logo_will_render && is_icon));
        assert(fixed@ =~= fixed_spec.take(i + 1));
        assert(flex@ =~= flex_spec.take(i + 1));
        assert(shown@ =~= initially_shown(tv, logo_will_render, names_agent).take(i + 1));
        i = i + 1;
    }
    assert(fixed_spec.take(n as int) =~= fixed_spec);
    assert(flex_spec.take(n as int) =~= flex_spec);
    assert(initially_shown(tv, logo_will_render, names_agent).take(n as int) =~= initially_shown(tv, logo_will_render, names_agent));
    let visible = choose_visible_tokens(shown, &fixed, &flex, sw, max_width);
    let budgets = token_budgets(&visible, &fixed, &flex, sw, max_width);
    let ghost budgets_spec = budgets@;
    let mut line = LineBuilder { spans: Vec::new(), column: 0, logo_column: None };
    assert(line.view().spans =~= Seq::<SpanView>::empty());
    let mut position: usize = 0;
    let mut i: usize = 0;
    while i < n
        invariant
            n == resolved@.len(),
            n == visible@.len(),
            n == budgets@.len(),
            tv == tokens_view(resolved@),
            0 <= i <= n,
            position == active_count(visible@, i as int),
            position <= i,
            sw == separator_width(),
            icon_width == spec_display_width(state_icon.0@),
            ctx == (LineContext {
                icon_text: state_icon.0@,
                icon_style: state_icon.1,
                state_text_style,
                workspace_style,
                secondary_style,
                custom_style,
                palette: *palette,
                agent,
                logo: logo_will_render,
                names_agent,
            }),
            line.view() == render_upto(tv, visible@, budgets@, ctx, i as int),
        decreases n - i,
    {
        if visible[i] {
            if position > 0 {
                let separator_style = Style::new().fg(palette.overlay0).add_modifier(DIM);
                assert(0u16 & !2u16 == 0u16) by (bit_vector);
                assert(0u16 | 2u16 == 2u16) by (bit_vector);
                line.push(" ".to_owned(), separator_style, sw);
            }
            let token = &resolved[i];
            assert(tv[i as int] == token@);
            let budget = budgets[i];
            match &token.kind {
                ResolvedTokenKind::StateIcon => {
                    line.push(state_icon.0.to_owned(), apply_token_style(state_icon.1, token.style), icon_width);
                },
                ResolvedTokenKind::StateText(text) => {
                    line.push_text(text.as_str(), budget, state_text_style, token.style);
                },
                ResolvedTokenKind::Workspace(text) => {
                    line.push_text(text.as_str(), budget, workspace_style, token.style);
                },
                ResolvedTokenKind::Tab(text) => {
                    line.push_text(text.as_str(), budget, Style::new().fg(palette.teal), token.style);
                },
                ResolvedTokenKind::Agent(text) => {
                    let base = match agent {
                        Some(a) => match agent_brand_style(a, palette) {
                            Some(s) => s,
                            None => secondary_style,
                        },
                        None => secondary_style,
                    };
                    line.push_text(text.as_str(), budget, base, token.style);
                },
                ResolvedTokenKind::AgentIcon { fallback } => {
                    if logo_will_render {
                        line.logo_column = Some(line.column);
                        let boxed = vec![' ', ' '];
                        assert(boxed@ =~= seq![' ', ' ']);
                        line.push(crate::text::string_from_chars(&boxed), Style::new(), LOGO_COLS as usize);
                    } else if !names_agent {
                        let base = match agent {
                            Some(a) => match agent_brand_style(a, palette) {
                                Some(s) => s,
                                None => secondary_style,
                            },
                            None => secondary_style,
                        };
                        line.push_text(fallback.as_str(), budget, base, token.style);
                    }
                },
                ResolvedTokenKind::Machine(text) => {
                    line.push_text(text.as_str(), budget, secondary_style, token.style);
                },
                ResolvedTokenKind::Pane(text) => {
                    line.push_text(text.as_str(), budget, secondary_style, token.style);
                },
                ResolvedTokenKind::Branch(text) => {
                    line.push_text(text.as_str(), budget, secondary_style, token.style);
                },
                ResolvedTokenKind::GitStatus { ahead, behind } => {
                    if *ahead > 0 {
                        let (text, width) = arrow_number_width('\u{2191}', *ahead);
                        line.push(text, apply_token_style(Style::new().fg(palette.green), token.style), width);
                    }
                    if *ahead > 0 && *behind > 0 {
                        let gap = vec![' '];
                        assert(gap@ =~= seq![' ']);
                        line.push(crate::text::string_from_chars(&gap), apply_token_style(Style::new(), token.style), 1);
                    }
                    if *behind > 0 {
                        let (text, width) = arrow_number_width('\u{2193}', *behind);
                        line.push(text, apply_token_style(Style::new().fg(palette.red), token.style), width);
                    }
                },
                ResolvedTokenKind::TerminalTitle(text) => {
                    line.push_text(text.as_str(), budget, custom_style, token.style);
                },
                ResolvedTokenKind::Custom(text) => {
                    line.push_text(text.as_str(), budget, custom_style, token.style);
                },
            }
            position = position + 1;
        }
        i = i + 1;
    }
    ResolvedTokenLine { spans: line.spans, logo_column: line.logo_column }
}


/// Columns a token needs whatever the width, or `None` where that number
/// does not fit in a `usize`.
fn checked_fixed_width(token: &ResolvedToken, icon_width: usize, logo_will_render: bool) -> (w: Option<usize>)
    ensures
        w == (if fixed_width(token@, icon_width as int, logo_will_render) <= usize::MAX {
            Some(fixed_width(token@, icon_width as int, logo_will_render) as usize)
        } else {
            None
        }),
{
    match &token.kind {
        ResolvedTokenKind::GitStatus { ahead, behind } => {
            let up = if *ahead > 0 {
                arrow_number_width('\u{2191}', *ahead).1
            } else {
                0
            };
            let down = if *behind > 0 {
                arrow_number_width('\u{2193}', *behind).1
            } else {
                0
            };
            let gap: usize = if *ahead > 0 && *behind > 0 {
                1
            } else {
                0
            };
            match up.checked_add(down) {
                Some(both) => both.checked_add(gap),
                None => None,
            }
        },
        _ => Some(token_fixed_width(token, icon_width, logo_will_render)),
    }
}

/// Renders a row as [`resolved_token_spans`] does, first checking that the
/// row's column counts fit in machine integers: `None` exactly when they do
/// not (a row no terminal could show).
pub fn render_token_row(
    resolved: &Vec<ResolvedToken>,
    state_icon: (&str, Style),
    state_text_style: Style,
    workspace_style: Style,
    secondary_style: Style,
    custom_style: Style,
    palette: &Palette,
    max_width: usize,
    agent: Option<Agent>,
    logo_will_render: bool,
) -> (line: Option<ResolvedTokenLine>)
    ensures
        line is Some <==> row_widths_fit(tokens_view(resolved@), state_icon.0@, logo_will_render),
        line matches Some(l) ==> ({
            let ctx = LineContext {
                icon_text: state_icon.0@,
                icon_style: state_icon.1,
                state_text_style,
                workspace_style,
                secondary_style,
                custom_style,
                palette: *palette,
                agent,
                logo: logo_will_render,
                names_agent: row_names_agent(tokens_view(resolved@)),
            };
            let expected = spec_resolved_token_spans(tokens_view(resolved@), ctx, max_width as int);
            spans_view(l.spans@) == expected.spans && l.logo_column == expected.logo_column
        }),
{
    let ghost tv = tokens_view(resolved@);
    let n = resolved.len();
    let mut names_agent = false;
    let mut i: usize = 0;
    while i < n
        invariant
            n == resolved@.len(),
            tv == tokens_view(resolved@),
            0 <= i <= n,
            names_agent == exists|k: int| 0 <= k < i && tv[k].kind is Agent,
        decreases n - i,
    {
        let is_agent = match &resolved[i].kind {
            ResolvedTokenKind::Agent(_) => true,
            _ => false,
        };
        assert(tv[i as int] == resolved@[i as int]@);
        if is_agent {
            names_agent = true;
        }
        i = i + 1;
    }
    let icon_width = display_width(state_icon.0);
    let sw = display_width(" ");
    let ghost fixed_spec = fixed_widths(tv, icon_width as int, logo_will_render);
    let ghost flex_spec = flexible_widths(tv, logo_will_render, names_agent);
    let mut bound: usize = 0;
    let mut i: usize = 0;
    while i < n
        invariant
            n == resolved@.len(),
            tv == tokens_view(resolved@),
            0 <= i <= n,
            names_agent == row_names_agent(tv),
            icon_width == spec_display_width(state_icon.0@),
            sw == separator_width(),
            fixed_spec == fixed_widths(tv, icon_width as int, logo_will_render),
            flex_spec == flexible_widths(tv, logo_will_render, names_agent),
            forall|k: int| 0 <= k < i ==> fixed_width(#[trigger] tv[k], icon_width as int, logo_will_render) <= usize::MAX,
            bound == width_bound(fixed_spec, flex_spec, i as int),
        decreases n - i,
    {
        let token = &resolved[i];
        assert(tv[i as int] == token@);
        let f = match checked_fixed_width(token, icon_width, logo_will_render) {
            Some(f) => f,
            None => {
                return None;
            },
        };
        let x = token_flexible_width(token, logo_will_render, names_agent);
        assert(fixed_spec[i as int] == f && flex_spec[i as int] == x);
        let next = match bound.checked_add(f) {
            Some(a) => match a.checked_add(x) {
                Some(b) => match b.checked_add(1) {
                    Some(c) => c.checked_add(sw),
                    None => None,
                },
                None => None,
            },
            None => None,
        };
        match next {
            Some(b) => {
                bound = b;
            },
            None => {
                proof {
                    lemma_width_bound_grows(fixed_spec, flex_spec, i + 1, n as int);
                }
                return None;
            },
        }
        i = i + 1;
    }
    Some(resolved_token_spans(
        resolved,
        state_icon,
        state_text_style,
        workspace_style,
        secondary_style,
        custom_style,
        palette,
        max_width,
        agent,
        logo_will_render,
    ))
}

// ---------------------------------------------------------------------------
// Laws of the row layout
// ---------------------------------------------------------------------------

proof fn lemma_refill_fits(active: Seq<bool>, fixed: Seq<usize>, flex: Seq<usize>, max_width: int, i: int)
    requires
        0 <= i <= active.len(),
        minimum_width(active, fixed, flex) <= max_width,
        forall|k: int| 0 <= k < active.len() && flex[k] > 0 ==> !#[trigger] active[k],
    ensures
        minimum_width(refill(active, fixed, flex, max_width, i), fixed, flex) <= max_width,
    decreases active.len() - i,
{
    if i < active.len() {
        lemma_refill_fits(active, fixed, flex, max_width, i + 1);
        let later = refill(active, fixed, flex, max_width, i + 1);
        lemma_refill_len(active, fixed, flex, max_width, i + 1);
        if flex[i] != 0 {
            let tried = later.update(i, true);
            if minimum_width(tried, fixed, flex) > max_width {
                assert(!active[i]);
                lemma_refill_keeps_unvisited(active, fixed, flex, max_width, i + 1, i);
                assert(later.update(i, false) =~= later);
            }
        }
    }
}

proof fn lemma_refill_keeps_unvisited(active: Seq<bool>, fixed: Seq<usize>, flex: Seq<usize>, max_width: int, i: int, j: int)
    requires
        0 <= j < i <= active.len(),
        active[j] == false || flex[j] == 0,
    ensures
        refill(active, fixed, flex, max_width, i)[j] == active[j],
        refill(active, fixed, flex, max_width, i).len() == active.len(),
        active[j] == false ==> refill(active, fixed, flex, max_width, i)[j] == false,
    decreases active.len() - i,
{
    lemma_refill_len(active, fixed, flex, max_width, i);
    if i < active.len() {
        lemma_refill_keeps_unvisited(active, fixed, flex, max_width, i + 1, j);
    }
}

proof fn lemma_refill_keeps_fixed_tokens(active: Seq<bool>, fixed: Seq<usize>, flex: Seq<usize>, max_width: int, i: int, j: int)
    requires
        0 <= i <= active.len(),
        0 <= j < active.len(),
        flex[j] == 0,
    ensures
        refill(active, fixed, flex, max_width, i)[j] == active[j],
        refill(active, fixed, flex, max_width, i).len() == active.len(),
    decreases active.len() - i,
{
    lemma_refill_len(active, fixed, flex, max_width, i);
    if i < active.len() {
        lemma_refill_keeps_fixed_tokens(active, fixed, flex, max_width, i + 1, j);
    }
}

proof fn lemma_refill_settles_each_index(d: Seq<bool>, fixed: Seq<usize>, flex: Seq<usize>, max_width: int, i: int, k: int)
    requires
        0 <= i <= k < d.len(),
    ensures
        refill(d, fixed, flex, max_width, i)[k] == refill(d, fixed, flex, max_width, k)[k],
    decreases k - i,
{
    if i < k {
        lemma_refill_settles_each_index(d, fixed, flex, max_width, i + 1, k);
        lemma_refill_len(d, fixed, flex, max_width, i + 1);
    }
}

proof fn lemma_content_sum_monotone(a: Seq<bool>, b: Seq<bool>, fixed: Seq<usize>, flex: Seq<usize>, k: int)
    requires
        0 <= k <= a.len(),
        a.len() == b.len(),
        forall|i: int| 0 <= i < a.len() && #[trigger] a[i] ==> b[i],
    ensures
        content_sum(a, fixed, flex, k) <= content_sum(b, fixed, flex, k),
        active_count(a, k) <= active_count(b, k),
        separator_sum(a, k) <= separator_sum(b, k),
    decreases k,
{
    if k > 0 {
        lemma_content_sum_monotone(a, b, fixed, flex, k - 1);
        if a[k - 1] {
            assert(b[k - 1]);
        }
    }
}

/// A text is hidden only when it cannot fit: when a row is too wide and one
/// of its texts (shown at first) ends up hidden, showing it, with one
/// column, beside the fixed-width tokens before it and the tokens shown
/// after it would overflow `max_width`. Later texts are kept first, so a
/// hidden text never displaces one after it, and showing a hidden text on
/// top of the chosen tokens always overflows: the tokens shown are a
/// maximal set that fits.
pub proof fn lemma_hidden_texts_do_not_fit(active: Seq<bool>, fixed: Seq<usize>, flex: Seq<usize>, max_width: int, j: int)
    requires
        active.len() == fixed.len(),
        active.len() == flex.len(),
        0 <= j < active.len(),
        flex[j] > 0,
        active[j],
        !spec_visible_tokens(active, fixed, flex, max_width)[j],
    ensures
        minimum_width(
            Seq::new(
                active.len(),
                |k: int|
                    if k < j {
                        active[k] && flex[k] == 0
                    } else if k == j {
                        true
                    } else {
                        spec_visible_tokens(active, fixed, flex, max_width)[k]
                    },
            ),
            fixed,
            flex,
        ) > max_width,
        minimum_width(spec_visible_tokens(active, fixed, flex, max_width).update(j, true), fixed, flex) > max_width,
{
    let n = active.len() as int;
    let d = drop_flexible(active, flex);
    let visible = spec_visible_tokens(active, fixed, flex, max_width);
    assert(minimum_width(active, fixed, flex) > max_width);
    assert(visible == refill(d, fixed, flex, max_width, 0));
    lemma_refill_len(d, fixed, flex, max_width, 0);
    lemma_refill_len(d, fixed, flex, max_width, j);
    lemma_refill_len(d, fixed, flex, max_width, j + 1);
    let later = refill(d, fixed, flex, max_width, j + 1);
    let p = Seq::new(
        active.len(),
        |k: int|
            if k < j {
                active[k] && flex[k] == 0
            } else if k == j {
                true
            } else {
                visible[k]
            },
    );
    lemma_refill_settles_each_index(d, fixed, flex, max_width, 0, j);
    assert(p =~= later.update(j, true)) by {
        assert forall|k: int| 0 <= k < n implies p[k] == later.update(j, true)[k] by {
            if k < j {
                lemma_refill_keeps_unvisited(d, fixed, flex, max_width, j + 1, k);
            } else if k > j {
                lemma_refill_settles_each_index(d, fixed, flex, max_width, 0, k);
                lemma_refill_settles_each_index(d, fixed, flex, max_width, j + 1, k);
            }
        }
    }
    assert(minimum_width(later.update(j, true), fixed, flex) > max_width);
    assert forall|k: int| 0 <= k < n && #[trigger] p[k] implies visible.update(j, true)[k] by {
        if k < j {
            lemma_fixed_width_tokens_are_never_dropped(active, fixed, flex, max_width, k);
        }
    }
    lemma_content_sum_monotone(p, visible.update(j, true), fixed, flex, n);
}

/// When the row's fixed-width tokens fit at all, the tokens chosen for
/// display fit too: their minimum widths (one column per text) and
/// separators stay within `max_width`.
pub proof fn lemma_visible_tokens_fit(active: Seq<bool>, fixed: Seq<usize>, flex: Seq<usize>, max_width: int)
    requires
        active.len() == fixed.len(),
        active.len() == flex.len(),
        minimum_width(drop_flexible(active, flex), fixed, flex) <= max_width,
    ensures
        minimum_width(spec_visible_tokens(active, fixed, flex, max_width), fixed, flex) <= max_width,
{
    if minimum_width(active, fixed, flex) > max_width {
        let dropped = drop_flexible(active, flex);
        assert forall|k: int| 0 <= k < dropped.len() && flex[k] > 0 implies !#[trigger] dropped[k] by {}
        lemma_refill_fits(dropped, fixed, flex, max_width, 0);
    }
}

/// A token without text (the state icon, a git status, a drawn logo) is
/// never dropped for width: it is shown exactly when it is shown at first.
pub proof fn lemma_fixed_width_tokens_are_never_dropped(active: Seq<bool>, fixed: Seq<usize>, flex: Seq<usize>, max_width: int, j: int)
    requires
        active.len() == fixed.len(),
        active.len() == flex.len(),
        0 <= j < active.len(),
        flex[j] == 0,
    ensures
        spec_visible_tokens(active, fixed, flex, max_width)[j] == active[j],
{
    if minimum_width(active, fixed, flex) > max_width {
        lemma_refill_keeps_fixed_tokens(drop_flexible(active, flex), fixed, flex, max_width, 0, j);
    }
}

/// An agent icon whose logo is not drawn, on a row that names the agent
/// through its own `agent` token, is elided: it is never shown.
pub proof fn lemma_redundant_agent_icon_is_elided(tokens: Seq<TokenView>, icon_width: int, max_width: int, j: int)
    requires
        0 <= j < tokens.len(),
        tokens[j].kind is AgentIcon,
        row_names_agent(tokens),
    ensures
        !spec_visible_tokens(
            initially_shown(tokens, false, true),
            fixed_widths(tokens, icon_width, false),
            flexible_widths(tokens, false, true),
            max_width,
        )[j],
{
    lemma_fixed_width_tokens_are_never_dropped(
        initially_shown(tokens, false, true),
        fixed_widths(tokens, icon_width, false),
        flexible_widths(tokens, false, true),
        max_width,
        j,
    );
}

/// A logo that will be drawn is a fixed-size box: its token is never
/// elided or dropped, even on a row that also names the agent.
pub proof fn lemma_drawn_logo_is_always_shown(tokens: Seq<TokenView>, icon_width: int, names_agent: bool, max_width: int, j: int)
    requires
        0 <= j < tokens.len(),
        tokens[j].kind is AgentIcon,
    ensures
        spec_visible_tokens(
            initially_shown(tokens, true, names_agent),
            fixed_widths(tokens, icon_width, true),
            flexible_widths(tokens, true, names_agent),
            max_width,
        )[j],
{
    lemma_fixed_width_tokens_are_never_dropped(
        initially_shown(tokens, true, names_agent),
        fixed_widths(tokens, icon_width, true),
        flexible_widths(tokens, true, names_agent),
        max_width,
        j,
    );
}

/// Columns of the first `j` spans, each counted by its display width.
pub open spec fn spans_width(spans: Seq<SpanView>, j: int) -> int
    decreases j,
{
    if j <= 0 {
        0
    } else {
        spans_width(spans, j - 1) + spec_display_width(spans[j - 1].content)
    }
}

/// Columns of all the spans.
pub open spec fn total_width(spans: Seq<SpanView>) -> int {
    spans_width(spans, spans.len() as int)
}

proof fn lemma_spans_width_prefix(a: Seq<SpanView>, b: Seq<SpanView>, j: int)
    requires
        0 <= j <= a.len() <= b.len(),
        b.subrange(0, a.len() as int) == a,
    ensures
        spans_width(b, j) == spans_width(a, j),
        0 <= spans_width(a, j) <= total_width(a) <= total_width(b),
    decreases b.len() - j,
{
    lemma_spans_width_monotone(a, j, a.len() as int);
    lemma_spans_width_monotone(b, a.len() as int, b.len() as int);
    lemma_spans_width_agree(a, b, j);
    lemma_spans_width_agree(a, b, a.len() as int);
}

proof fn lemma_spans_width_agree(a: Seq<SpanView>, b: Seq<SpanView>, j: int)
    requires
        0 <= j <= a.len() <= b.len(),
        b.subrange(0, a.len() as int) == a,
    ensures
        spans_width(b, j) == spans_width(a, j),
    decreases j,
{
    if j > 0 {
        lemma_spans_width_agree(a, b, j - 1);
        assert(b[j - 1] == b.subrange(0, a.len() as int)[j - 1]);
    }
}

proof fn lemma_spans_width_monotone(a: Seq<SpanView>, i: int, j: int)
    requires
        0 <= i <= j <= a.len(),
    ensures
        0 <= spans_width(a, i) <= spans_width(a, j),
    decreases j,
{
    lemma_spans_width_nonneg(a, i);
    if j > i {
        lemma_spans_width_monotone(a, i, j - 1);
    }
}

proof fn lemma_spans_width_nonneg(a: Seq<SpanView>, i: int)
    requires
        0 <= i <= a.len(),
    ensures
        0 <= spans_width(a, i),
    decreases i,
{
    if i > 0 {
        lemma_spans_width_nonneg(a, i - 1);
    }
}

proof fn lemma_push_span_columns(st: RenderState, content: Seq<char>, style: Style, width: int)
    requires
        width == spec_display_width(content),
    ensures
        ({
            let r = push_span(st, content, style, width);
            &&& r.spans.len() == st.spans.len() + 1
            &&& r.spans.subrange(0, st.spans.len() as int) == st.spans
            &&& r.spans[st.spans.len() as int].content == content
            &&& total_width(r.spans) == total_width(st.spans) + width
            &&& r.logo_column == st.logo_column
            &&& (st.column == total_width(st.spans) && total_width(r.spans) <= u16::MAX) ==> r.column
                == total_width(r.spans)
        }),
{
    let r = push_span(st, content, style, width);
    assert(r.spans.subrange(0, st.spans.len() as int) =~= st.spans);
    lemma_spans_width_agree(st.spans, r.spans, st.spans.len() as int);
    lemma_spans_width_monotone(st.spans, 0, st.spans.len() as int);
}

proof fn lemma_render_token_columns(st: RenderState, t: TokenView, budget: int, ctx: LineContext)
    requires
        spec_display_width(seq![' ']) == 1,
        spec_display_width(seq![' ', ' ']) == 2,
    ensures
        ({
            let r = render_token(st, t, budget, ctx);
            &&& r.spans.len() >= st.spans.len()
            &&& r.spans.subrange(0, st.spans.len() as int) == st.spans
            &&& total_width(r.spans) >= total_width(st.spans)
            &&& (st.column == total_width(st.spans) && total_width(r.spans) <= u16::MAX) ==> r.column
                == total_width(r.spans)
            &&& if t.kind is AgentIcon && ctx.logo {
                &&& r.logo_column == Some(st.column)
                &&& r.spans.len() > st.spans.len()
                &&& r.spans[st.spans.len() as int].content == seq![' ', ' ']
            } else {
                r.logo_column == st.logo_column
            }
        }),
{
    let r = render_token(st, t, budget, ctx);
    match t.kind {
        TokenKindView::StateIcon => {
            lemma_push_span_columns(st, ctx.icon_text, spec_apply_token_style(ctx.icon_style, t.style), spec_display_width(ctx.icon_text) as int);
        },
        TokenKindView::AgentIcon { fallback } => {
            if ctx.logo {
                lemma_push_span_columns(st, seq![' ', ' '], plain_style(), 2);
            } else if !ctx.names_agent {
                let cut = spec_truncate_end(fallback, budget);
                lemma_push_span_columns(st, cut, spec_apply_token_style(agent_name_style(ctx), t.style), spec_display_width(cut) as int);
            } else {
                assert(st.spans.subrange(0, st.spans.len() as int) =~= st.spans);
            }
        },
        TokenKindView::GitStatus { ahead, behind } => {
            let st1 = if ahead > 0 {
                push_span(st, ahead_text(ahead), spec_apply_token_style(fg_style(ctx.palette.green), t.style), spec_display_width(ahead_text(ahead)) as int)
            } else {
                st
            };
            if ahead > 0 {
                lemma_push_span_columns(st, ahead_text(ahead), spec_apply_token_style(fg_style(ctx.palette.green), t.style), spec_display_width(ahead_text(ahead)) as int);
            } else {
                assert(st.spans.subrange(0, st.spans.len() as int) =~= st.spans);
            }
            let st2 = if ahead > 0 && behind > 0 {
                push_span(st1, seq![' '], spec_apply_token_style(plain_style(), t.style), 1)
            } else {
                st1
            };
            if ahead > 0 && behind > 0 {
                lemma_push_span_columns(st1, seq![' '], spec_apply_token_style(plain_style(), t.style), 1);
            } else {
                assert(st1.spans.subrange(0, st1.spans.len() as int) =~= st1.spans);
            }
            if behind > 0 {
                lemma_push_span_columns(st2, behind_text(behind), spec_apply_token_style(fg_style(ctx.palette.red), t.style), spec_display_width(behind_text(behind)) as int);
            } else {
                assert(st2.spans.subrange(0, st2.spans.len() as int) =~= st2.spans);
            }
            assert(r.spans.subrange(0, st1.spans.len() as int) == st1.spans) by {
                assert(r.spans.subrange(0, st1.spans.len() as int) =~= r.spans.subrange(0, st2.spans.len() as int).subrange(0, st1.spans.len() as int));
            }
            assert(r.spans.subrange(0, st.spans.len() as int) =~= r.spans.subrange(0, st1.spans.len() as int).subrange(0, st.spans.len() as int));
        },
        _ => {
            let text = match token_text(t.kind) {
                Some(x) => x,
                None => Seq::empty(),
            };
            let base = match t.kind {
                TokenKindView::StateText(_) => ctx.state_text_style,
                TokenKindView::Workspace(_) => ctx.workspace_style,
                TokenKindView::Tab(_) => fg_style(ctx.palette.teal),
                TokenKindView::Agent(_) => agent_name_style(ctx),
                TokenKindView::TerminalTitle(_) => ctx.custom_style,
                TokenKindView::Custom(_) => ctx.custom_style,
                _ => ctx.secondary_style,
            };
            let cut = spec_truncate_end(text, budget);
            lemma_push_span_columns(st, cut, spec_apply_token_style(base, t.style), spec_display_width(cut) as int);
        },
    }
}

proof fn lemma_render_upto_columns(tokens: Seq<TokenView>, visible: Seq<bool>, budgets: Seq<usize>, ctx: LineContext, k: int)
    requires
        spec_display_width(seq![' ']) == 1,
        spec_display_width(seq![' ', ' ']) == 2,
        0 <= k <= tokens.len(),
        k <= visible.len(),
    ensures
        ({
            let st = render_upto(tokens, visible, budgets, ctx, k);
            &&& total_width(st.spans) <= u16::MAX ==> st.column == total_width(st.spans)
            &&& (total_width(st.spans) <= u16::MAX && st.logo_column is Some) ==> exists|j: int|
                0 <= j < st.spans.len() && #[trigger] st.spans[j].content == seq![' ', ' ']
                    && st.logo_column->0 == spans_width(st.spans, j)
            &&& st.logo_column is Some <==> ctx.logo && exists|i: int|
                0 <= i < k && visible[i] && #[trigger] tokens[i].kind is AgentIcon
        }),
    decreases k,
{
    if k > 0 {
        lemma_render_upto_columns(tokens, visible, budgets, ctx, k - 1);
        let st = render_upto(tokens, visible, budgets, ctx, k - 1);
        let fin = render_upto(tokens, visible, budgets, ctx, k);
        if visible[k - 1] {
            let st1 = if active_count(visible, k - 1) > 0 {
                push_span(st, " "@, separator_style(ctx.palette), separator_width())
            } else {
                st
            };
            if active_count(visible, k - 1) > 0 {
                lemma_push_span_columns(st, " "@, separator_style(ctx.palette), separator_width());
            } else {
                assert(st.spans.subrange(0, st.spans.len() as int) =~= st.spans);
            }
            lemma_render_token_columns(st1, tokens[k - 1], budgets[k - 1] as int, ctx);
            assert(fin.spans.subrange(0, st.spans.len() as int) =~= fin.spans.subrange(0, st1.spans.len() as int).subrange(0, st.spans.len() as int));
            lemma_spans_width_prefix(st.spans, fin.spans, 0);
            lemma_spans_width_prefix(st1.spans, fin.spans, 0);
            if st.logo_column is Some && total_width(fin.spans) <= u16::MAX {
                let c = st.logo_column->0;
                let j = choose|j: int| 0 <= j < st.spans.len() && #[trigger] st.spans[j].content == seq![' ', ' '] && c
                    == spans_width(st.spans, j);
                lemma_spans_width_prefix(st.spans, fin.spans, j);
                assert(fin.spans[j] == fin.spans.subrange(0, st.spans.len() as int)[j]);
            }
            if tokens[k - 1].kind is AgentIcon && ctx.logo {
                let j = st1.spans.len() as int;
                assert(fin.spans[j].content == seq![' ', ' ']);
                lemma_spans_width_agree(st1.spans, fin.spans, j);
                if total_width(fin.spans) <= u16::MAX {
                    assert(st1.column == total_width(st1.spans));
                }
            }
            if fin.logo_column is Some {
                if !(tokens[k - 1].kind is AgentIcon && ctx.logo) {
                    let i = choose|i: int| 0 <= i < k - 1 && visible[i] && #[trigger] tokens[i].kind is AgentIcon;
                    assert(0 <= i < k && visible[i] && tokens[i].kind is AgentIcon);
                }
            }
        } else {
            if fin.logo_column is Some {
                let i = choose|i: int| 0 <= i < k - 1 && visible[i] && #[trigger] tokens[i].kind is AgentIcon;
                assert(0 <= i < k && visible[i] && tokens[i].kind is AgentIcon);
            }
        }
        assert(total_width(fin.spans) <= u16::MAX ==> fin.column == total_width(fin.spans));
        assert(fin.logo_column is Some ==> ctx.logo && exists|i: int|
                0 <= i < k && visible[i] && #[trigger] tokens[i].kind is AgentIcon);
        assert((ctx.logo && exists|i: int| 0 <= i < k && visible[i] && #[trigger] tokens[i].kind is AgentIcon) ==> fin.logo_column is Some);
    }
}

/// Where the box of the last drawn logo among the first `k` tokens stands:
/// the index of its agent icon token, and the index of its blank span (after
/// the separator in front of it, if any). `None` when no logo is drawn there.
pub open spec fn logo_box(tokens: Seq<TokenView>, visible: Seq<bool>, budgets: Seq<usize>, ctx: LineContext, k: int) -> Option<(int, int)>
    decreases k,
{
    if k <= 0 {
        None
    } else if visible[k - 1] && ctx.logo && tokens[k - 1].kind is AgentIcon {
        let before = render_upto(tokens, visible, budgets, ctx, k - 1).spans.len() as int;
        Some((k - 1, before + if active_count(visible, k - 1) > 0 { 1int } else { 0 }))
    } else {
        logo_box(tokens, visible, budgets, ctx, k - 1)
    }
}

proof fn lemma_render_upto_logo_box(tokens: Seq<TokenView>, visible: Seq<bool>, budgets: Seq<usize>, ctx: LineContext, k: int)
    requires
        spec_display_width(seq![' ']) == 1,
        spec_display_width(seq![' ', ' ']) == 2,
        0 <= k <= tokens.len(),
        k <= visible.len(),
    ensures
        ({
            let st = render_upto(tokens, visible, budgets, ctx, k);
            &&& st.logo_column is Some <==> logo_box(tokens, visible, budgets, ctx, k) is Some
            &&& logo_box(tokens, visible, budgets, ctx, k) matches Some((t, j)) ==> {
                &&& 0 <= t < k && visible[t] && tokens[t].kind is AgentIcon
                &&& forall|u: int| t < u < k && visible[u] ==> !(#[trigger] tokens[u].kind is AgentIcon)
                &&& 0 <= j < st.spans.len()
                &&& st.spans[j].content == seq![' ', ' ']
                &&& total_width(st.spans) <= u16::MAX ==> st.logo_column == Some(spans_width(st.spans, j) as u16)
            }
        }),
    decreases k,
{
    if k > 0 {
        lemma_render_upto_logo_box(tokens, visible, budgets, ctx, k - 1);
        lemma_render_upto_columns(tokens, visible, budgets, ctx, k - 1);
        let st = render_upto(tokens, visible, budgets, ctx, k - 1);
        let fin = render_upto(tokens, visible, budgets, ctx, k);
        if visible[k - 1] {
            let st1 = if active_count(visible, k - 1) > 0 {
                push_span(st, " "@, separator_style(ctx.palette), separator_width())
            } else {
                st
            };
            if active_count(visible, k - 1) > 0 {
                lemma_push_span_columns(st, " "@, separator_style(ctx.palette), separator_width());
            } else {
                assert(st.spans.subrange(0, st.spans.len() as int) =~= st.spans);
            }
            lemma_render_token_columns(st1, tokens[k - 1], budgets[k - 1] as int, ctx);
            assert(fin.spans.subrange(0, st.spans.len() as int) =~= fin.spans.subrange(0, st1.spans.len() as int).subrange(0, st.spans.len() as int));
            lemma_spans_width_prefix(st.spans, fin.spans, 0);
            lemma_spans_width_prefix(st1.spans, fin.spans, 0);
            if ctx.logo && tokens[k - 1].kind is AgentIcon {
                let j = st1.spans.len() as int;
                lemma_spans_width_agree(st1.spans, fin.spans, j);
                if total_width(fin.spans) <= u16::MAX {
                    assert(st1.column == total_width(st1.spans));
                }
            } else if logo_box(tokens, visible, budgets, ctx, k - 1) is Some {
                let found = logo_box(tokens, visible, budgets, ctx, k - 1)->0;
                let j = found.1;
                lemma_spans_width_prefix(st.spans, fin.spans, j);
                assert(fin.spans[j] == fin.spans.subrange(0, st.spans.len() as int)[j]);
            }
        }
    }
}

proof fn lemma_visible_tokens_len(active: Seq<bool>, fixed: Seq<usize>, flex: Seq<usize>, max_width: int)
    requires
        active.len() == flex.len(),
    ensures
        spec_visible_tokens(active, fixed, flex, max_width).len() == active.len(),
{
    lemma_refill_len(drop_flexible(active, flex), fixed, flex, max_width, 0);
}

/// The box of the last drawn logo of a rendered row (see [`logo_box`]).
pub open spec fn row_logo_box(tokens: Seq<TokenView>, ctx: LineContext, max_width: int) -> Option<(int, int)> {
    let icon_width = spec_display_width(ctx.icon_text) as int;
    let fixed = fixed_widths(tokens, icon_width, ctx.logo);
    let flex = flexible_widths(tokens, ctx.logo, ctx.names_agent);
    let shown = initially_shown(tokens, ctx.logo, ctx.names_agent);
    let visible = spec_visible_tokens(shown, fixed, flex, max_width);
    let budgets = spec_token_budgets(visible, fixed, flex, max_width);
    logo_box(tokens, visible, budgets, ctx, tokens.len() as int)
}

/// A drawn logo's column is where its box starts: a row has a logo column
/// exactly when a logo will be drawn and the row has an agent icon token
/// (even beside the row's own `agent` token), and that column is the sum of
/// the display widths of all the spans before the blank box of the last
/// agent icon token (the box [`row_logo_box`] locates), as long as
/// the row is narrower than the `u16` column range. This rests on the
/// width of printable ASCII text, one column per character, which the
/// wrapper of `UnicodeWidthStr::width` states for every such string it
/// measures (here a space and two spaces).
pub proof fn lemma_logo_column_is_the_width_before_the_box(tokens: Seq<TokenView>, ctx: LineContext, max_width: int)
    requires
        spec_display_width(seq![' ']) == 1,
        spec_display_width(seq![' ', ' ']) == 2,
        total_width(spec_resolved_token_spans(tokens, ctx, max_width).spans) <= u16::MAX,
    ensures
        ({
            let r = spec_resolved_token_spans(tokens, ctx, max_width);
            &&& r.logo_column is Some <==> ctx.logo && exists|i: int|
                0 <= i < tokens.len() && #[trigger] tokens[i].kind is AgentIcon
            &&& r.logo_column is Some <==> row_logo_box(tokens, ctx, max_width) is Some
            &&& row_logo_box(tokens, ctx, max_width) matches Some((t, j)) ==> {
                &&& 0 <= t < tokens.len() && tokens[t].kind is AgentIcon
                &&& forall|u: int| t < u < tokens.len() ==> !(#[trigger] tokens[u].kind is AgentIcon)
                &&& 0 <= j < r.spans.len()
                &&& r.spans[j].content == seq![' ', ' ']
                &&& r.logo_column == Some(spans_width(r.spans, j) as u16)
                &&& spans_width(r.spans, j) <= u16::MAX
            }
        }),
{
    let icon_width = spec_display_width(ctx.icon_text) as int;
    let fixed = fixed_widths(tokens, icon_width, ctx.logo);
    let flex = flexible_widths(tokens, ctx.logo, ctx.names_agent);
    let shown = initially_shown(tokens, ctx.logo, ctx.names_agent);
    let visible = spec_visible_tokens(shown, fixed, flex, max_width);
    let budgets = spec_token_budgets(visible, fixed, flex, max_width);
    lemma_visible_tokens_len(shown, fixed, flex, max_width);
    lemma_render_upto_columns(tokens, visible, budgets, ctx, tokens.len() as int);
    lemma_render_upto_logo_box(tokens, visible, budgets, ctx, tokens.len() as int);
    if logo_box(tokens, visible, budgets, ctx, tokens.len() as int) is Some {
        let (t, j) = logo_box(tokens, visible, budgets, ctx, tokens.len() as int)->0;
        let r = spec_resolved_token_spans(tokens, ctx, max_width);
        lemma_spans_width_monotone(r.spans, j, r.spans.len() as int);
        assert forall|u: int| t < u < tokens.len() implies !(#[trigger] tokens[u].kind is AgentIcon) by {
            if tokens[u].kind is AgentIcon {
                lemma_drawn_logo_is_always_shown(tokens, icon_width, ctx.names_agent, max_width, u);
            }
        }
        assert(r.spans[j].content == seq![' ', ' ']);
    }
    if ctx.logo && exists|i: int| 0 <= i < tokens.len() && #[trigger] tokens[i].kind is AgentIcon {
        let i = choose|i: int| 0 <= i < tokens.len() && #[trigger] tokens[i].kind is AgentIcon;
        lemma_drawn_logo_is_always_shown(tokens, icon_width, ctx.names_agent, max_width, i);
        assert(visible[i] && tokens[i].kind is AgentIcon);
    }
}

proof fn lemma_budget_sum_update(b: Seq<usize>, i: int, v: usize, k: int)
    requires
        0 <= i < b.len(),
        0 <= k <= b.len(),
    ensures
        budget_sum(b.update(i, v), k) == budget_sum(b, k) + (if i < k {
            v - b[i]
        } else {
            0
        }),
    decreases k,
{
    if k > 0 {
        lemma_budget_sum_update(b, i, v, k - 1);
    }
}

proof fn lemma_grow_pass_conserves(b: Seq<usize>, flex: Seq<usize>, rem: int, i: int, grew: bool)
    requires
        b.len() == flex.len(),
        rem > 0,
        0 <= i <= flex.len(),
        forall|k: int| 0 <= k < b.len() ==> b[k] <= flex[k],
    ensures
        ({
            let r = grow_pass(b, flex, rem, i, grew);
            &&& budget_sum(r.0, b.len() as int) + r.1 == budget_sum(b, b.len() as int) + rem
            &&& forall|k: int| 0 <= k < b.len() && b[k] == 0 ==> #[trigger] r.0[k] == 0
        }),
    decreases flex.len() - i,
{
    if i < flex.len() {
        if b[i] > 0 && b[i] < flex[i] {
            let b1 = b.update(i, (b[i] + 1) as usize);
            lemma_budget_sum_update(b, i, (b[i] + 1) as usize, b.len() as int);
            if rem - 1 != 0 {
                lemma_grow_pass_conserves(b1, flex, rem - 1, i + 1, true);
            }
        } else {
            lemma_grow_pass_conserves(b, flex, rem, i + 1, grew);
        }
    }
}

proof fn lemma_grow_budgets_bounds(b: Seq<usize>, flex: Seq<usize>, rem: int)
    requires
        b.len() == flex.len(),
        forall|k: int| 0 <= k < b.len() ==> b[k] <= flex[k],
    ensures
        ({
            let g = grow_budgets(b, flex, rem);
            &&& g.len() == b.len()
            &&& budget_sum(g, b.len() as int) <= budget_sum(b, b.len() as int) + (if rem > 0 {
                rem
            } else {
                0
            })
            &&& forall|k: int| 0 <= k < b.len() ==> b[k] <= #[trigger] g[k] <= flex[k]
            &&& forall|k: int| 0 <= k < b.len() && b[k] == 0 ==> #[trigger] g[k] == 0
        }),
    decreases rem,
{
    if rem > 0 {
        lemma_grow_pass(b, flex, rem, 0, false);
        lemma_grow_pass_conserves(b, flex, rem, 0, false);
        let r = grow_pass(b, flex, rem, 0, false);
        if r.2 && 0 <= r.1 < rem {
            lemma_grow_budgets_bounds(r.0, flex, r.1);
        }
    }
}

proof fn lemma_budget_sum_nonneg(b: Seq<usize>, k: int)
    requires
        0 <= k <= b.len(),
    ensures
        budget_sum(b, k) >= 0,
    decreases k,
{
    if k > 0 {
        lemma_budget_sum_nonneg(b, k - 1);
    }
}

proof fn lemma_content_splits(visible: Seq<bool>, fixed: Seq<usize>, flex: Seq<usize>, b0: Seq<usize>, k: int)
    requires
        visible.len() == fixed.len(),
        visible.len() == flex.len(),
        b0 == Seq::new(visible.len(), |i: int| if visible[i] && flex[i] > 0 { 1usize } else { 0usize }),
        0 <= k <= visible.len(),
    ensures
        content_sum(visible, fixed, flex, k) == fixed_sum(visible, fixed, k) + budget_sum(b0, k),
    decreases k,
{
    if k > 0 {
        lemma_content_splits(visible, fixed, flex, b0, k - 1);
    }
}

/// The spare columns are handed out without overdrawing the row: when the
/// shown tokens' minimum widths fit, their text budgets, fixed widths and
/// separators together stay within `max_width`. Every shown text keeps at
/// least one column and never gets more than its full width; every other
/// token gets none.
pub proof fn lemma_budgets_fit_the_row(visible: Seq<bool>, fixed: Seq<usize>, flex: Seq<usize>, max_width: int)
    requires
        visible.len() == fixed.len(),
        visible.len() == flex.len(),
        minimum_width(visible, fixed, flex) <= max_width,
    ensures
        ({
            let n = visible.len() as int;
            let b = spec_token_budgets(visible, fixed, flex, max_width);
            &&& b.len() == n
            &&& budget_sum(b, n) + fixed_sum(visible, fixed, n) + separator_sum(visible, n) <= max_width
            &&& forall|k: int| 0 <= k < n && visible[k] && flex[k] > 0 ==> 1 <= #[trigger] b[k] <= flex[k]
            &&& forall|k: int| 0 <= k < n && !(visible[k] && flex[k] > 0) ==> #[trigger] b[k] == 0
        }),
{
    let n = visible.len() as int;
    let b0 = Seq::new(visible.len(), |i: int| if visible[i] && flex[i] > 0 { 1usize } else { 0usize });
    lemma_content_splits(visible, fixed, flex, b0, n);
    let used = separator_sum(visible, n) + fixed_sum(visible, fixed, n);
    let spare = if max_width > used { max_width - used } else { 0 };
    let rem = if spare > budget_sum(b0, n) { spare - budget_sum(b0, n) } else { 0 };
    lemma_grow_budgets_bounds(b0, flex, rem);
    let b = grow_budgets(b0, flex, rem);
    assert(spec_token_budgets(visible, fixed, flex, max_width) == b) by {
        assert(b0 =~= Seq::new(visible.len(), |i: int| if visible[i] && flex[i] > 0 { 1usize } else { 0usize }));
    }
    lemma_budget_sum_nonneg(b0, n);
    assert(budget_sum(b, n) + used <= max_width);
    assert forall|k: int| 0 <= k < n && visible[k] && flex[k] > 0 implies 1 <= #[trigger] b[k] <= flex[k] by {
        assert(b0[k] == 1);
    }
    assert forall|k: int| 0 <= k < n && !(visible[k] && flex[k] > 0) implies #[trigger] b[k] == 0 by {
        assert(b0[k] == 0);
    }
}

// ---------------------------------------------------------------------------
// Agent panel entries
// ---------------------------------------------------------------------------

/// What the sidebar's agent panel knows about one pane.
#[derive(Debug)]
pub struct PaneDetail {
    pub tab_idx: usize,
    pub pane_id: u64,
    pub agent_kind_label: Option<String>,
    pub state: crate::status::AgentStatus,
    pub seen: bool,
    pub last_agent_state_change_seq: Option<u64>,
    pub tokens: std::collections::HashMap<String, String>,
}

/// One row of the agent panel: a pane's details and its workspace.
#[derive(Debug)]
pub struct AgentPanelEntry {
    pub ws_idx: usize,
    pub tab_idx: usize,
    pub pane_id: u64,
    pub agent_kind_label: Option<String>,
    pub state: crate::status::AgentStatus,
    pub seen: bool,
    pub last_agent_state_change_seq: Option<u64>,
    pub tokens: std::collections::HashMap<String, String>,
}

/// The panel entry of pane `d` of workspace `ws`.
pub open spec fn entry_of(ws: int, d: PaneDetail) -> AgentPanelEntry {
    AgentPanelEntry {
        ws_idx: ws as usize,
        tab_idx: d.tab_idx,
        pane_id: d.pane_id,
        agent_kind_label: d.agent_kind_label,
        state: d.state,
        seen: d.seen,
        last_agent_state_change_seq: d.last_agent_state_change_seq,
        tokens: d.tokens,
    }
}

/// The entries of the first `w` workspaces, workspace by workspace, each
/// workspace's panes in order.
pub open spec fn entries_upto(details: Seq<Seq<PaneDetail>>, w: int) -> Seq<AgentPanelEntry>
    decreases w,
{
    if w <= 0 {
        Seq::empty()
    } else {
        entries_upto(details, w - 1) + details[w - 1].map_values(|d: PaneDetail| entry_of(w - 1, d))
    }
}

/// The agent panel's entries before the user's agent view is applied: every
/// pane of every workspace, in workspace order, each tagged with its
/// workspace's index. The agent view (its ordering and filtering of these
/// entries) is the caller's to apply to the result.
pub fn agent_panel_entries_from(workspace_panes: Vec<Vec<PaneDetail>>) -> (entries: Vec<AgentPanelEntry>)
    ensures
        entries@ == entries_upto(
            workspace_panes@.map_values(|v: Vec<PaneDetail>| v@),
            workspace_panes@.len() as int,
        ),
{
    let ghost all = workspace_panes@.map_values(|v: Vec<PaneDetail>| v@);
    let mut remaining = workspace_panes;
    let mut entries: Vec<AgentPanelEntry> = Vec::new();
    let n = remaining.len();
    let mut ws: usize = 0;
    while ws < n
        invariant
            0 <= ws <= n,
            n == all.len(),
            remaining@.len() == n - ws,
            forall|k: int| 0 <= k < remaining@.len() ==> #[trigger] remaining@[k]@ == all[ws + k],
            entries@ == entries_upto(all, ws as int),
        decreases n - ws,
    {
        let mut panes = remaining.remove(0);
        assert(panes@ == all[ws as int]);
        let ghost start = entries@;
        let ghost row = panes@;
        let m = panes.len();
        let mut k: usize = 0;
        while k < m
            invariant
                0 <= k <= m,
                m == row.len(),
                panes@ == row.subrange(k as int, m as int),
                entries@ == start + row.take(k as int).map_values(|d: PaneDetail| entry_of(ws as int, d)),
            decreases m - k,
        {
            let d = panes.remove(0);
            assert(d == row[k as int]);
            entries.push(AgentPanelEntry {
                ws_idx: ws,
                tab_idx: d.tab_idx,
                pane_id: d.pane_id,
                agent_kind_label: d.agent_kind_label,
                state: d.state,
                seen: d.seen,
                last_agent_state_change_seq: d.last_agent_state_change_seq,
                tokens: d.tokens,
            });
            assert(entries@ =~= start + row.take(k + 1).map_values(|d: PaneDetail| entry_of(ws as int, d)));
            assert(panes@ =~= row.subrange(k + 1, m as int));
            k = k + 1;
        }
        assert(row.take(m as int) =~= row);
        ws = ws + 1;
    }
    entries
}

} // verus!
