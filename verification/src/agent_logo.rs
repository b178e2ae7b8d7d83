//! Agent brand logos for the sidebar: brand colors, stable image ids, and
//! the pixel work that turns an alpha coverage mask into a tinted image that
//! fits a cell box.
use vstd::prelude::*;
use vstd::arithmetic::div_mod::lemma_fundamental_div_mod_converse;
use crate::agent::{Agent, all_agents, spec_all_agents, agent_position};
use crate::palette::{Color, Palette, Rgb, packed_rgb};

verus! {

/// Masks are square and stored uncompressed, one alpha byte per pixel.
pub const MASK_DIM: u32 = 96;

/// Length in bytes of a bundled mask.
pub const MASK_LEN: usize = 9216;

/// Cell columns a logo occupies.
pub const LOGO_COLS: u16 = 2;

/// Kitty image ids reserved for agent logos start here.
pub const LOGO_IMAGE_ID_BASE: u32 = 1000;

/// First id of the range that pane graphics allocate from.
pub const PANE_IMAGE_ID_BASE: u32 = 10000;

// ---------------------------------------------------------------------------
// Brand colors and tints
// ---------------------------------------------------------------------------

/// The fixed brand color of an agent, if it has one.
pub open spec fn spec_brand_rgb(agent: Agent) -> Option<Rgb> {
    match agent {
        Agent::Claude => Some((0xD9u8, 0x77u8, 0x57u8)),
        Agent::Codex => Some((0x10u8, 0xA3u8, 0x7Fu8)),
        Agent::Gemini | Agent::Antigravity => Some((0x42u8, 0x85u8, 0xF4u8)),
        Agent::GithubCopilot => Some((0x89u8, 0x57u8, 0xE5u8)),
        Agent::Devin => Some((0x2Eu8, 0x6Cu8, 0xF6u8)),
        Agent::Kiro => Some((0x79u8, 0x0Eu8, 0xF7u8)),
        Agent::Amp => Some((0xFFu8, 0x55u8, 0x43u8)),
        _ => None,
    }
}

/// The brand color for an agent, or `None` when the agent has no fixed brand
/// color and should take the theme's foreground.
pub fn agent_brand_color(agent: Agent) -> (color: Option<Color>)
    ensures
        color == (match spec_brand_rgb(agent) {
            Some(rgb) => Some(Color::Rgb(rgb.0, rgb.1, rgb.2)),
            None => None::<Color>,
        }),
{
    let rgb: (u8, u8, u8) = match agent {
        Agent::Claude => (0xD9, 0x77, 0x57),
        Agent::Codex => (0x10, 0xA3, 0x7F),
        Agent::Gemini | Agent::Antigravity => (0x42, 0x85, 0xF4),
        Agent::GithubCopilot => (0x89, 0x57, 0xE5),
        Agent::Devin => (0x2E, 0x6C, 0xF6),
        Agent::Kiro => (0x79, 0x0E, 0xF7),
        Agent::Amp => (0xFF, 0x55, 0x43),
        _ => return None,
    };
    Some(Color::Rgb(rgb.0, rgb.1, rgb.2))
}

/// The tint used when neither a brand color nor an RGB foreground exists.
pub open spec fn fallback_tint() -> Rgb {
    (0xC0u8, 0xC0u8, 0xC0u8)
}

/// The concrete RGB a logo is tinted with: the brand color, else the palette
/// foreground when it is an RGB color, else neutral light gray.
pub open spec fn spec_logo_tint(agent: Agent, text: Color) -> Rgb {
    match spec_brand_rgb(agent) {
        Some(rgb) => rgb,
        None => match text {
            Color::Rgb(r, g, b) => (r, g, b),
            _ => fallback_tint(),
        },
    }
}

/// Concrete RGB used to tint a logo.
pub fn logo_tint(agent: Agent, p: &Palette) -> (tint: Rgb)
    ensures
        tint == spec_logo_tint(agent, p.text),
{
    let color = match agent_brand_color(agent) {
        Some(color) => color,
        None => p.text,
    };
    match color {
        Color::Rgb(r, g, b) => (r, g, b),
        _ => (0xC0, 0xC0, 0xC0),
    }
}

/// Fingerprint of a tint, used to notice a theme change that requires
/// retransmitting an already-sent logo: the tint packed as `0xRRGGBB`.
pub fn tint_fingerprint(rgb: Rgb) -> (fingerprint: u32)
    ensures
        fingerprint == packed_rgb(rgb),
{
    let (r, g, b) = rgb;
    let fingerprint = (r as u32) << 16u32 | (g as u32) << 8u32 | (b as u32);
    assert(fingerprint == (r as u32) * 65536 + (g as u32) * 256 + (b as u32)) by (bit_vector)
        requires
            fingerprint == (r as u32) << 16u32 | (g as u32) << 8u32 | (b as u32),
    ;
    fingerprint
}

/// Two tints get the same fingerprint only when they are the same tint.
pub proof fn lemma_tint_fingerprint_distinguishes_tints(a: Rgb, b: Rgb)
    ensures
        packed_rgb(a) == packed_rgb(b) <==> a == b,
{
}

// ---------------------------------------------------------------------------
// Image ids and bundled masks
// ---------------------------------------------------------------------------

/// The Kitty image id of an agent's logo.
pub open spec fn spec_logo_image_id(agent: Agent) -> int {
    LOGO_IMAGE_ID_BASE + agent_position(agent)
}

/// Stable Kitty image id for an agent's logo, keyed off the agent's position
/// in the canonical agent list.
pub fn logo_image_id(agent: Agent) -> (id: u32)
    ensures
        id == spec_logo_image_id(agent),
        spec_all_agents()[id - LOGO_IMAGE_ID_BASE] == agent,
{
    let agents = all_agents();
    let mut index: usize = 0;
    let mut found: Option<usize> = None;
    while index < agents.len()
        invariant
            agents@ == spec_all_agents(),
            0 <= index <= agents.len(),
            found is None ==> forall|j: int| 0 <= j < index ==> agents@[j] != agent,
            found matches Some(k) ==> k < agents.len() && agents@[k as int] == agent && forall|
                j: int,
            | 0 <= j < k ==> agents@[j] != agent,
        decreases agents.len() - index,
    {
        if found.is_none() && agents[index] == agent {
            found = Some(index);
        }
        index = index + 1;
    }
    let position = match found {
        Some(k) => k,
        None => 0,
    };
    proof {
        crate::agent::lemma_all_agents_lists_each_agent_once(agent);
    }
    LOGO_IMAGE_ID_BASE + position as u32
}

/// Logo image ids are unique per agent.
pub proof fn lemma_logo_image_ids_are_unique(a: Agent, b: Agent)
    ensures
        spec_logo_image_id(a) == spec_logo_image_id(b) <==> a == b,
{
}

/// Logo image ids stay inside their reserved range, below the ids that pane
/// graphics allocate from.
pub proof fn lemma_logo_image_ids_stay_below_pane_graphics(agent: Agent)
    ensures
        LOGO_IMAGE_ID_BASE <= spec_logo_image_id(agent) < PANE_IMAGE_ID_BASE,
{
}

/// Whether a logo mask ships for `agent`.
pub open spec fn spec_has_mask(agent: Agent) -> bool {
    match agent {
        Agent::Amp | Agent::Antigravity | Agent::Claude | Agent::Codex | Agent::Cursor
        | Agent::Droid | Agent::Gemini | Agent::GithubCopilot | Agent::Grok | Agent::Omp
        | Agent::OpenCode | Agent::Pi => true,
        _ => false,
    }
}

/// Whether an alpha mask is bundled for `agent`. The masks themselves are
/// asset files (`assets/agent-logos/<agent>.mask`, the agent's name in
/// lowercase), read by the application; agents without one have no logo.
pub fn agent_logo_mask(agent: Agent) -> (bundled: bool)
    ensures
        bundled == spec_has_mask(agent),
{
    match agent {
        Agent::Amp | Agent::Antigravity | Agent::Claude | Agent::Codex | Agent::Cursor
        | Agent::Droid | Agent::Gemini | Agent::GithubCopilot | Agent::Grok | Agent::Omp
        | Agent::OpenCode | Agent::Pi => true,
        _ => false,
    }
}

/// The agents that ship a bundled mask.
pub open spec fn spec_agents_with_masks() -> Seq<Agent> {
    seq![
        Agent::Amp,
        Agent::Antigravity,
        Agent::Claude,
        Agent::Codex,
        Agent::Cursor,
        Agent::Droid,
        Agent::Gemini,
        Agent::GithubCopilot,
        Agent::Grok,
        Agent::Omp,
        Agent::OpenCode,
        Agent::Pi,
    ]
}

/// The agents that ship a bundled mask.
pub fn agents_with_masks() -> (agents: Vec<Agent>)
    ensures
        agents@ == spec_agents_with_masks(),
{
    vec![
        Agent::Amp,
        Agent::Antigravity,
        Agent::Claude,
        Agent::Codex,
        Agent::Cursor,
        Agent::Droid,
        Agent::Gemini,
        Agent::GithubCopilot,
        Agent::Grok,
        Agent::Omp,
        Agent::OpenCode,
        Agent::Pi,
    ]
}

/// An agent has a mask exactly when it is in the bundled list.
pub proof fn lemma_mask_presence_matches_bundled_list(agent: Agent)
    ensures
        spec_has_mask(agent) <==> spec_agents_with_masks().contains(agent),
{
    if spec_has_mask(agent) {
        let k: int = match agent {
            Agent::Amp => 0,
            Agent::Antigravity => 1,
            Agent::Claude => 2,
            Agent::Codex => 3,
            Agent::Cursor => 4,
            Agent::Droid => 5,
            Agent::Gemini => 6,
            Agent::GithubCopilot => 7,
            Agent::Grok => 8,
            Agent::Omp => 9,
            Agent::OpenCode => 10,
            _ => 11,
        };
        assert(spec_agents_with_masks()[k] == agent);
    }
}

// ---------------------------------------------------------------------------
// Tinting
// ---------------------------------------------------------------------------

/// Expand an alpha mask into straight-alpha RGBA at the mask's native size.
pub fn tint_mask(mask: &[u8], rgb: Rgb) -> (rgba: Vec<u8>)
    requires
        mask@.len() * 4 <= usize::MAX,
    ensures
        rgba@.len() == mask@.len() * 4,
        forall|i: int|
            0 <= i < mask@.len() ==> {
                &&& #[trigger] rgba@[4 * i] == rgb.0
                &&& rgba@[4 * i + 1] == rgb.1
                &&& rgba@[4 * i + 2] == rgb.2
                &&& rgba@[4 * i + 3] == mask@[i]
            },
{
    let (r, g, b) = rgb;
    let mut rgba: Vec<u8> = Vec::with_capacity(mask.len() * 4);
    let mut i: usize = 0;
    while i < mask.len()
        invariant
            0 <= i <= mask@.len(),
            mask@.len() * 4 <= usize::MAX,
            rgba@.len() == i * 4,
            forall|k: int|
                0 <= k < i ==> {
                    &&& #[trigger] rgba@[4 * k] == r
                    &&& rgba@[4 * k + 1] == g
                    &&& rgba@[4 * k + 2] == b
                    &&& rgba@[4 * k + 3] == mask@[k]
                },
        decreases mask@.len() - i,
    {
        let alpha = mask[i];
        let ghost before = rgba@;
        rgba.push(r);
        rgba.push(g);
        rgba.push(b);
        rgba.push(alpha);
        assert forall|k: int| 0 <= k < i + 1 implies {
            &&& #[trigger] rgba@[4 * k] == r
            &&& rgba@[4 * k + 1] == g
            &&& rgba@[4 * k + 2] == b
            &&& rgba@[4 * k + 3] == mask@[k]
        } by {
            if k < i {
                assert(rgba@[4 * k] == before[4 * k]);
                assert(rgba@[4 * k + 1] == before[4 * k + 1]);
                assert(rgba@[4 * k + 2] == before[4 * k + 2]);
                assert(rgba@[4 * k + 3] == before[4 * k + 3]);
            }
        }
        i = i + 1;
    }
    rgba
}

// ---------------------------------------------------------------------------
// Fitting a mask into a cell box
// ---------------------------------------------------------------------------

/// First source row/column (inclusive) covered by destination index `i` when
/// the 96-pixel mask is scaled to `side` pixels.
pub open spec fn src_start(i: int, side: int) -> int {
    (i * MASK_DIM) / side
}

/// Last source row/column (exclusive) covered by destination index `i`: at
/// least one source pixel is always covered.
pub open spec fn src_end(i: int, side: int) -> int {
    let e = ((i + 1) * MASK_DIM) / side;
    if e >= src_start(i, side) + 1 {
        e
    } else {
        src_start(i, side) + 1
    }
}

/// Sum of `mask[row + x]` for `x0 <= x < x1`.
pub open spec fn row_sum(mask: Seq<u8>, row: int, x0: int, x1: int) -> int
    decreases x1 - x0,
{
    if x1 <= x0 {
        0
    } else {
        row_sum(mask, row, x0, x1 - 1) + mask[row + x1 - 1]
    }
}

/// Sum of the mask over source rows `y0..y1` and columns `x0..x1`.
pub open spec fn box_sum(mask: Seq<u8>, y0: int, y1: int, x0: int, x1: int) -> int
    decreases y1 - y0,
{
    if y1 <= y0 {
        0
    } else {
        box_sum(mask, y0, y1 - 1, x0, x1) + row_sum(mask, (y1 - 1) * MASK_DIM, x0, x1)
    }
}

/// Box-filtered coverage of destination pixel `(x, y)` of a `side`-square:
/// the average of every source pixel that lands in it.
pub open spec fn fitted_value(mask: Seq<u8>, side: int, x: int, y: int) -> int {
    let y0 = src_start(y, side);
    let y1 = src_end(y, side);
    let x0 = src_start(x, side);
    let x1 = src_end(x, side);
    box_sum(mask, y0, y1, x0, x1) / ((y1 - y0) * (x1 - x0))
}

/// The side of the square a mask is scaled to inside a `w` x `h` box.
pub open spec fn fit_side(w: int, h: int) -> int {
    if w <= h {
        w
    } else {
        h
    }
}

/// Coverage of pixel `(px, py)` of a `w` x `h` box: the scaled mask inside the
/// centered square, transparent everywhere else.
pub open spec fn fitted_pixel(mask: Seq<u8>, w: int, h: int, px: int, py: int) -> int {
    let side = fit_side(w, h);
    let x_pad = (w - side) / 2;
    let y_pad = (h - side) / 2;
    if x_pad <= px < x_pad + side && y_pad <= py < y_pad + side {
        fitted_value(mask, side, px - x_pad, py - y_pad)
    } else {
        0
    }
}

proof fn lemma_row_sum_bounds(mask: Seq<u8>, row: int, x0: int, x1: int)
    requires
        0 <= row,
        0 <= x0,
        x1 <= MASK_DIM,
        row + MASK_DIM <= mask.len(),
    ensures
        0 <= row_sum(mask, row, x0, x1),
        row_sum(mask, row, x0, x1) <= 255 * (if x1 > x0 { x1 - x0 } else { 0 }),
    decreases x1 - x0,
{
    if x1 > x0 {
        lemma_row_sum_bounds(mask, row, x0, x1 - 1);
    }
}

proof fn lemma_src_range(i: int, side: int)
    requires
        0 <= i < side,
    ensures
        0 <= src_start(i, side) < src_end(i, side) <= MASK_DIM,
        src_end(i, side) - src_start(i, side) <= MASK_DIM,
{
    assert(0 <= i * 96) by (nonlinear_arith)
        requires
            0 <= i,
    ;
    assert((i * 96) / side < 96) by (nonlinear_arith)
        requires
            0 <= i < side,
    ;
    assert(((i + 1) * 96) / side <= 96) by (nonlinear_arith)
        requires
            0 <= i < side,
    ;
    assert(0 <= (i * 96) / side) by (nonlinear_arith)
        requires
            0 <= i < side,
    ;
}

/// The box filter covers the mask exactly once when shrinking it: for a
/// square of `side <= 96` pixels, the source rows (and columns) of the
/// destination pixels are non-empty, the first starts at 0, each one starts
/// where the one before ends, and the last ends at the mask's edge. No
/// source pixel is skipped or counted twice.
pub proof fn lemma_box_filter_tiles_the_mask(side: int, i: int)
    requires
        0 < side <= MASK_DIM,
        0 <= i < side,
    ensures
        src_start(0, side) == 0,
        src_start(i, side) < src_end(i, side),
        i + 1 < side ==> src_end(i, side) == src_start(i + 1, side),
        i + 1 == side ==> src_end(i, side) == MASK_DIM,
{
    let a = i * 96int;
    assert(0 <= a) by (nonlinear_arith)
        requires
            0 <= i,
            a == i * 96,
    ;
    assert((i + 1) * 96 == a + 96) by (nonlinear_arith)
        requires
            a == i * 96,
    ;
    vstd::arithmetic::div_mod::lemma_div_plus_one(a, side);
    vstd::arithmetic::div_mod::lemma_div_is_ordered(a + side, a + 96, side);
    assert(0int * 96 == 0);
    assert(0int / side == 0);
    if i + 1 == side {
        vstd::arithmetic::div_mod::lemma_div_multiples_vanish(96, side);
        assert(side * 96 == (i + 1) * 96) by (nonlinear_arith)
            requires
                i + 1 == side,
        ;
    }
}

/// When the side divides the mask's 96 pixels, every destination pixel is
/// the floor average of its own `f` x `f` block of source pixels, where
/// `f = 96 / side`: for instance a 48-pixel side averages 2 x 2 blocks.
pub proof fn lemma_box_filter_averages_whole_blocks(mask: Seq<u8>, side: int, x: int, y: int)
    requires
        0 < side <= MASK_DIM,
        (MASK_DIM as int) % side == 0,
        0 <= x < side,
        0 <= y < side,
    ensures
        ({
            let f = (MASK_DIM as int) / side;
            fitted_value(mask, side, x, y) == box_sum(mask, y * f, (y + 1) * f, x * f, (x + 1) * f) / (f * f)
        }),
{
    let f = 96int / side;
    vstd::arithmetic::div_mod::lemma_fundamental_div_mod(96, side);
    assert(side * f == 96);
    assert forall|i: int| 0 <= i <= side implies #[trigger] ((i * 96) / side) == i * f by {
        assert(i * 96 == side * (i * f)) by (nonlinear_arith)
            requires
                side * f == 96,
        ;
        vstd::arithmetic::div_mod::lemma_div_multiples_vanish(i * f, side);
    }
    assert(f >= 1) by (nonlinear_arith)
        requires
            side * f == 96,
            0 < side <= 96,
    ;
    assert(((x + 1) * 96) / side == (x + 1) * f);
    assert((x * 96) / side == x * f);
    assert(((y + 1) * 96) / side == (y + 1) * f);
    assert((y * 96) / side == y * f);
    assert((x + 1) * f == x * f + f && (y + 1) * f == y * f + f) by (nonlinear_arith);
    assert(src_end(x, side) == (x + 1) * f);
    assert(src_end(y, side) == (y + 1) * f);
    assert(((y + 1) * f - y * f) * ((x + 1) * f - x * f) == f * f) by (nonlinear_arith)
        requires
            (x + 1) * f == x * f + f,
            (y + 1) * f == y * f + f,
    ;
}

/// Scale the square mask to fit a `target_w` x `target_h` pixel box,
/// preserving aspect ratio and padding the remainder with transparent pixels.
pub fn fit_mask_to_box(mask: &[u8], target_w: u32, target_h: u32) -> (out: Vec<u8>)
    requires
        target_w as int * target_h as int <= u32::MAX,
        target_w > 0 && target_h > 0 ==> mask@.len() >= MASK_LEN,
    ensures
        target_w == 0 || target_h == 0 ==> out@.len() == 0,
        target_w > 0 && target_h > 0 ==> out@.len() == target_w * target_h,
        forall|p: int|
            0 <= p < out@.len() ==> #[trigger] out@[p] == fitted_pixel(
                mask@,
                target_w as int,
                target_h as int,
                p % (target_w as int),
                p / (target_w as int),
            ),
{
    if target_w == 0 || target_h == 0 {
        return Vec::new();
    }
    let w = target_w;
    let h = target_h;
    let side = if w <= h {
        w
    } else {
        h
    };
    let x_pad = (w - side) / 2;
    let y_pad = (h - side) / 2;
    assert(side as int * side as int <= w as int * h as int) by (nonlinear_arith)
        requires
            0 < side <= w,
            side <= h,
    ;
    assert(w as int * h as int >= 1) by (nonlinear_arith)
        requires
            w >= 1,
            h >= 1,
    ;
    let ghost wi = w as int;
    let ghost hi = h as int;
    let ghost m = mask@;
    let mut out: Vec<u8> = vec![0u8; (w * h) as usize];
    let mut y: u32 = 0;
    while y < side
        invariant
            wi == w,
            hi == h,
            m == mask@,
            w > 0,
            h > 0,
            wi * hi <= u32::MAX,
            side == fit_side(wi, hi),
            x_pad == (wi - side) / 2,
            y_pad == (hi - side) / 2,
            side as int * side as int <= wi * hi,
            mask@.len() >= MASK_LEN,
            0 <= y <= side,
            out@.len() == wi * hi,
            forall|p: int|
                0 <= p < out@.len() ==> #[trigger] out@[p] == (if y_pad <= p / wi < y_pad + y
                    && x_pad <= p % wi < x_pad + side {
                    fitted_pixel(m, wi, hi, p % wi, p / wi)
                } else {
                    0
                }),
        decreases side - y,
    {
        assert(side <= 65535) by (nonlinear_arith)
            requires
                side as int * side as int <= u32::MAX,
        ;
        let sy0 = y * MASK_DIM / side;
        let sy1_raw = (y + 1) * MASK_DIM / side;
        let sy1 = if sy1_raw >= sy0 + 1 {
            sy1_raw
        } else {
            sy0 + 1
        };
        proof {
            lemma_src_range(y as int, side as int);
        }
        let mut x: u32 = 0;
        while x < side
            invariant
                wi == w,
                hi == h,
                m == mask@,
                w > 0,
                h > 0,
                wi * hi <= u32::MAX,
                side == fit_side(wi, hi),
                side <= 65535,
                x_pad == (wi - side) / 2,
                y_pad == (hi - side) / 2,
                side as int * side as int <= wi * hi,
                mask@.len() >= MASK_LEN,
                0 <= y < side,
                0 <= x <= side,
                sy0 == src_start(y as int, side as int),
                sy1 == src_end(y as int, side as int),
                0 <= sy0 < sy1 <= MASK_DIM,
                out@.len() == wi * hi,
                forall|p: int|
                    0 <= p < out@.len() ==> #[trigger] out@[p] == (if x_pad <= p % wi < x_pad
                        + side && (y_pad <= p / wi < y_pad + y || (p / wi == y_pad + y && p % wi
                        < x_pad + x)) {
                        fitted_pixel(m, wi, hi, p % wi, p / wi)
                    } else {
                        0
                    }),
            decreases side - x,
        {
            let sx0 = x * MASK_DIM / side;
            let sx1_raw = (x + 1) * MASK_DIM / side;
            let sx1 = if sx1_raw >= sx0 + 1 {
                sx1_raw
            } else {
                sx0 + 1
            };
            proof {
                lemma_src_range(x as int, side as int);
            }
            let mut total: u32 = 0;
            let mut count: u32 = 0;
            let mut sy = sy0;
            while sy < sy1
                invariant
                    m == mask@,
                    mask@.len() >= MASK_LEN,
                    0 <= sy0 <= sy <= sy1 <= MASK_DIM,
                    0 <= sx0 < sx1 <= MASK_DIM,
                    total == box_sum(m, sy0 as int, sy as int, sx0 as int, sx1 as int),
                    count == (sy - sy0) * (sx1 - sx0),
                    total <= 255 * count,
                    count <= (sy - sy0) * MASK_DIM,
                decreases sy1 - sy,
            {
                let row = (sy * MASK_DIM) as usize;
                let mut sx = sx0;
                let ghost total_before = total;
                let ghost count_before = count;
                while sx < sx1
                    invariant
                        m == mask@,
                        mask@.len() >= MASK_LEN,
                        0 <= sy0 <= sy < sy1 <= MASK_DIM,
                        0 <= sx0 <= sx <= sx1 <= MASK_DIM,
                        row == sy * MASK_DIM,
                        total == total_before + row_sum(m, row as int, sx0 as int, sx as int),
                        count == count_before + (sx - sx0),
                        total_before <= 255 * count_before,
                        count_before == (sy - sy0) * (sx1 - sx0),
                        count_before <= (sy - sy0) * MASK_DIM,
                        total <= 255 * count,
                    decreases sx1 - sx,
                {
                    assert(row + sx < MASK_LEN) by (nonlinear_arith)
                        requires
                            row == sy * 96,
                            sy < 96,
                            sx < 96,
                    ;
                    total = total + mask[row + sx as usize] as u32;
                    count = count + 1;
                    sx = sx + 1;
                }
                proof {
                    assert(count == (sy + 1 - sy0) * (sx1 - sx0)) by (nonlinear_arith)
                        requires
                            count == count_before + (sx1 - sx0),
                            count_before == (sy - sy0) * (sx1 - sx0),
                    ;
                    assert(count <= (sy + 1 - sy0) * 96) by (nonlinear_arith)
                        requires
                            count == (sy + 1 - sy0) * (sx1 - sx0),
                            sx1 - sx0 <= 96,
                            sy + 1 - sy0 >= 0,
                    ;
                }
                sy = sy + 1;
            }
            assert(count >= 1) by (nonlinear_arith)
                requires
                    count == (sy1 - sy0) * (sx1 - sx0),
                    sy1 > sy0,
                    sx1 > sx0,
            ;
            let value = total / count;
            assert(value <= 255) by (nonlinear_arith)
                requires
                    value == total / count,
                    total <= 255 * count,
                    count >= 1,
            ;
            let dst_row = y + y_pad;
            let dst_col = x + x_pad;
            assert(dst_row < h && dst_col < w);
            assert(dst_row as int * wi + dst_col < wi * hi) by (nonlinear_arith)
                requires
                    dst_row < hi,
                    dst_col < wi,
            ;
            let dst = (dst_row * w + dst_col) as usize;
            proof {
                lemma_fundamental_div_mod_converse(dst as int, wi, dst_row as int, dst_col as int);
            }
            let ghost before = out@;
            out.set(dst, value as u8);
            assert forall|p: int| 0 <= p < out@.len() implies #[trigger] out@[p] == (if x_pad
                <= p % wi < x_pad + side && (y_pad <= p / wi < y_pad + y || (p / wi == y_pad + y
                && p % wi < x_pad + x + 1)) {
                fitted_pixel(m, wi, hi, p % wi, p / wi)
            } else {
                0
            }) by {
                vstd::arithmetic::div_mod::lemma_fundamental_div_mod(p, wi);
                assert(0 <= p % wi < wi) by {
                    vstd::arithmetic::div_mod::lemma_mod_bound(p, wi);
                }
                if p != dst {
                    assert(out@[p] == before[p]);
                    if p / wi == y_pad + y && p % wi == x_pad + x {
                        assert(p == dst) by (nonlinear_arith)
                            requires
                                p == wi * (p / wi) + p % wi,
                                p / wi == dst_row,
                                p % wi == dst_col,
                                dst == dst_row * wi + dst_col,
                        ;
                    }
                } else {
                    assert(p % wi == x_pad + x);
                    assert(p / wi == y_pad + y);
                    assert(sx0 == src_start(x as int, side as int));
                    assert(sx1 == src_end(x as int, side as int));
                    assert(total == box_sum(m, sy0 as int, sy1 as int, sx0 as int, sx1 as int));
                    assert(value == fitted_value(m, side as int, x as int, y as int));
                    assert(fitted_pixel(m, wi, hi, p % wi, p / wi) == fitted_value(
                        m,
                        side as int,
                        x as int,
                        y as int,
                    ));
                }
            }
            x = x + 1;
        }
        y = y + 1;
    }
    out
}

/// A fully opaque mask fills the whole centered square with opaque pixels.
pub proof fn lemma_solid_mask_fills_the_square(mask: Seq<u8>, side: int, x: int, y: int)
    requires
        mask.len() >= MASK_LEN,
        forall|i: int| 0 <= i < MASK_LEN ==> mask[i] == 255,
        0 <= x < side,
        0 <= y < side,
    ensures
        fitted_value(mask, side, x, y) == 255,
{
    lemma_src_range(x, side);
    lemma_src_range(y, side);
    let y0 = src_start(y, side);
    let y1 = src_end(y, side);
    let x0 = src_start(x, side);
    let x1 = src_end(x, side);
    lemma_solid_box_sum(mask, y0, y1, x0, x1);
    let c = (y1 - y0) * (x1 - x0);
    assert(c > 0) by (nonlinear_arith)
        requires
            c == (y1 - y0) * (x1 - x0),
            y1 > y0,
            x1 > x0,
    ;
    assert((255 * c) / c == 255) by (nonlinear_arith)
        requires
            c > 0,
    ;
}

proof fn lemma_solid_row_sum(mask: Seq<u8>, row: int, x0: int, x1: int)
    requires
        mask.len() >= MASK_LEN,
        forall|i: int| 0 <= i < MASK_LEN ==> mask[i] == 255,
        0 <= row,
        row + MASK_DIM <= MASK_LEN,
        0 <= x0 <= x1 <= MASK_DIM,
    ensures
        row_sum(mask, row, x0, x1) == 255 * (x1 - x0),
    decreases x1 - x0,
{
    if x1 > x0 {
        lemma_solid_row_sum(mask, row, x0, x1 - 1);
    }
}

proof fn lemma_solid_box_sum(mask: Seq<u8>, y0: int, y1: int, x0: int, x1: int)
    requires
        mask.len() >= MASK_LEN,
        forall|i: int| 0 <= i < MASK_LEN ==> mask[i] == 255,
        0 <= y0 <= y1 <= MASK_DIM,
        0 <= x0 <= x1 <= MASK_DIM,
    ensures
        box_sum(mask, y0, y1, x0, x1) == 255 * ((y1 - y0) * (x1 - x0)),
    decreases y1 - y0,
{
    if y1 > y0 {
        lemma_solid_box_sum(mask, y0, y1 - 1, x0, x1);
        assert((y1 - 1) * 96 + 96 <= MASK_LEN) by (nonlinear_arith)
            requires
                y1 <= 96,
        ;
        assert(0 <= (y1 - 1) * 96) by (nonlinear_arith)
            requires
                y1 >= 1,
        ;
        lemma_solid_row_sum(mask, (y1 - 1) * MASK_DIM, x0, x1);
        let prev = box_sum(mask, y0, y1 - 1, x0, x1);
        let r = row_sum(mask, (y1 - 1) * MASK_DIM, x0, x1);
        assert(prev + r == 255 * ((y1 - y0) * (x1 - x0))) by (nonlinear_arith)
            requires
                prev == 255 * ((y1 - 1 - y0) * (x1 - x0)),
                r == 255 * (x1 - x0),
        ;
        assert(box_sum(mask, y0, y1, x0, x1) == box_sum(mask, y0, y1 - 1, x0, x1) + row_sum(
            mask,
            (y1 - 1) * MASK_DIM,
            x0,
            x1,
        ));
        assert(255 * ((y1 - 1 - y0) * (x1 - x0)) + 255 * (x1 - x0) == 255 * ((y1 - y0) * (x1
            - x0))) by (nonlinear_arith);
    } else {
        assert(255 * ((y1 - y0) * (x1 - x0)) == 0) by (nonlinear_arith)
            requires
                y1 == y0,
        ;
    }
}

} // verus!
