use herdr::agent::{all_agents, Agent};
use herdr::agent_logo::{
    agent_brand_color, agent_logo_mask, agents_with_masks, fit_mask_to_box, logo_image_id,
    logo_tint, tint_fingerprint, tint_mask, LOGO_IMAGE_ID_BASE, MASK_DIM, MASK_LEN,
};
use herdr::palette::{pack, Color, Palette};

fn rgb(hex: u32) -> Color {
    Color::Rgb((hex >> 16) as u8, (hex >> 8) as u8, hex as u8)
}

fn catppuccin() -> Palette {
    Palette {
        accent: rgb(0xcba6f7),
        panel_bg: rgb(0x1e1e2e),
        surface0: rgb(0x313244),
        surface1: rgb(0x45475a),
        surface_dim: rgb(0x181825),
        overlay0: rgb(0x6c7086),
        overlay1: rgb(0x7f849c),
        text: rgb(0xcdd6f4),
        subtext0: rgb(0xa6adc8),
        mauve: rgb(0xcba6f7),
        green: rgb(0xa6e3a1),
        yellow: rgb(0xf9e2af),
        red: rgb(0xf38ba8),
        blue: rgb(0x89b4fa),
        teal: rgb(0x94e2d5),
        peach: rgb(0xfab387),
    }
}

#[test]
fn agents_without_a_bundled_mask_report_none() {
    let bundled_list = agents_with_masks();
    for agent in all_agents() {
        let bundled = bundled_list.contains(&agent);
        assert_eq!(
            agent_logo_mask(agent),
            bundled,
            "{agent:?} mask presence disagrees with the bundled list"
        );
    }
}

#[test]
fn logo_image_ids_are_unique_per_agent() {
    let mut ids: Vec<u32> = all_agents().into_iter().map(logo_image_id).collect();
    let total = ids.len();
    ids.sort_unstable();
    ids.dedup();
    assert_eq!(ids.len(), total, "logo image ids collide across agents");
}

#[test]
fn logo_image_ids_stay_below_the_pane_graphics_range() {
    for agent in all_agents() {
        assert!(
            logo_image_id(agent) < 10_000,
            "{agent:?} logo id overlaps the pane graphics id range"
        );
    }
}

#[test]
fn logo_image_ids_follow_the_agent_order() {
    let agents = all_agents();
    assert_eq!(logo_image_id(agents[0]), LOGO_IMAGE_ID_BASE);
    assert_eq!(logo_image_id(agents[3]), LOGO_IMAGE_ID_BASE + 3);
}

#[test]
fn tinting_preserves_alpha_and_applies_color() {
    let mask = [0u8, 128, 255];
    let rgba = tint_mask(&mask, (0x11, 0x22, 0x33));
    assert_eq!(
        rgba,
        vec![
            0x11, 0x22, 0x33, 0, //
            0x11, 0x22, 0x33, 128, //
            0x11, 0x22, 0x33, 255,
        ]
    );
}

#[test]
fn branded_agents_tint_with_their_brand_color() {
    let p = catppuccin();
    assert_eq!(logo_tint(Agent::Claude, &p), (0xD9, 0x77, 0x57));
    assert_eq!(logo_tint(Agent::Codex, &p), (0x10, 0xA3, 0x7F));
}

#[test]
fn unbranded_agents_tint_with_the_palette_foreground() {
    let mut p = catppuccin();
    p.text = Color::Rgb(1, 2, 3);
    assert_eq!(agent_brand_color(Agent::OpenCode), None);
    assert_eq!(logo_tint(Agent::OpenCode, &p), (1, 2, 3));
}

#[test]
fn a_non_rgb_palette_foreground_falls_back_to_gray() {
    let mut p = catppuccin();
    p.text = Color::Reset;
    assert_eq!(logo_tint(Agent::OpenCode, &p), (0xC0, 0xC0, 0xC0));
}

#[test]
fn tint_fingerprint_distinguishes_colors() {
    assert_ne!(tint_fingerprint((0xD9, 0x77, 0x57)), tint_fingerprint((0x10, 0xA3, 0x7F)));
    assert_eq!(tint_fingerprint((0, 0, 0)), 0);
    assert_eq!(tint_fingerprint((0xFF, 0xFF, 0xFF)), 0x00FF_FFFF);
}

#[test]
fn the_fingerprint_is_the_packed_color() {
    let tint = (0x12, 0x34, 0x56);
    assert_eq!(tint_fingerprint(tint), 0x123456);
    assert_eq!(tint_fingerprint(tint), pack(tint));
}

fn solid_mask() -> Vec<u8> {
    vec![0xFF; MASK_LEN]
}

#[test]
fn fitting_produces_a_buffer_of_exactly_the_target_size() {
    let fitted = fit_mask_to_box(&solid_mask(), 20, 22);
    assert_eq!(fitted.len(), 20 * 22);
}

#[test]
fn fitting_letterboxes_instead_of_stretching() {
    let w = 30;
    let h = 10;
    let fitted = fit_mask_to_box(&solid_mask(), w, h);

    let opaque_in_row = |y: u32| (0..w).filter(|x| fitted[(y * w + x) as usize] > 0).collect::<Vec<_>>();
    let covered = opaque_in_row(h / 2);
    assert_eq!(
        covered.len() as u32,
        h,
        "logo should span only the short side ({h}px), not the full width"
    );
    assert_eq!(covered.first().copied(), Some((w - h) / 2), "not centered");
}

#[test]
fn fitting_a_tall_box_pads_top_and_bottom() {
    let w = 10;
    let h = 30;
    let fitted = fit_mask_to_box(&solid_mask(), w, h);
    let opaque_in_col = |x: u32| (0..h).filter(|y| fitted[(y * w + x) as usize] > 0).collect::<Vec<_>>();
    let covered = opaque_in_col(w / 2);
    assert_eq!(covered.len() as u32, w, "logo should span only the short side");
    assert_eq!(covered.first().copied(), Some((h - w) / 2), "not centered");
}

#[test]
fn a_square_box_is_fully_covered_by_a_solid_mask() {
    let fitted = fit_mask_to_box(&solid_mask(), 24, 24);
    assert!(
        fitted.iter().all(|alpha| *alpha == 0xFF),
        "a square target should need no padding at all"
    );
}

#[test]
fn fitting_a_degenerate_box_yields_nothing_rather_than_panicking() {
    assert!(fit_mask_to_box(&solid_mask(), 0, 10).is_empty());
    assert!(fit_mask_to_box(&solid_mask(), 10, 0).is_empty());
}

#[test]
fn fitting_averages_the_source_pixels_of_each_target_pixel() {
    // Left half opaque, right half transparent: a 2x2 target averages each
    // 48x48 quadrant, and a 64x64 target splits the columns exactly.
    let dim = MASK_DIM as usize;
    let mut mask = vec![0u8; MASK_LEN];
    for y in 0..dim {
        for x in 0..dim / 2 {
            mask[y * dim + x] = 200;
        }
    }
    assert_eq!(fit_mask_to_box(&mask, 2, 2), vec![200, 0, 200, 0]);
    let big = fit_mask_to_box(&mask, 64, 64);
    assert!(big.iter().enumerate().all(|(i, a)| *a == if i % 64 < 32 { 200 } else { 0 }));
}
