use herdr::palette::{Color, Palette};
use herdr::shell::{ClientShellConfig, ClientShellState, ToastDelivery};
use herdr::status::{
    status_icon, status_icon_at_frame, working_spinner_frames, AgentStatus, StatusIndicatorStyle,
};
use herdr::themes::ThemeEntry;

fn gray_palette() -> Palette {
    let c = Color::Rgb(0x80, 0x80, 0x80);
    Palette {
        accent: c,
        panel_bg: c,
        surface0: c,
        surface1: c,
        surface_dim: c,
        overlay0: c,
        overlay1: c,
        text: c,
        subtext0: c,
        mauve: c,
        green: c,
        yellow: c,
        red: c,
        blue: c,
        teal: c,
        peach: c,
    }
}

fn state_with_style_and_agent(style: StatusIndicatorStyle, status: AgentStatus) -> ClientShellState {
    let config = ClientShellConfig {
        theme_name: "terminal".to_string(),
        palette: gray_palette(),
        status_indicators: style,
        sound_enabled: true,
        toast_delivery: ToastDelivery::Herdr,
        status_animation_frame: 0,
    };
    let themes = vec![ThemeEntry { name: "terminal".to_string(), palette: gray_palette() }];
    let mut state = ClientShellState::new(config, themes);
    state.set_agent_statuses(vec![status]);
    state
}

#[test]
fn every_animated_non_working_state_matches_symbols() {
    for status in [
        AgentStatus::Blocked,
        AgentStatus::Done,
        AgentStatus::Idle,
        AgentStatus::Unknown,
    ] {
        assert_eq!(
            status_icon_at_frame(status, StatusIndicatorStyle::Animated, 3),
            status_icon(status, StatusIndicatorStyle::Symbols),
            "Animated must match Symbols for non-working state {status:?}"
        );
    }
}

#[test]
fn working_glyph_advances_and_wraps_at_ten() {
    let frames = working_spinner_frames();
    for frame in 0u8..24 {
        assert_eq!(
            status_icon_at_frame(AgentStatus::Working, StatusIndicatorStyle::Animated, frame),
            frames[usize::from(frame) % frames.len()],
        );
    }
    assert_eq!(
        status_icon_at_frame(AgentStatus::Working, StatusIndicatorStyle::Animated, 10),
        status_icon_at_frame(AgentStatus::Working, StatusIndicatorStyle::Animated, 0),
    );
}

#[test]
fn all_spinner_frames_are_single_cell_width() {
    for frame in working_spinner_frames() {
        assert_eq!(
            unicode_width::UnicodeWidthStr::width(frame),
            1,
            "spinner frame {frame:?} must be single-cell so the row layout never shifts"
        );
    }
}

#[test]
fn tick_returns_false_when_style_is_not_animated() {
    let mut state = state_with_style_and_agent(StatusIndicatorStyle::Symbols, AgentStatus::Working);
    let start: u64 = 1_000;
    assert!(!state.tick_status_animation(start));
    assert!(!state.tick_status_animation(start + 500));
    assert_eq!(state.config.status_animation_frame, 0);
}

#[test]
fn tick_returns_false_when_nothing_is_working() {
    let mut state = state_with_style_and_agent(StatusIndicatorStyle::Animated, AgentStatus::Idle);
    let start: u64 = 1_000;
    assert!(!state.tick_status_animation(start));
    assert!(!state.tick_status_animation(start + 500));
    assert_eq!(state.config.status_animation_frame, 0);
}

#[test]
fn tick_advances_frame_only_once_per_hundred_millis_while_working() {
    let mut state = state_with_style_and_agent(StatusIndicatorStyle::Animated, AgentStatus::Working);
    let start: u64 = 1_000;

    assert!(!state.tick_status_animation(start));
    assert_eq!(state.config.status_animation_frame, 0);

    assert!(!state.tick_status_animation(start + 50));
    assert_eq!(state.config.status_animation_frame, 0);

    assert!(state.tick_status_animation(start + 100));
    assert_eq!(state.config.status_animation_frame, 1);
}

#[test]
fn the_spinner_frame_wraps_after_ten_periods() {
    let mut state = state_with_style_and_agent(StatusIndicatorStyle::Animated, AgentStatus::Working);
    let mut now: u64 = 0;
    assert!(!state.tick_status_animation(now));
    for expected in (1u8..10).chain(0u8..2) {
        now += 100;
        assert!(state.tick_status_animation(now));
        assert_eq!(state.config.status_animation_frame, expected);
    }
}

#[test]
fn dots_draw_every_state_alike_and_symbols_tell_them_apart() {
    for status in [AgentStatus::Working, AgentStatus::Blocked, AgentStatus::Idle] {
        assert_eq!(status_icon(status, StatusIndicatorStyle::Dots), "\u{25cf}");
    }
    assert_eq!(status_icon(AgentStatus::Working, StatusIndicatorStyle::Symbols), "\u{25d0}");
    assert_eq!(status_icon(AgentStatus::Done, StatusIndicatorStyle::Symbols), "\u{2713}");
    assert_eq!(status_icon(AgentStatus::Unknown, StatusIndicatorStyle::Symbols), "?");
}
