use herdr::keys::{KeyCode, TerminalKey};
use herdr::palette::{Color, Palette};
use herdr::shell::{
    indicator_index, integration_needs_install, toast_index, ClientSettingsSection,
    ClientShellAction, ClientShellConfig, ClientShellEndpointError, ClientShellInput,
    ClientShellOverlay, ClientShellState, ConfigEdit, EndpointMethod, FilterEdit,
    IntegrationInfo, IntegrationState, PendingEndpointKind, ResponseResult, ToastDelivery,
};
use herdr::status::StatusIndicatorStyle;
use herdr::themes::{filtered_theme_names, theme_index_in, theme_names, ThemeEntry};

fn rgb(hex: u32) -> Color {
    Color::Rgb((hex >> 16) as u8, (hex >> 8) as u8, hex as u8)
}

fn catppuccin() -> Palette {
    Palette {
        accent: rgb(0xcba6f7),
        panel_bg: rgb(0x1e1e2e),
        surface0: rgb(0x313244),
        surface1: rgb(0x45475a),
        surface_dim: rgb(0x181825),
        overlay0: rgb(0x6c7086),
        overlay1: rgb(0x7f849c),
        text: rgb(0xcdd6f4),
        subtext0: rgb(0xa6adc8),
        mauve: rgb(0xcba6f7),
        green: rgb(0xa6e3a1),
        yellow: rgb(0xf9e2af),
        red: rgb(0xf38ba8),
        blue: rgb(0x89b4fa),
        teal: rgb(0x94e2d5),
        peach: rgb(0xfab387),
    }
}

fn nord() -> Palette {
    let mut p = catppuccin();
    p.text = rgb(0xeceff4);
    p.panel_bg = rgb(0x2e3440);
    p
}

const CATALOG: &[&str] = &[
    "catppuccin",
    "catppuccin-latte",
    "terminal",
    "tokyo-night",
    "tokyo-night-day",
    "dracula",
    "nord",
    "gruvbox",
    "gruvbox-light",
    "one-dark",
    "one-light",
    "solarized",
    "solarized-light",
    "kanagawa",
    "kanagawa-lotus",
    "rose-pine",
    "rose-pine-dawn",
    "vesper",
    "github-dark",
    "nightfox",
    "tokyo-night-storm",
    "tokyonight",
    "tokyonight-moon",
    "tokyonight-storm",
];

fn catalog() -> Vec<ThemeEntry> {
    CATALOG
        .iter()
        .map(|name| ThemeEntry {
            name: name.to_string(),
            palette: if *name == "nord" { nord() } else { catppuccin() },
        })
        .collect()
}

fn catalog_names() -> Vec<String> {
    CATALOG.iter().map(|s| s.to_string()).collect()
}

fn test_config() -> ClientShellConfig {
    ClientShellConfig {
        theme_name: "catppuccin".to_string(),
        palette: catppuccin(),
        status_indicators: StatusIndicatorStyle::Dots,
        sound_enabled: true,
        toast_delivery: ToastDelivery::Herdr,
        status_animation_frame: 0,
    }
}

fn test_state() -> ClientShellState {
    ClientShellState::new(test_config(), catalog())
}

fn theme_filter(state: &ClientShellState) -> &str {
    match state.overlay.as_ref() {
        Some(ClientShellOverlay::Settings(settings)) => settings.theme_filter.as_str(),
        _ => panic!("settings overlay must be open"),
    }
}

fn theme_selected(state: &ClientShellState) -> usize {
    match state.overlay.as_ref() {
        Some(ClientShellOverlay::Settings(settings)) => settings.selected,
        _ => panic!("settings overlay must be open"),
    }
}

fn section(state: &ClientShellState) -> ClientSettingsSection {
    match state.overlay.as_ref() {
        Some(ClientShellOverlay::Settings(settings)) => settings.section,
        _ => panic!("settings overlay must be open"),
    }
}

fn none() -> u8 {
    crossterm::event::KeyModifiers::NONE.bits()
}

fn key(code: KeyCode) -> TerminalKey {
    TerminalKey::new(code, none())
}

#[test]
fn indicator_index_is_distinct_for_every_style() {
    let styles = [
        StatusIndicatorStyle::Dots,
        StatusIndicatorStyle::Symbols,
        StatusIndicatorStyle::Animated,
    ];
    let mut indices: Vec<usize> = styles.iter().map(|s| indicator_index(*s)).collect();
    indices.sort_unstable();
    indices.dedup();
    assert_eq!(indices, vec![0, 1, 2]);
}

#[test]
fn theme_filter_predicate_is_multi_word_and_no_match_is_empty() {
    let names = catalog_names();
    assert!(filtered_theme_names(&names, "tokyo night")
        .iter()
        .any(|name| name.eq_ignore_ascii_case("tokyonight-storm")));
    assert!(filtered_theme_names(&names, "not-a-real-theme-query").is_empty());
}

#[test]
fn selection_stays_in_range_when_filter_shrinks_the_list() {
    let mut state = test_state();
    state.open_settings_overlay();

    let mut outcome = ClientShellInput::new();
    for character in "storm".chars() {
        state.route_settings_key(&key(KeyCode::Char(character)), &mut outcome);
    }
    let names = theme_names(&state.themes);
    let storm_count = filtered_theme_names(&names, theme_filter(&state)).len();
    assert!(
        storm_count > 1,
        "expected more than one theme matching 'storm' to exercise a shrinking filter"
    );
    for _ in 0..storm_count {
        state.move_settings_selection(1);
    }
    assert_eq!(theme_selected(&state), storm_count - 1);

    state.route_settings_key(&key(KeyCode::Char('z')), &mut outcome);
    let narrowed_count = filtered_theme_names(&names, theme_filter(&state)).len();
    assert!(narrowed_count < storm_count);
    assert_eq!(theme_selected(&state), 0);
    assert!(theme_selected(&state) < narrowed_count.max(1));
}

#[test]
fn esc_clears_filter_before_cancelling_overlay() {
    let mut state = test_state();
    state.open_settings_overlay();
    let original_theme = state.config.theme_name.clone();
    let mut outcome = ClientShellInput::new();

    state.route_settings_key(&key(KeyCode::Char('x')), &mut outcome);
    assert_eq!(theme_filter(&state), "x");

    state.route_settings_key(&key(KeyCode::Esc), &mut outcome);
    assert!(matches!(state.overlay, Some(ClientShellOverlay::Settings(_))));
    assert_eq!(theme_filter(&state), "");

    state.route_settings_key(&key(KeyCode::Esc), &mut outcome);
    assert!(state.overlay.is_none());
    assert_eq!(state.config.theme_name, original_theme);
}

#[test]
fn toast_index_gives_each_delivery_its_own_row() {
    assert_eq!(toast_index(ToastDelivery::Off), 0);
    assert_eq!(toast_index(ToastDelivery::Herdr), 1);
    assert_eq!(toast_index(ToastDelivery::Terminal), 2);
    assert_eq!(toast_index(ToastDelivery::System), 3);
}

#[test]
fn integrations_needing_install_are_outdated_or_available_and_missing() {
    let info = |state, available| IntegrationInfo { target: 7, state, available };
    assert!(integration_needs_install(&info(IntegrationState::Outdated, false)));
    assert!(integration_needs_install(&info(IntegrationState::NotInstalled, true)));
    assert!(!integration_needs_install(&info(IntegrationState::NotInstalled, false)));
    assert!(!integration_needs_install(&info(IntegrationState::Installed, true)));
}

#[test]
fn theme_index_falls_back_to_the_first_row_and_ignores_case_and_spacing() {
    let names = catalog_names();
    assert_eq!(theme_index_in(&names, "Tokyo Night"), 3);
    assert_eq!(theme_index_in(&names, "no-such-theme"), 0);
}

#[test]
fn opening_the_overlay_selects_the_current_theme() {
    let mut config = test_config();
    config.theme_name = "dracula".to_string();
    let mut state = ClientShellState::new(config, catalog());
    state.open_settings_overlay();
    assert_eq!(section(&state), ClientSettingsSection::Theme);
    assert_eq!(theme_selected(&state), 5);
    assert_eq!(theme_filter(&state), "");
}

#[test]
fn browsing_previews_and_cancel_restores_the_original_theme() {
    let mut state = test_state();
    state.open_settings_overlay();
    state.select_settings_choice(6);
    assert_eq!(state.config.theme_name, "nord");
    assert_eq!(state.config.palette, nord());
    state.move_settings_selection(-1);
    assert_eq!(state.config.theme_name, "dracula");
    state.cancel_settings_overlay();
    assert!(state.overlay.is_none());
    assert_eq!(state.config.theme_name, "catppuccin");
    assert_eq!(state.config.palette, catppuccin());
}

#[test]
fn selection_clamps_at_both_ends() {
    let mut state = test_state();
    state.open_settings_overlay();
    state.move_settings_selection(-5);
    assert_eq!(theme_selected(&state), 0);
    state.move_settings_selection(1000);
    assert_eq!(theme_selected(&state), CATALOG.len() - 1);
    state.select_settings_choice(1000);
    assert_eq!(theme_selected(&state), CATALOG.len() - 1);
}

#[test]
fn sections_wrap_around_in_both_directions() {
    let mut state = test_state();
    state.open_settings_overlay();
    let mut outcome = ClientShellInput::new();
    state.move_settings_section(-1, &mut outcome);
    assert_eq!(section(&state), ClientSettingsSection::Integrations);
    assert!(outcome.repaint);
    assert!(matches!(
        outcome.actions.as_slice(),
        [ClientShellAction::Endpoint {
            method: EndpointMethod::IntegrationList,
            kind: PendingEndpointKind::IntegrationList,
        }]
    ));
    state.move_settings_section(1, &mut outcome);
    assert_eq!(section(&state), ClientSettingsSection::Theme);
    state.move_settings_section(8, &mut outcome);
    assert_eq!(section(&state), ClientSettingsSection::Toast);
    assert_eq!(theme_selected(&state), 1);
}

#[test]
fn switching_sections_selects_the_current_setting() {
    let mut config = test_config();
    config.status_indicators = StatusIndicatorStyle::Animated;
    config.sound_enabled = false;
    let mut state = ClientShellState::new(config, catalog());
    state.open_settings_overlay();
    let mut outcome = ClientShellInput::new();
    state.select_settings_section(ClientSettingsSection::Indicators, &mut outcome);
    assert_eq!(theme_selected(&state), 2);
    assert_eq!(state.settings_choice_count(), 3);
    state.select_settings_section(ClientSettingsSection::Sound, &mut outcome);
    assert_eq!(theme_selected(&state), 1);
    assert_eq!(state.settings_choice_count(), 2);
    assert!(outcome.actions.is_empty());
}

#[test]
fn navigation_letters_type_into_the_theme_filter() {
    let mut state = test_state();
    state.open_settings_overlay();
    let mut outcome = ClientShellInput::new();
    for c in "hjkl".chars() {
        assert!(state.route_settings_key(&key(KeyCode::Char(c)), &mut outcome));
    }
    assert_eq!(theme_filter(&state), "hjkl");
    assert!(state.route_settings_key(&key(KeyCode::Backspace), &mut outcome));
    assert_eq!(theme_filter(&state), "hjk");
    let ctrl_u = TerminalKey::new(KeyCode::Char('u'), crossterm::event::KeyModifiers::CONTROL.bits());
    assert!(state.route_settings_key(&ctrl_u, &mut outcome));
    assert_eq!(theme_filter(&state), "");
}

#[test]
fn keys_do_nothing_without_the_overlay() {
    let mut state = test_state();
    let mut outcome = ClientShellInput::new();
    assert!(!state.route_settings_key(&key(KeyCode::Esc), &mut outcome));
    assert!(!outcome.repaint);
}

#[test]
fn applying_a_theme_hands_out_a_config_write_that_closes_the_overlay() {
    let mut state = test_state();
    state.open_settings_overlay();
    state.mutate_theme_filter(FilterEdit::Push("drac".to_string()));
    assert_eq!(state.config.theme_name, "dracula");
    let mut outcome = ClientShellInput::new();
    assert!(state.route_settings_key(&key(KeyCode::Enter), &mut outcome));
    let edit = match outcome.actions.pop() {
        Some(ClientShellAction::WriteConfig(edit)) => edit,
        other => panic!("expected a config write, got {other:?}"),
    };
    assert!(matches!(&edit, ConfigEdit::Theme(name) if name == "dracula"));
    let mut after = ClientShellInput::new();
    state.finish_settings_edit(&edit, Ok(()), &mut after);
    assert!(state.overlay.is_none());
    assert!(after.repaint);
    assert!(matches!(
        after.actions.as_slice(),
        [ClientShellAction::Endpoint {
            method: EndpointMethod::ServerReloadConfig,
            kind: PendingEndpointKind::ReloadConfig,
        }]
    ));
}

#[test]
fn a_failed_config_write_becomes_the_endpoint_error() {
    let mut state = test_state();
    let mut outcome = ClientShellInput::new();
    let saved = state.save_settings_edit(Err("disk full".to_string()), &mut outcome);
    assert!(!saved);
    assert_eq!(state.endpoint_error.as_deref(), Some("disk full"));
    assert!(outcome.repaint);
    assert!(outcome.actions.is_empty());
}

#[test]
fn applying_indicator_and_toast_rows_writes_their_values() {
    let mut state = test_state();
    state.open_settings_overlay();
    let mut outcome = ClientShellInput::new();
    state.select_settings_section(ClientSettingsSection::Indicators, &mut outcome);
    state.select_settings_choice(1);
    state.apply_settings_choice(&mut outcome);
    state.select_settings_section(ClientSettingsSection::Toast, &mut outcome);
    state.select_settings_choice(3);
    state.apply_settings_choice(&mut outcome);
    state.select_settings_section(ClientSettingsSection::Sound, &mut outcome);
    state.select_settings_choice(1);
    state.apply_settings_choice(&mut outcome);
    assert!(matches!(
        outcome.actions.as_slice(),
        [
            ClientShellAction::WriteConfig(ConfigEdit::StatusIndicators(StatusIndicatorStyle::Symbols)),
            ClientShellAction::WriteConfig(ConfigEdit::ToastDelivery(ToastDelivery::System)),
            ClientShellAction::WriteConfig(ConfigEdit::Sound(false)),
        ]
    ));
}

fn integrations_state() -> ClientShellState {
    let mut state = test_state();
    state.open_settings_overlay();
    let mut outcome = ClientShellInput::new();
    state.select_settings_section(ClientSettingsSection::Integrations, &mut outcome);
    let list = vec![
        IntegrationInfo { target: 1, state: IntegrationState::Installed, available: true },
        IntegrationInfo { target: 2, state: IntegrationState::Outdated, available: true },
        IntegrationInfo { target: 3, state: IntegrationState::NotInstalled, available: true },
        IntegrationInfo { target: 4, state: IntegrationState::NotInstalled, available: false },
    ];
    let (handled, follow_up) = state.handle_settings_endpoint_result(
        PendingEndpointKind::IntegrationList,
        Ok(ResponseResult::IntegrationList { integrations: list }),
    );
    assert!(handled);
    assert!(follow_up.is_empty());
    state
}

#[test]
fn installing_sends_one_request_per_recommended_integration() {
    let mut state = integrations_state();
    assert_eq!(state.settings_choice_count(), 4);
    let mut outcome = ClientShellInput::new();
    state.install_recommended_integrations(&mut outcome);
    assert_eq!(state.pending_integration_installs, 2);
    let targets: Vec<u32> = outcome
        .actions
        .iter()
        .map(|a| match a {
            ClientShellAction::Endpoint {
                method: EndpointMethod::IntegrationInstall { target },
                kind: PendingEndpointKind::IntegrationInstall,
            } => *target,
            other => panic!("unexpected action {other:?}"),
        })
        .collect();
    assert_eq!(targets, vec![2, 3]);
    let mut again = ClientShellInput::new();
    state.install_recommended_integrations(&mut again);
    assert!(again.actions.is_empty());
}

#[test]
fn the_last_install_reply_requests_the_list_again() {
    let mut state = integrations_state();
    let mut outcome = ClientShellInput::new();
    state.install_recommended_integrations(&mut outcome);
    let (handled, follow_up) = state.handle_settings_endpoint_result(
        PendingEndpointKind::IntegrationInstall,
        Ok(ResponseResult::IntegrationInstall { messages: vec!["installed 2".to_string()] }),
    );
    assert!(handled);
    assert!(follow_up.is_empty());
    assert_eq!(state.pending_integration_installs, 1);
    let (handled, follow_up) = state.handle_settings_endpoint_result(
        PendingEndpointKind::IntegrationInstall,
        Err(ClientShellEndpointError { code: None, message: "failed 3".to_string() }),
    );
    assert!(handled);
    assert_eq!(state.pending_integration_installs, 0);
    assert!(matches!(
        follow_up.as_slice(),
        [ClientShellAction::Endpoint {
            method: EndpointMethod::IntegrationList,
            kind: PendingEndpointKind::IntegrationList,
        }]
    ));
    match state.overlay.as_ref() {
        Some(ClientShellOverlay::Settings(settings)) => {
            assert_eq!(settings.integration_messages, vec!["installed 2", "failed 3"]);
            assert!(!settings.installing_integrations);
            assert!(settings.loading_integrations);
        }
        _ => panic!("settings overlay must be open"),
    }
}

#[test]
fn a_cancelled_install_does_not_refresh_the_list() {
    let mut state = integrations_state();
    let mut outcome = ClientShellInput::new();
    state.install_recommended_integrations(&mut outcome);
    let cancelled = || ClientShellEndpointError {
        code: Some("endpoint_cancelled".to_string()),
        message: "cancelled".to_string(),
    };
    state.handle_settings_endpoint_result(PendingEndpointKind::IntegrationInstall, Err(cancelled()));
    let (_, follow_up) = state
        .handle_settings_endpoint_result(PendingEndpointKind::IntegrationInstall, Err(cancelled()));
    assert!(follow_up.is_empty());
}

#[test]
fn an_unexpected_list_reply_becomes_the_endpoint_error() {
    let mut state = test_state();
    state.open_settings_overlay();
    let (handled, _) = state
        .handle_settings_endpoint_result(PendingEndpointKind::IntegrationList, Ok(ResponseResult::Other));
    assert!(handled);
    assert_eq!(
        state.endpoint_error.as_deref(),
        Some("endpoint returned an unexpected integration list result")
    );
    let (handled, _) =
        state.handle_settings_endpoint_result(PendingEndpointKind::ReloadConfig, Ok(ResponseResult::Other));
    assert!(!handled);
}

#[test]
fn a_disconnected_endpoint_queues_nothing() {
    let mut state = test_state();
    state.endpoint_connected = false;
    state.open_settings_overlay();
    let mut outcome = ClientShellInput::new();
    state.select_settings_section(ClientSettingsSection::Integrations, &mut outcome);
    assert!(outcome.actions.is_empty());
    match state.overlay.as_ref() {
        Some(ClientShellOverlay::Settings(settings)) => assert!(!settings.loading_integrations),
        _ => panic!("settings overlay must be open"),
    }
}
