//! The client shell's settings overlay: a state machine over the shell state
//! that reacts to keys, picks themes and indicator styles, asks the server for
//! integration work and digests the server's replies. Work that leaves the
//! process (writing the config file, sending endpoint requests) is returned as
//! actions for the caller to perform.
use vstd::prelude::*;
use crate::keys::{
    TerminalKey, KeyCode, SHIFT, CONTROL, modifiers_is_empty, modifiers_contains,
    modifiers_difference,
};
use crate::palette::Palette;
use crate::text::spec_normalized_theme_name;
use crate::status::{AgentStatus, StatusIndicatorStyle, SPINNER_FRAME_COUNT, SPINNER_FRAME_MILLIS};
use crate::themes::{
    ThemeEntry, ThemeEntryView, catalog_names, themes_view, strings_view, filtered_theme_names,
    spec_filtered_theme_names, theme_index_in, spec_theme_index_in, palette_for_theme,
    spec_palette_for_theme, theme_names, lemma_theme_index_is_first_match,
};

verus! {

// ---------------------------------------------------------------------------
// Configuration values the overlay edits
// ---------------------------------------------------------------------------

/// Where toast notifications are delivered.
#[derive(Clone, Copy, Debug, PartialEq, Eq, Structural)]
pub enum ToastDelivery {
    Off,
    Herdr,
    Terminal,
    System,
}

/// The sections of the settings overlay, in display order.
#[derive(Clone, Copy, Debug, PartialEq, Eq, Structural)]
pub enum ClientSettingsSection {
    Theme,
    Indicators,
    Sound,
    Toast,
    Integrations,
}

/// Number of settings sections.
pub const SETTINGS_SECTION_COUNT: usize = 5;

/// Position of a section in display order.
pub open spec fn section_position(section: ClientSettingsSection) -> int {
    match section {
        ClientSettingsSection::Theme => 0,
        ClientSettingsSection::Indicators => 1,
        ClientSettingsSection::Sound => 2,
        ClientSettingsSection::Toast => 3,
        ClientSettingsSection::Integrations => 4,
    }
}

/// The section at a display position.
pub open spec fn section_at(position: int) -> ClientSettingsSection {
    if position == 0 {
        ClientSettingsSection::Theme
    } else if position == 1 {
        ClientSettingsSection::Indicators
    } else if position == 2 {
        ClientSettingsSection::Sound
    } else if position == 3 {
        ClientSettingsSection::Toast
    } else {
        ClientSettingsSection::Integrations
    }
}

/// Every settings section, in display order.
pub fn all_settings_sections() -> (sections: Vec<ClientSettingsSection>)
    ensures
        sections@.len() == SETTINGS_SECTION_COUNT,
        forall|i: int| 0 <= i < SETTINGS_SECTION_COUNT ==> #[trigger] sections@[i] == section_at(i),
{
    let sections = vec![
        ClientSettingsSection::Theme,
        ClientSettingsSection::Indicators,
        ClientSettingsSection::Sound,
        ClientSettingsSection::Toast,
        ClientSettingsSection::Integrations,
    ];
    assert forall|i: int| 0 <= i < SETTINGS_SECTION_COUNT implies #[trigger] sections@[i] == section_at(i) by {}
    sections
}

/// Row of the Indicators section that shows `style`.
pub open spec fn spec_indicator_index(style: StatusIndicatorStyle) -> int {
    match style {
        StatusIndicatorStyle::Dots => 0,
        StatusIndicatorStyle::Symbols => 1,
        StatusIndicatorStyle::Animated => 2,
    }
}

/// Row of the Indicators section that shows `style`.
pub fn indicator_index(style: StatusIndicatorStyle) -> (index: usize)
    ensures
        index == spec_indicator_index(style),
{
    match style {
        StatusIndicatorStyle::Dots => 0,
        StatusIndicatorStyle::Symbols => 1,
        StatusIndicatorStyle::Animated => 2,
    }
}

/// The style saved when the Indicators row `selected` is applied.
pub open spec fn indicator_style_at(selected: int) -> StatusIndicatorStyle {
    if selected == 0 {
        StatusIndicatorStyle::Dots
    } else if selected == 1 {
        StatusIndicatorStyle::Symbols
    } else {
        StatusIndicatorStyle::Animated
    }
}

/// Each indicator style has its own row, and applying that row saves that
/// style again.
pub proof fn lemma_indicator_rows_round_trip(a: StatusIndicatorStyle, b: StatusIndicatorStyle)
    ensures
        spec_indicator_index(a) == spec_indicator_index(b) <==> a == b,
        0 <= spec_indicator_index(a) < 3,
        indicator_style_at(spec_indicator_index(a)) == a,
{
}

/// Row of the Toast section that shows `delivery`.
pub open spec fn spec_toast_index(delivery: ToastDelivery) -> int {
    match delivery {
        ToastDelivery::Off => 0,
        ToastDelivery::Herdr => 1,
        ToastDelivery::Terminal => 2,
        ToastDelivery::System => 3,
    }
}

/// Row of the Toast section that shows `delivery`.
pub fn toast_index(delivery: ToastDelivery) -> (index: usize)
    ensures
        index == spec_toast_index(delivery),
{
    match delivery {
        ToastDelivery::Off => 0,
        ToastDelivery::Herdr => 1,
        ToastDelivery::Terminal => 2,
        ToastDelivery::System => 3,
    }
}

/// The delivery saved when the Toast row `selected` is applied.
pub open spec fn toast_delivery_at(selected: int) -> ToastDelivery {
    if selected == 0 {
        ToastDelivery::Off
    } else if selected == 1 {
        ToastDelivery::Herdr
    } else if selected == 2 {
        ToastDelivery::Terminal
    } else {
        ToastDelivery::System
    }
}

/// Each toast delivery has its own row, and applying that row saves that
/// delivery again.
pub proof fn lemma_toast_rows_round_trip(a: ToastDelivery, b: ToastDelivery)
    ensures
        spec_toast_index(a) == spec_toast_index(b) <==> a == b,
        0 <= spec_toast_index(a) < 4,
        toast_delivery_at(spec_toast_index(a)) == a,
{
}

// ---------------------------------------------------------------------------
// Integrations
// ---------------------------------------------------------------------------

/// Install state of an agent integration.
#[derive(Clone, Copy, Debug, PartialEq, Eq, Structural)]
pub enum IntegrationState {
    Installed,
    Outdated,
    NotInstalled,
}

/// An agent integration as the server reports it.
#[derive(Clone, Copy, Debug, PartialEq, Eq, Structural)]
pub struct IntegrationInfo {
    /// Which integration this is.
    pub target: u32,
    pub state: IntegrationState,
    /// Whether the integration's agent is available on this machine.
    pub available: bool,
}

/// An integration is recommended for install when it is outdated, or when it
/// is available but not installed.
pub open spec fn spec_integration_needs_install(info: IntegrationInfo) -> bool {
    info.state == IntegrationState::Outdated || (info.available && info.state
        == IntegrationState::NotInstalled)
}

/// Whether `info` is recommended for install.
pub fn integration_needs_install(info: &IntegrationInfo) -> (r: bool)
    ensures
        r == spec_integration_needs_install(*info),
{
    info.state == IntegrationState::Outdated || (info.available && info.state
        == IntegrationState::NotInstalled)
}

/// The targets of the integrations recommended for install, in list order.
pub open spec fn install_targets(infos: Seq<IntegrationInfo>) -> Seq<u32>
    decreases infos.len(),
{
    if infos.len() == 0 {
        Seq::empty()
    } else {
        let rest = install_targets(infos.drop_last());
        if spec_integration_needs_install(infos.last()) {
            rest.push(infos.last().target)
        } else {
            rest
        }
    }
}

// ---------------------------------------------------------------------------
// Endpoint requests, config edits and results
// ---------------------------------------------------------------------------

/// The kind of endpoint request a reply belongs to.
#[derive(Clone, Copy, Debug, PartialEq, Eq, Structural)]
pub enum PendingEndpointKind {
    ReloadConfig,
    IntegrationList,
    IntegrationInstall,
    /// Any request the settings overlay does not handle.
    Other,
}

/// An endpoint request the settings overlay sends.
#[derive(Clone, Copy, Debug, PartialEq, Eq, Structural)]
pub enum EndpointMethod {
    ServerReloadConfig,
    IntegrationList,
    IntegrationInstall { target: u32 },
}

/// A change to the user's config file.
#[derive(Debug)]
pub enum ConfigEdit {
    Theme(String),
    StatusIndicators(StatusIndicatorStyle),
    Sound(bool),
    ToastDelivery(ToastDelivery),
}

/// The spec-level value of a [`ConfigEdit`].
pub enum ConfigEditView {
    Theme(Seq<char>),
    StatusIndicators(StatusIndicatorStyle),
    Sound(bool),
    ToastDelivery(ToastDelivery),
}

impl View for ConfigEdit {
    type V = ConfigEditView;

    open spec fn view(&self) -> ConfigEditView {
        match self {
            ConfigEdit::Theme(name) => ConfigEditView::Theme(name@),
            ConfigEdit::StatusIndicators(style) => ConfigEditView::StatusIndicators(*style),
            ConfigEdit::Sound(on) => ConfigEditView::Sound(*on),
            ConfigEdit::ToastDelivery(delivery) => ConfigEditView::ToastDelivery(*delivery),
        }
    }
}

/// Work the caller performs on the shell's behalf.
#[derive(Debug)]
pub enum ClientShellAction {
    /// Send an endpoint request; its reply comes back through
    /// [`ClientShellState::handle_settings_endpoint_result`].
    Endpoint { method: EndpointMethod, kind: PendingEndpointKind },
    /// Write an edit to the config file; the outcome comes back through
    /// [`ClientShellState::finish_settings_edit`].
    WriteConfig(ConfigEdit),
}

/// The spec-level value of a [`ClientShellAction`].
pub enum ActionView {
    Endpoint { method: EndpointMethod, kind: PendingEndpointKind },
    WriteConfig(ConfigEditView),
}

impl View for ClientShellAction {
    type V = ActionView;

    open spec fn view(&self) -> ActionView {
        match self {
            ClientShellAction::Endpoint { method, kind } => ActionView::Endpoint {
                method: *method,
                kind: *kind,
            },
            ClientShellAction::WriteConfig(edit) => ActionView::WriteConfig(edit@),
        }
    }
}

/// The actions of a sequence, by value.
pub open spec fn actions_view(actions: Seq<ClientShellAction>) -> Seq<ActionView> {
    actions.map_values(|a: ClientShellAction| a@)
}

/// What handling one input produced: whether to repaint, and the actions to
/// perform.
#[derive(Debug)]
pub struct ClientShellInput {
    pub repaint: bool,
    pub actions: Vec<ClientShellAction>,
}

/// The spec-level value of a [`ClientShellInput`].
pub struct InputView {
    pub repaint: bool,
    pub actions: Seq<ActionView>,
}

impl View for ClientShellInput {
    type V = InputView;

    open spec fn view(&self) -> InputView {
        InputView { repaint: self.repaint, actions: actions_view(self.actions@) }
    }
}

impl ClientShellInput {
    /// An input outcome with nothing to do yet.
    pub fn new() -> (input: ClientShellInput)
        ensures
            input@ == (InputView { repaint: false, actions: Seq::empty() }),
    {
        let input = ClientShellInput { repaint: false, actions: Vec::new() };
        assert(input@.actions =~= Seq::<ActionView>::empty());
        input
    }
}

/// A server reply to a settings request.
#[derive(Debug)]
pub enum ResponseResult {
    IntegrationList { integrations: Vec<IntegrationInfo> },
    IntegrationInstall { messages: Vec<String> },
    /// A reply of any other shape.
    Other,
}

/// The spec-level value of a [`ResponseResult`].
pub enum ResponseView {
    IntegrationList { integrations: Seq<IntegrationInfo> },
    IntegrationInstall { messages: Seq<Seq<char>> },
    Other,
}

impl View for ResponseResult {
    type V = ResponseView;

    open spec fn view(&self) -> ResponseView {
        match self {
            ResponseResult::IntegrationList { integrations } => ResponseView::IntegrationList {
                integrations: integrations@,
            },
            ResponseResult::IntegrationInstall { messages } => ResponseView::IntegrationInstall {
                messages: strings_view(messages@),
            },
            ResponseResult::Other => ResponseView::Other,
        }
    }
}

/// An endpoint request that failed.
#[derive(Debug)]
pub struct ClientShellEndpointError {
    pub code: Option<String>,
    pub message: String,
}

/// The spec-level value of a [`ClientShellEndpointError`].
pub struct EndpointErrorView {
    pub code: Option<Seq<char>>,
    pub message: Seq<char>,
}

/// The characters of an optional string.
pub open spec fn opt_string_view(s: Option<String>) -> Option<Seq<char>> {
    match s {
        Some(s) => Some(s@),
        None => None,
    }
}

impl View for ClientShellEndpointError {
    type V = EndpointErrorView;

    open spec fn view(&self) -> EndpointErrorView {
        EndpointErrorView { code: opt_string_view(self.code), message: self.message@ }
    }
}

/// The spec-level value of an endpoint reply.
pub open spec fn reply_view(result: Result<ResponseResult, ClientShellEndpointError>) -> Result<
    ResponseView,
    EndpointErrorView,
> {
    match result {
        Ok(r) => Ok(r@),
        Err(e) => Err(e@),
    }
}

// ---------------------------------------------------------------------------
// Shell state
// ---------------------------------------------------------------------------

/// The client's view of the user's config.
#[derive(Debug)]
pub struct ClientShellConfig {
    pub theme_name: String,
    pub palette: Palette,
    pub status_indicators: StatusIndicatorStyle,
    pub sound_enabled: bool,
    pub toast_delivery: ToastDelivery,
    pub status_animation_frame: u8,
}

/// The spec-level value of a [`ClientShellConfig`].
pub struct ConfigView {
    pub theme_name: Seq<char>,
    pub palette: Palette,
    pub status_indicators: StatusIndicatorStyle,
    pub sound_enabled: bool,
    pub toast_delivery: ToastDelivery,
    pub status_animation_frame: u8,
}

impl View for ClientShellConfig {
    type V = ConfigView;

    open spec fn view(&self) -> ConfigView {
        ConfigView {
            theme_name: self.theme_name@,
            palette: self.palette,
            status_indicators: self.status_indicators,
            sound_enabled: self.sound_enabled,
            toast_delivery: self.toast_delivery,
            status_animation_frame: self.status_animation_frame,
        }
    }
}

/// The settings overlay's own state.
#[derive(Debug)]
pub struct ClientSettingsOverlay {
    pub section: ClientSettingsSection,
    pub selected: usize,
    pub original_theme_name: String,
    pub original_palette: Palette,
    pub theme_filter: String,
    pub integrations: Vec<IntegrationInfo>,
    pub integration_messages: Vec<String>,
    pub loading_integrations: bool,
    pub installing_integrations: bool,
}

/// The spec-level value of a [`ClientSettingsOverlay`].
pub struct SettingsView {
    pub section: ClientSettingsSection,
    pub selected: usize,
    pub original_theme_name: Seq<char>,
    pub original_palette: Palette,
    pub theme_filter: Seq<char>,
    pub integrations: Seq<IntegrationInfo>,
    pub integration_messages: Seq<Seq<char>>,
    pub loading_integrations: bool,
    pub installing_integrations: bool,
}

impl View for ClientSettingsOverlay {
    type V = SettingsView;

    open spec fn view(&self) -> SettingsView {
        SettingsView {
            section: self.section,
            selected: self.selected,
            original_theme_name: self.original_theme_name@,
            original_palette: self.original_palette,
            theme_filter: self.theme_filter@,
            integrations: self.integrations@,
            integration_messages: strings_view(self.integration_messages@),
            loading_integrations: self.loading_integrations,
            installing_integrations: self.installing_integrations,
        }
    }
}

/// A modal overlay over the shell.
#[derive(Debug)]
pub enum ClientShellOverlay {
    Settings(ClientSettingsOverlay),
    /// The keybinding help overlay.
    Help,
}

/// The spec-level value of a [`ClientShellOverlay`].
pub enum OverlayView {
    Settings(SettingsView),
    Help,
}

impl View for ClientShellOverlay {
    type V = OverlayView;

    open spec fn view(&self) -> OverlayView {
        match self {
            ClientShellOverlay::Settings(s) => OverlayView::Settings(s@),
            ClientShellOverlay::Help => OverlayView::Help,
        }
    }
}

/// The spec-level value of an optional overlay.
pub open spec fn overlay_view(o: Option<ClientShellOverlay>) -> Option<OverlayView> {
    match o {
        Some(o) => Some(o@),
        None => None,
    }
}

/// The client shell's state as far as settings and status animation go.
#[derive(Debug)]
pub struct ClientShellState {
    pub config: ClientShellConfig,
    pub overlay: Option<ClientShellOverlay>,
    pub endpoint_error: Option<String>,
    pub pending_integration_installs: usize,
    /// The theme catalog, curated and generated themes in picker order.
    pub themes: Vec<ThemeEntry>,
    /// Whether endpoint requests can currently be sent. Every request is
    /// queued exactly when this holds, so the requests of one call (such as
    /// the installs of several integrations) all go out or none does.
    pub endpoint_connected: bool,
    /// The status of every agent in the current snapshot.
    pub agent_statuses: Vec<AgentStatus>,
    /// When the working spinner advances next, in milliseconds.
    pub status_animation_deadline: Option<u64>,
}

/// The spec-level value of a [`ClientShellState`].
pub struct ShellView {
    pub config: ConfigView,
    pub overlay: Option<OverlayView>,
    pub endpoint_error: Option<Seq<char>>,
    pub pending_integration_installs: usize,
    pub themes: Seq<ThemeEntryView>,
    pub endpoint_connected: bool,
    pub agent_statuses: Seq<AgentStatus>,
    pub status_animation_deadline: Option<u64>,
}

impl View for ClientShellState {
    type V = ShellView;

    open spec fn view(&self) -> ShellView {
        ShellView {
            config: self.config@,
            overlay: overlay_view(self.overlay),
            endpoint_error: opt_string_view(self.endpoint_error),
            pending_integration_installs: self.pending_integration_installs,
            themes: themes_view(self.themes@),
            endpoint_connected: self.endpoint_connected,
            agent_statuses: self.agent_statuses@,
            status_animation_deadline: self.status_animation_deadline,
        }
    }
}

// ---------------------------------------------------------------------------
// The transitions, stated over the spec-level values
// ---------------------------------------------------------------------------

/// `s` with its settings overlay replaced by `v`.
pub open spec fn with_settings(s: ShellView, v: SettingsView) -> ShellView {
    ShellView { overlay: Some(OverlayView::Settings(v)), ..s }
}

/// The settings overlay a freshly opened overlay starts with.
pub open spec fn spec_open_settings_overlay(s: ShellView) -> ShellView {
    with_settings(
        s,
        SettingsView {
            section: ClientSettingsSection::Theme,
            selected: spec_theme_index_in(catalog_names(s.themes), s.config.theme_name) as usize,
            original_theme_name: s.config.theme_name,
            original_palette: s.config.palette,
            theme_filter: Seq::empty(),
            integrations: Seq::empty(),
            integration_messages: Seq::empty(),
            loading_integrations: false,
            installing_integrations: false,
        },
    )
}

/// The theme filter of the open settings overlay, or empty.
pub open spec fn current_theme_filter(s: ShellView) -> Seq<char> {
    match s.overlay {
        Some(OverlayView::Settings(v)) => v.theme_filter,
        _ => Seq::empty(),
    }
}

/// The picker's list for the overlay's current filter.
pub open spec fn visible_theme_names(s: ShellView) -> Seq<Seq<char>> {
    spec_filtered_theme_names(catalog_names(s.themes), current_theme_filter(s))
}

/// The row to select when switching to `section`: the current setting's row.
pub open spec fn spec_selected_index_for_settings_section(
    s: ShellView,
    section: ClientSettingsSection,
) -> int {
    match section {
        ClientSettingsSection::Theme => spec_theme_index_in(visible_theme_names(s), s.config.theme_name),
        ClientSettingsSection::Indicators => spec_indicator_index(s.config.status_indicators),
        ClientSettingsSection::Sound => if s.config.sound_enabled {
            0
        } else {
            1
        },
        ClientSettingsSection::Toast => spec_toast_index(s.config.toast_delivery),
        ClientSettingsSection::Integrations => 0,
    }
}

/// Number of rows in the open section.
pub open spec fn spec_settings_choice_count(s: ShellView) -> int {
    match s.overlay {
        Some(OverlayView::Settings(v)) => match v.section {
            ClientSettingsSection::Theme => visible_theme_names(s).len() as int,
            ClientSettingsSection::Indicators => 3,
            ClientSettingsSection::Sound => 2,
            ClientSettingsSection::Toast => 4,
            ClientSettingsSection::Integrations => v.integrations.len() as int,
        },
        _ => 0,
    }
}

/// Previewing the selected theme: when the selected row names a theme, the
/// config shows that theme and its palette.
pub open spec fn spec_preview_selected_theme(s: ShellView) -> ShellView {
    match s.overlay {
        Some(OverlayView::Settings(v)) => {
            let names = visible_theme_names(s);
            if v.selected < names.len() {
                let name = names[v.selected as int];
                let palette = match spec_palette_for_theme(s.themes, name) {
                    Some(p) => p,
                    None => s.config.palette,
                };
                ShellView { config: ConfigView { theme_name: name, palette, ..s.config }, ..s }
            } else {
                s
            }
        },
        _ => s,
    }
}

/// Cancelling the overlay: it closes, and a settings overlay puts back the
/// theme and palette it was opened with.
pub open spec fn spec_cancel_settings_overlay(s: ShellView) -> ShellView {
    match s.overlay {
        Some(OverlayView::Settings(v)) => ShellView {
            overlay: None,
            config: ConfigView {
                theme_name: v.original_theme_name,
                palette: v.original_palette,
                ..s.config
            },
            ..s
        },
        _ => ShellView { overlay: None, ..s },
    }
}

impl ClientShellState {
    /// A shell with no overlay open.
    pub fn new(config: ClientShellConfig, themes: Vec<ThemeEntry>) -> (state: ClientShellState)
        ensures
            state@ == (ShellView {
                config: config@,
                overlay: None,
                endpoint_error: None,
                pending_integration_installs: 0,
                themes: themes_view(themes@),
                endpoint_connected: true,
                agent_statuses: Seq::empty(),
                status_animation_deadline: None,
            }),
    {
        ClientShellState {
            config,
            overlay: None,
            endpoint_error: None,
            pending_integration_installs: 0,
            themes,
            endpoint_connected: true,
            agent_statuses: Vec::new(),
            status_animation_deadline: None,
        }
    }

    /// Opens the settings overlay on the Theme section, selecting the current
    /// theme and remembering it for a later cancel.
    pub fn open_settings_overlay(&mut self)
        ensures
            final(self)@ == spec_open_settings_overlay(old(self)@),
    {
        let all_themes = theme_names(&self.themes);
        let selected = theme_index_in(&all_themes, self.config.theme_name.as_str());
        let overlay = ClientSettingsOverlay {
            section: ClientSettingsSection::Theme,
            selected,
            original_theme_name: self.config.theme_name.clone(),
            original_palette: self.config.palette,
            theme_filter: String::new(),
            integrations: Vec::new(),
            integration_messages: Vec::new(),
            loading_integrations: false,
            installing_integrations: false,
        };
        assert(overlay@.integrations =~= Seq::<IntegrationInfo>::empty());
        assert(overlay@.integration_messages =~= Seq::<Seq<char>>::empty());
        self.overlay = Some(ClientShellOverlay::Settings(overlay));
    }

    /// The theme filter of the open settings overlay, or empty.
    fn current_theme_filter(&self) -> (filter: String)
        ensures
            filter@ == current_theme_filter(self@),
    {
        match &self.overlay {
            Some(ClientShellOverlay::Settings(settings)) => settings.theme_filter.clone(),
            _ => String::new(),
        }
    }

    /// The picker's list for the overlay's current filter.
    fn visible_theme_names(&self) -> (names: Vec<String>)
        ensures
            strings_view(names@) == visible_theme_names(self@),
    {
        let filter = self.current_theme_filter();
        let all = theme_names(&self.themes);
        filtered_theme_names(&all, filter.as_str())
    }

    /// The row to select when switching to `section`. For Theme this is
    /// computed against the section's own filter, so re-selecting Theme always
    /// resolves against the filtered list.
    pub fn selected_index_for_settings_section(&self, section: ClientSettingsSection) -> (index: usize)
        ensures
            index == spec_selected_index_for_settings_section(self@, section),
    {
        match section {
            ClientSettingsSection::Theme => {
                let names = self.visible_theme_names();
                theme_index_in(&names, self.config.theme_name.as_str())
            },
            ClientSettingsSection::Indicators => indicator_index(self.config.status_indicators),
            ClientSettingsSection::Sound => if self.config.sound_enabled {
                0
            } else {
                1
            },
            ClientSettingsSection::Toast => toast_index(self.config.toast_delivery),
            ClientSettingsSection::Integrations => 0,
        }
    }

    /// Number of rows in the open section (0 with no settings overlay).
    pub fn settings_choice_count(&self) -> (count: usize)
        ensures
            count == spec_settings_choice_count(self@),
    {
        match &self.overlay {
            Some(ClientShellOverlay::Settings(settings)) => match settings.section {
                ClientSettingsSection::Theme => self.visible_theme_names().len(),
                ClientSettingsSection::Indicators => 3,
                ClientSettingsSection::Sound => 2,
                ClientSettingsSection::Toast => 4,
                ClientSettingsSection::Integrations => settings.integrations.len(),
            },
            _ => 0,
        }
    }

    /// Shows the theme on the selected row, with its palette, without saving
    /// it.
    pub fn preview_selected_theme(&mut self)
        ensures
            final(self)@ == spec_preview_selected_theme(old(self)@),
    {
        let selected = match &self.overlay {
            Some(ClientShellOverlay::Settings(settings)) => settings.selected,
            _ => return,
        };
        let names = self.visible_theme_names();
        if selected >= names.len() {
            return;
        }
        let name = names[selected].clone();
        assert(name@ == visible_theme_names(old(self)@)[selected as int]);
        let palette = match palette_for_theme(&self.themes, name.as_str()) {
            Some(p) => p,
            None => self.config.palette,
        };
        self.config.theme_name = name;
        self.config.palette = palette;
    }

    /// Closes the overlay; a settings overlay restores the theme and palette
    /// it was opened with.
    pub fn cancel_settings_overlay(&mut self)
        ensures
            final(self)@ == spec_cancel_settings_overlay(old(self)@),
    {
        let overlay = self.overlay.take();
        match overlay {
            Some(ClientShellOverlay::Settings(settings)) => {
                self.config.theme_name = settings.original_theme_name;
                self.config.palette = settings.original_palette;
            },
            _ => {},
        }
    }
}


// ---------------------------------------------------------------------------
// Endpoint requests and the integration list
// ---------------------------------------------------------------------------

/// Sending an endpoint request: it is queued as an action when the endpoint
/// is connected, and the result says whether it was.
pub open spec fn spec_push_endpoint(
    s: ShellView,
    o: InputView,
    method: EndpointMethod,
    kind: PendingEndpointKind,
) -> (InputView, bool) {
    if s.endpoint_connected {
        (InputView { actions: o.actions.push(ActionView::Endpoint { method, kind }), ..o }, true)
    } else {
        (o, false)
    }
}

/// `s` with the open settings overlay's loading flag set to `loading`.
pub open spec fn set_loading(s: ShellView, loading: bool) -> ShellView {
    match s.overlay {
        Some(OverlayView::Settings(v)) => with_settings(
            s,
            SettingsView { loading_integrations: loading, ..v },
        ),
        _ => s,
    }
}

/// Asking the server for the integration list: the overlay shows it is
/// loading (and drops old messages when `clear_messages`), and stops
/// loading again when the request could not be sent.
pub open spec fn spec_queue_integration_list(s: ShellView, o: InputView, clear_messages: bool) -> (
    ShellView,
    InputView,
) {
    let s1 = match s.overlay {
        Some(OverlayView::Settings(v)) => with_settings(
            s,
            SettingsView {
                loading_integrations: true,
                integration_messages: if clear_messages {
                    Seq::empty()
                } else {
                    v.integration_messages
                },
                ..v
            },
        ),
        _ => s,
    };
    let pushed = spec_push_endpoint(
        s1,
        o,
        EndpointMethod::IntegrationList,
        PendingEndpointKind::IntegrationList,
    );
    if pushed.1 {
        (s1, pushed.0)
    } else {
        (set_loading(s1, false), pushed.0)
    }
}

/// Switching to `section`: it is selected with its current setting's row, the
/// integration list is requested when switching to Integrations while nothing
/// is loading or installing, and the screen repaints.
pub open spec fn spec_select_settings_section(
    s: ShellView,
    o: InputView,
    section: ClientSettingsSection,
) -> (ShellView, InputView) {
    let selected = spec_selected_index_for_settings_section(s, section);
    let request = section == ClientSettingsSection::Integrations && (match s.overlay {
        Some(OverlayView::Settings(v)) => !v.loading_integrations && !v.installing_integrations,
        _ => false,
    });
    let s1 = match s.overlay {
        Some(OverlayView::Settings(v)) => with_settings(
            s,
            SettingsView { section, selected: selected as usize, ..v },
        ),
        _ => s,
    };
    let after = if request {
        spec_queue_integration_list(s1, o, true)
    } else {
        (s1, o)
    };
    (after.0, InputView { repaint: true, ..after.1 })
}

/// Moving `delta` sections, wrapping around at either end.
pub open spec fn spec_move_settings_section(s: ShellView, o: InputView, delta: int) -> (
    ShellView,
    InputView,
) {
    match s.overlay {
        Some(OverlayView::Settings(v)) => spec_select_settings_section(
            s,
            o,
            section_at((section_position(v.section) + delta) % (SETTINGS_SECTION_COUNT as int)),
        ),
        _ => (s, o),
    }
}

/// `x` clamped to `0..=hi`.
pub open spec fn clamp_index(x: int, hi: int) -> int {
    if x < 0 {
        0
    } else if x > hi {
        hi
    } else {
        x
    }
}

/// Moving the selection by `delta` rows, clamped to the section's rows; in
/// the Theme section the newly selected theme is previewed.
pub open spec fn spec_move_settings_selection(s: ShellView, delta: int) -> ShellView {
    let count = spec_settings_choice_count(s);
    match s.overlay {
        Some(OverlayView::Settings(v)) => if count == 0 {
            with_settings(s, SettingsView { selected: 0, ..v })
        } else {
            let s1 = with_settings(
                s,
                SettingsView { selected: clamp_index(v.selected + delta, count - 1) as usize, ..v },
            );
            if v.section == ClientSettingsSection::Theme {
                spec_preview_selected_theme(s1)
            } else {
                s1
            }
        },
        _ => s,
    }
}

/// Selecting row `index` (clamped to the last row); in the Theme section the
/// selected theme is previewed.
pub open spec fn spec_select_settings_choice(s: ShellView, index: int) -> ShellView {
    let count = spec_settings_choice_count(s);
    let s1 = match s.overlay {
        Some(OverlayView::Settings(v)) => if count > 0 {
            with_settings(
                s,
                SettingsView {
                    selected: (if index < count - 1 {
                        index
                    } else {
                        count - 1
                    }) as usize,
                    ..v
                },
            )
        } else {
            s
        },
        _ => s,
    };
    match s1.overlay {
        Some(OverlayView::Settings(v)) => if v.section == ClientSettingsSection::Theme {
            spec_preview_selected_theme(s1)
        } else {
            s1
        },
        _ => s1,
    }
}

/// An edit of the theme filter text.
#[derive(Debug)]
pub enum FilterEdit {
    /// Empty the filter.
    Clear,
    /// Delete the last character, if any.
    Pop,
    /// Append text.
    Push(String),
}

/// The spec-level value of a [`FilterEdit`].
pub enum FilterEditView {
    Clear,
    Pop,
    Push(Seq<char>),
}

impl View for FilterEdit {
    type V = FilterEditView;

    open spec fn view(&self) -> FilterEditView {
        match self {
            FilterEdit::Clear => FilterEditView::Clear,
            FilterEdit::Pop => FilterEditView::Pop,
            FilterEdit::Push(text) => FilterEditView::Push(text@),
        }
    }
}

/// The filter text after an edit.
pub open spec fn apply_filter_edit(filter: Seq<char>, edit: FilterEditView) -> Seq<char> {
    match edit {
        FilterEditView::Clear => Seq::empty(),
        FilterEditView::Pop => if filter.len() > 0 {
            filter.drop_last()
        } else {
            filter
        },
        FilterEditView::Push(text) => filter + text,
    }
}

/// Editing the theme filter: the selection re-anchors to the first row and
/// the theme on it is previewed.
pub open spec fn spec_mutate_theme_filter(s: ShellView, edit: FilterEditView) -> ShellView {
    let s1 = match s.overlay {
        Some(OverlayView::Settings(v)) => with_settings(
            s,
            SettingsView { theme_filter: apply_filter_edit(v.theme_filter, edit), selected: 0, ..v },
        ),
        _ => s,
    };
    spec_preview_selected_theme(s1)
}

/// Digesting the outcome of a config write: a failure is shown as the
/// endpoint error; a success asks the server to reload its config. Both
/// repaint; the result says whether the write succeeded.
pub open spec fn spec_save_settings_edit(
    s: ShellView,
    o: InputView,
    write_result: Result<(), Seq<char>>,
) -> (ShellView, InputView, bool) {
    match write_result {
        Err(error) => (
            ShellView { endpoint_error: Some(error), ..s },
            InputView { repaint: true, ..o },
            false,
        ),
        Ok(_) => {
            let pushed = spec_push_endpoint(
                s,
                o,
                EndpointMethod::ServerReloadConfig,
                PendingEndpointKind::ReloadConfig,
            );
            (s, InputView { repaint: true, ..pushed.0 }, true)
        },
    }
}

/// The spec-level value of an optional write error.
pub open spec fn write_result_view(r: Result<(), String>) -> Result<(), Seq<char>> {
    match r {
        Ok(_) => Ok(()),
        Err(e) => Err(e@),
    }
}

/// Finishing an applied choice once its config write is done: a saved theme
/// closes the overlay.
pub open spec fn spec_finish_settings_edit(
    s: ShellView,
    o: InputView,
    edit: ConfigEditView,
    write_result: Result<(), Seq<char>>,
) -> (ShellView, InputView) {
    let saved = spec_save_settings_edit(s, o, write_result);
    if saved.2 && edit is Theme {
        (ShellView { overlay: None, ..saved.0 }, saved.1)
    } else {
        (saved.0, saved.1)
    }
}

/// The install requests sent for `targets`, in order.
pub open spec fn install_actions(targets: Seq<u32>) -> Seq<ActionView> {
    targets.map_values(
        |t: u32|
            ActionView::Endpoint {
                method: EndpointMethod::IntegrationInstall { target: t },
                kind: PendingEndpointKind::IntegrationInstall,
            },
    )
}

/// Installing the recommended integrations: nothing happens while installs
/// are pending or when nothing needs installing; otherwise one install
/// request is sent per recommended integration, the overlay shows it is
/// installing (unless no request could be sent) with its messages cleared,
/// and the screen repaints.
pub open spec fn spec_install_recommended_integrations(s: ShellView, o: InputView) -> (
    ShellView,
    InputView,
) {
    if s.pending_integration_installs > 0 {
        (s, o)
    } else {
        match s.overlay {
            Some(OverlayView::Settings(v)) => {
                let targets = install_targets(v.integrations);
                if targets.len() == 0 {
                    (s, o)
                } else if s.endpoint_connected {
                    (
                        ShellView {
                            pending_integration_installs: targets.len() as usize,
                            ..with_settings(
                                s,
                                SettingsView {
                                    installing_integrations: true,
                                    integration_messages: Seq::empty(),
                                    ..v
                                },
                            )
                        },
                        InputView { repaint: true, actions: o.actions + install_actions(targets) },
                    )
                } else {
                    (
                        ShellView {
                            pending_integration_installs: 0,
                            ..with_settings(
                                s,
                                SettingsView {
                                    installing_integrations: false,
                                    integration_messages: Seq::empty(),
                                    ..v
                                },
                            )
                        },
                        InputView { repaint: true, ..o },
                    )
                }
            },
            _ => (s, o),
        }
    }
}

/// Applying the selected row: a theme, indicator style, sound or toast choice
/// is handed out as a config write; on Integrations the recommended
/// integrations are installed.
pub open spec fn spec_apply_settings_choice(s: ShellView, o: InputView) -> (ShellView, InputView) {
    match s.overlay {
        Some(OverlayView::Settings(v)) => match v.section {
            ClientSettingsSection::Theme => {
                let names = visible_theme_names(s);
                if v.selected < names.len() {
                    (
                        s,
                        InputView {
                            actions: o.actions.push(
                                ActionView::WriteConfig(ConfigEditView::Theme(names[v.selected as int])),
                            ),
                            ..o
                        },
                    )
                } else {
                    (s, o)
                }
            },
            ClientSettingsSection::Indicators => (
                s,
                InputView {
                    actions: o.actions.push(
                        ActionView::WriteConfig(
                            ConfigEditView::StatusIndicators(indicator_style_at(v.selected as int)),
                        ),
                    ),
                    ..o
                },
            ),
            ClientSettingsSection::Sound => (
                s,
                InputView {
                    actions: o.actions.push(
                        ActionView::WriteConfig(ConfigEditView::Sound(v.selected == 0)),
                    ),
                    ..o
                },
            ),
            ClientSettingsSection::Toast => (
                s,
                InputView {
                    actions: o.actions.push(
                        ActionView::WriteConfig(
                            ConfigEditView::ToastDelivery(toast_delivery_at(v.selected as int)),
                        ),
                    ),
                    ..o
                },
            ),
            ClientSettingsSection::Integrations => spec_install_recommended_integrations(s, o),
        },
        _ => (s, o),
    }
}

/// Euclidean remainder of `t` by the number of sections.
fn wrap_section_position(t: isize) -> (r: usize)
    ensures
        r == t as int % (SETTINGS_SECTION_COUNT as int),
        r < SETTINGS_SECTION_COUNT,
{
    if t >= 0 {
        (t as usize) % SETTINGS_SECTION_COUNT
    } else {
        let u = (-(t + 1)) as usize;
        let r = 4 - u % SETTINGS_SECTION_COUNT;
        assert(r as int == t as int % 5) by (nonlinear_arith)
            requires
                t < 0,
                u == -(t + 1),
                r == 4 - u % 5,
        ;
        r
    }
}

impl ClientShellState {
    /// Queues an endpoint request when the endpoint is connected; returns
    /// whether it was queued.
    pub fn push_endpoint_method_with_kind(
        &self,
        method: EndpointMethod,
        kind: PendingEndpointKind,
        outcome: &mut ClientShellInput,
    ) -> (pushed: bool)
        ensures
            (final(outcome)@, pushed) == spec_push_endpoint(self@, old(outcome)@, method, kind),
    {
        if self.endpoint_connected {
            let ghost before = outcome.actions@;
            outcome.actions.push(ClientShellAction::Endpoint { method, kind });
            assert(actions_view(outcome.actions@) =~= actions_view(before).push(
                ActionView::Endpoint { method, kind },
            ));
            true
        } else {
            false
        }
    }

    /// Asks the server for the integration list.
    pub fn queue_integration_list(&mut self, outcome: &mut ClientShellInput, clear_messages: bool)
        ensures
            (final(self)@, final(outcome)@) == spec_queue_integration_list(
                old(self)@,
                old(outcome)@,
                clear_messages,
            ),
    {
        match &mut self.overlay {
            Some(ClientShellOverlay::Settings(settings)) => {
                settings.loading_integrations = true;
                if clear_messages {
                    settings.integration_messages.clear();
                    assert(strings_view(settings.integration_messages@) =~= Seq::<Seq<char>>::empty());
                }
            },
            _ => {},
        }
        let pushed = self.push_endpoint_method_with_kind(
            EndpointMethod::IntegrationList,
            PendingEndpointKind::IntegrationList,
            outcome,
        );
        if !pushed {
            match &mut self.overlay {
                Some(ClientShellOverlay::Settings(settings)) => {
                    settings.loading_integrations = false;
                },
                _ => {},
            }
        }
    }

    /// Switches the overlay to `section`, selecting its current setting's
    /// row, and requests the integration list when switching to Integrations.
    pub fn select_settings_section(
        &mut self,
        section: ClientSettingsSection,
        outcome: &mut ClientShellInput,
    )
        ensures
            (final(self)@, final(outcome)@) == spec_select_settings_section(
                old(self)@,
                old(outcome)@,
                section,
            ),
    {
        let selected = self.selected_index_for_settings_section(section);
        let request_integrations = section == ClientSettingsSection::Integrations && match &self.overlay {
            Some(ClientShellOverlay::Settings(settings)) => !settings.loading_integrations
                && !settings.installing_integrations,
            _ => false,
        };
        match &mut self.overlay {
            Some(ClientShellOverlay::Settings(settings)) => {
                settings.section = section;
                settings.selected = selected;
            },
            _ => {},
        }
        if request_integrations {
            self.queue_integration_list(outcome, true);
        }
        outcome.repaint = true;
    }

    /// Moves `delta` sections through the overlay, wrapping around.
    pub fn move_settings_section(&mut self, delta: isize, outcome: &mut ClientShellInput)
        requires
            old(self)@.overlay matches Some(OverlayView::Settings(v)) ==> section_position(v.section)
                + delta <= isize::MAX,
        ensures
            (final(self)@, final(outcome)@) == spec_move_settings_section(
                old(self)@,
                old(outcome)@,
                delta as int,
            ),
    {
        let section = match &self.overlay {
            Some(ClientShellOverlay::Settings(settings)) => settings.section,
            _ => return,
        };
        let all = all_settings_sections();
        let mut current: usize = 0;
        while current < SETTINGS_SECTION_COUNT && all[current] != section
            invariant
                all@.len() == SETTINGS_SECTION_COUNT,
                forall|i: int| 0 <= i < SETTINGS_SECTION_COUNT ==> #[trigger] all@[i] == section_at(i),
                0 <= current <= SETTINGS_SECTION_COUNT,
                current <= section_position(section),
            decreases SETTINGS_SECTION_COUNT - current,
        {
            current = current + 1;
        }
        let next = wrap_section_position(current as isize + delta);
        self.select_settings_section(all[next], outcome);
    }

    /// Moves the selection `delta` rows, clamped to the section's rows, and
    /// previews the theme in the Theme section.
    pub fn move_settings_selection(&mut self, delta: isize)
        requires
            old(self)@.overlay matches Some(OverlayView::Settings(v)) ==> {
                &&& v.selected <= isize::MAX
                &&& isize::MIN <= v.selected + delta <= isize::MAX
                &&& spec_settings_choice_count(old(self)@) <= isize::MAX
            },
        ensures
            final(self)@ == spec_move_settings_selection(old(self)@, delta as int),
    {
        let count = self.settings_choice_count();
        let is_theme = match &mut self.overlay {
            Some(ClientShellOverlay::Settings(settings)) => {
                if count == 0 {
                    settings.selected = 0;
                    return;
                }
                let target = settings.selected as isize + delta;
                let hi = (count - 1) as isize;
                settings.selected = if target < 0 {
                    0
                } else if target > hi {
                    hi as usize
                } else {
                    target as usize
                };
                settings.section == ClientSettingsSection::Theme
            },
            _ => return,
        };
        if is_theme {
            self.preview_selected_theme();
        }
    }

    /// Selects row `index` (clamped to the last row) and previews the theme in
    /// the Theme section.
    pub fn select_settings_choice(&mut self, index: usize)
        ensures
            final(self)@ == spec_select_settings_choice(old(self)@, index as int),
    {
        let count = self.settings_choice_count();
        match &mut self.overlay {
            Some(ClientShellOverlay::Settings(settings)) => {
                if count > 0 {
                    settings.selected = if index < count - 1 {
                        index
                    } else {
                        count - 1
                    };
                }
            },
            _ => {},
        }
        let is_theme = match &self.overlay {
            Some(ClientShellOverlay::Settings(settings)) => settings.section
                == ClientSettingsSection::Theme,
            _ => false,
        };
        if is_theme {
            self.preview_selected_theme();
        }
    }

    /// Applies `edit` to the Theme section's filter, then re-anchors the
    /// selection to the first row and previews the theme there: the filtered
    /// list changes, so the old index may point at a different theme, or at
    /// nothing.
    pub fn mutate_theme_filter(&mut self, edit: FilterEdit)
        ensures
            final(self)@ == spec_mutate_theme_filter(old(self)@, edit@),
    {
        match &mut self.overlay {
            Some(ClientShellOverlay::Settings(settings)) => {
                let current = crate::text::chars_of(settings.theme_filter.as_str());
                let mut chars = current;
                match edit {
                    FilterEdit::Clear => {
                        chars = Vec::new();
                        assert(chars@ =~= Seq::<char>::empty());
                    },
                    FilterEdit::Pop => {
                        if chars.len() > 0 {
                            chars.pop();
                        }
                    },
                    FilterEdit::Push(text) => {
                        let extra = crate::text::chars_of(text.as_str());
                        let mut k: usize = 0;
                        let ghost start = chars@;
                        while k < extra.len()
                            invariant
                                0 <= k <= extra@.len(),
                                chars@ == start + extra@.take(k as int),
                            decreases extra@.len() - k,
                        {
                            chars.push(extra[k]);
                            assert(start + extra@.take(k + 1) =~= (start + extra@.take(k as int)).push(extra@[k as int]));
                            k = k + 1;
                        }
                        assert(extra@.take(extra@.len() as int) =~= extra@);
                    },
                }
                settings.theme_filter = crate::text::string_from_chars(&chars);
                settings.selected = 0;
            },
            _ => {},
        }
        self.preview_selected_theme();
    }

    /// Digests the outcome of a config write (the caller reloads the config
    /// from disk after a successful write): a failure becomes the endpoint
    /// error; a success asks the server to reload its config. Returns whether
    /// the write succeeded.
    pub fn save_settings_edit(
        &mut self,
        write_result: Result<(), String>,
        outcome: &mut ClientShellInput,
    ) -> (saved: bool)
        ensures
            (final(self)@, final(outcome)@, saved) == spec_save_settings_edit(
                old(self)@,
                old(outcome)@,
                write_result_view(write_result),
            ),
    {
        match write_result {
            Err(error) => {
                self.endpoint_error = Some(error);
                outcome.repaint = true;
                false
            },
            Ok(()) => {
                self.push_endpoint_method_with_kind(
                    EndpointMethod::ServerReloadConfig,
                    PendingEndpointKind::ReloadConfig,
                    outcome,
                );
                outcome.repaint = true;
                true
            },
        }
    }

    /// Finishes an applied choice once its config write is done; a saved
    /// theme closes the overlay.
    pub fn finish_settings_edit(
        &mut self,
        edit: &ConfigEdit,
        write_result: Result<(), String>,
        outcome: &mut ClientShellInput,
    )
        ensures
            (final(self)@, final(outcome)@) == spec_finish_settings_edit(
                old(self)@,
                old(outcome)@,
                edit@,
                write_result_view(write_result),
            ),
    {
        let saved = self.save_settings_edit(write_result, outcome);
        let is_theme = match edit {
            ConfigEdit::Theme(_) => true,
            _ => false,
        };
        if saved && is_theme {
            self.overlay = None;
        }
    }
}


/// The message shown when the integration list reply has the wrong shape.
pub open spec fn unexpected_list_message() -> Seq<char> {
    "endpoint returned an unexpected integration list result"@
}

/// The message shown when an install reply has the wrong shape.
pub open spec fn unexpected_install_message() -> Seq<char> {
    "endpoint returned an unexpected integration result"@
}

/// The error code of a cancelled request.
pub open spec fn cancelled_code() -> Seq<char> {
    "endpoint_cancelled"@
}

/// Digesting a reply to a settings request. The result says whether the
/// reply was a settings reply, and lists the follow-up requests to send.
///
/// - An integration list reply stops the loading state; a list replaces the
///   overlay's list and pulls the selection back inside it, any other reply
///   shape becomes the endpoint error, and a failure changes nothing else.
/// - An install reply settles one pending install and records the reply's
///   messages (or the failure's message); the overlay shows it is installing
///   while installs remain. Once the last one settles, unless it was
///   cancelled, the integration list is requested again.
pub open spec fn spec_handle_settings_endpoint_result(
    s: ShellView,
    kind: PendingEndpointKind,
    result: Result<ResponseView, EndpointErrorView>,
) -> (ShellView, bool, Seq<ActionView>) {
    match kind {
        PendingEndpointKind::IntegrationList => {
            let s1 = match s.overlay {
                Some(OverlayView::Settings(v)) => {
                    let v1 = SettingsView { loading_integrations: false, ..v };
                    match result {
                        Ok(ResponseView::IntegrationList { integrations }) => with_settings(
                            s,
                            SettingsView {
                                integrations,
                                selected: if v.selected < (integrations.len() as usize).saturating_sub(1) {
                                    v.selected
                                } else {
                                    (integrations.len() as usize).saturating_sub(1)
                                },
                                ..v1
                            },
                        ),
                        Ok(_) => ShellView {
                            endpoint_error: Some(unexpected_list_message()),
                            ..with_settings(s, v1)
                        },
                        Err(_) => with_settings(s, v1),
                    }
                },
                _ => s,
            };
            (s1, true, Seq::empty())
        },
        PendingEndpointKind::IntegrationInstall => {
            let cancelled = match result {
                Err(e) => e.code == Some(cancelled_code()),
                Ok(_) => false,
            };
            let pending = s.pending_integration_installs.saturating_sub(1);
            let s1 = ShellView { pending_integration_installs: pending, ..s };
            let s2 = match s1.overlay {
                Some(OverlayView::Settings(v)) => with_settings(
                    s1,
                    SettingsView {
                        integration_messages: v.integration_messages + match result {
                            Ok(ResponseView::IntegrationInstall { messages }) => messages,
                            Ok(_) => seq![unexpected_install_message()],
                            Err(e) => seq![e.message],
                        },
                        installing_integrations: pending > 0,
                        ..v
                    },
                ),
                _ => s1,
            };
            if !cancelled && pending == 0 && s2.overlay matches Some(OverlayView::Settings(_)) {
                let queued = spec_queue_integration_list(
                    s2,
                    InputView { repaint: false, actions: Seq::empty() },
                    false,
                );
                (queued.0, true, queued.1.actions)
            } else {
                (s2, true, Seq::empty())
            }
        },
        _ => (s, false, Seq::empty()),
    }
}

impl ClientShellState {
    /// Sends one install request per recommended integration, unless installs
    /// are already pending or nothing needs installing.
    pub fn install_recommended_integrations(&mut self, outcome: &mut ClientShellInput)
        ensures
            (final(self)@, final(outcome)@) == spec_install_recommended_integrations(
                old(self)@,
                old(outcome)@,
            ),
    {
        if self.pending_integration_installs > 0 {
            return;
        }
        let targets: Vec<u32> = match &self.overlay {
            Some(ClientShellOverlay::Settings(settings)) => {
                let mut targets: Vec<u32> = Vec::new();
                let mut i: usize = 0;
                while i < settings.integrations.len()
                    invariant
                        0 <= i <= settings.integrations@.len(),
                        targets@ == install_targets(settings.integrations@.take(i as int)),
                    decreases settings.integrations@.len() - i,
                {
                    let info = settings.integrations[i];
                    assert(settings.integrations@.take(i + 1).drop_last() =~= settings.integrations@.take(
                        i as int,
                    ));
                    if integration_needs_install(&info) {
                        targets.push(info.target);
                    }
                    i = i + 1;
                }
                assert(settings.integrations@.take(settings.integrations@.len() as int)
                    =~= settings.integrations@);
                targets
            },
            _ => return,
        };
        if targets.len() == 0 {
            return;
        }
        match &mut self.overlay {
            Some(ClientShellOverlay::Settings(settings)) => {
                settings.installing_integrations = true;
                settings.integration_messages.clear();
                assert(strings_view(settings.integration_messages@) =~= Seq::<Seq<char>>::empty());
            },
            _ => {},
        }
        self.pending_integration_installs = 0;
        let ghost mid = self@;
        let ghost start = outcome@;
        let mut k: usize = 0;
        while k < targets.len()
            invariant
                0 <= k <= targets@.len(),
                self@ == (ShellView {
                    pending_integration_installs: (if mid.endpoint_connected {
                        k
                    } else {
                        0
                    }) as usize,
                    ..mid
                }),
                outcome@ == (InputView {
                    actions: if mid.endpoint_connected {
                        start.actions + install_actions(targets@.take(k as int))
                    } else {
                        start.actions
                    },
                    ..start
                }),
            decreases targets@.len() - k,
        {
            let pushed = self.push_endpoint_method_with_kind(
                EndpointMethod::IntegrationInstall { target: targets[k] },
                PendingEndpointKind::IntegrationInstall,
                outcome,
            );
            if pushed {
                self.pending_integration_installs = self.pending_integration_installs + 1;
            }
            assert(install_actions(targets@.take(k + 1)) =~= install_actions(targets@.take(k as int)).push(
                ActionView::Endpoint {
                    method: EndpointMethod::IntegrationInstall { target: targets@[k as int] },
                    kind: PendingEndpointKind::IntegrationInstall,
                },
            ));
            k = k + 1;
        }
        assert(targets@.take(targets@.len() as int) =~= targets@);
        if self.pending_integration_installs == 0 {
            match &mut self.overlay {
                Some(ClientShellOverlay::Settings(settings)) => {
                    settings.installing_integrations = false;
                },
                _ => {},
            }
        }
        outcome.repaint = true;
    }

    /// Applies the selected row: a theme, indicator style, sound or toast
    /// choice is handed out as a config write (finished by
    /// [`ClientShellState::finish_settings_edit`]); on Integrations the
    /// recommended integrations are installed.
    pub fn apply_settings_choice(&mut self, outcome: &mut ClientShellInput)
        ensures
            (final(self)@, final(outcome)@) == spec_apply_settings_choice(old(self)@, old(outcome)@),
    {
        let (section, selected) = match &self.overlay {
            Some(ClientShellOverlay::Settings(settings)) => (settings.section, settings.selected),
            _ => return,
        };
        let edit = match section {
            ClientSettingsSection::Theme => {
                let names = self.visible_theme_names();
                if selected >= names.len() {
                    return;
                }
                let name = names[selected].clone();
                assert(name@ == visible_theme_names(self@)[selected as int]);
                ConfigEdit::Theme(name)
            },
            ClientSettingsSection::Indicators => {
                let style = if selected == 0 {
                    StatusIndicatorStyle::Dots
                } else if selected == 1 {
                    StatusIndicatorStyle::Symbols
                } else {
                    StatusIndicatorStyle::Animated
                };
                ConfigEdit::StatusIndicators(style)
            },
            ClientSettingsSection::Sound => ConfigEdit::Sound(selected == 0),
            ClientSettingsSection::Toast => {
                let delivery = if selected == 0 {
                    ToastDelivery::Off
                } else if selected == 1 {
                    ToastDelivery::Herdr
                } else if selected == 2 {
                    ToastDelivery::Terminal
                } else {
                    ToastDelivery::System
                };
                ConfigEdit::ToastDelivery(delivery)
            },
            ClientSettingsSection::Integrations => {
                self.install_recommended_integrations(outcome);
                return;
            },
        };
        let ghost before = outcome.actions@;
        let ghost edit_view = edit@;
        outcome.actions.push(ClientShellAction::WriteConfig(edit));
        assert(actions_view(outcome.actions@) =~= actions_view(before).push(
            ActionView::WriteConfig(edit_view),
        ));
    }

    /// Digests a reply to a settings request; returns whether it was one, and
    /// the follow-up requests to send.
    pub fn handle_settings_endpoint_result(
        &mut self,
        kind: PendingEndpointKind,
        result: Result<ResponseResult, ClientShellEndpointError>,
    ) -> (handled: (bool, Vec<ClientShellAction>))
        ensures
            (final(self)@, handled.0, actions_view(handled.1@))
                == spec_handle_settings_endpoint_result(old(self)@, kind, reply_view(result)),
    {
        match kind {
            PendingEndpointKind::IntegrationList => {
                let mut unexpected = false;
                match &mut self.overlay {
                    Some(ClientShellOverlay::Settings(settings)) => {
                        settings.loading_integrations = false;
                        match result {
                            Ok(ResponseResult::IntegrationList { integrations }) => {
                                settings.integrations = integrations;
                                let last = settings.integrations.len().saturating_sub(1);
                                if settings.selected >= last {
                                    settings.selected = last;
                                }
                            },
                            Ok(_) => {
                                unexpected = true;
                            },
                            Err(_) => {},
                        }
                    },
                    _ => {},
                }
                if unexpected {
                    self.endpoint_error = Some(
                        "endpoint returned an unexpected integration list result".to_owned(),
                    );
                }
                let none: Vec<ClientShellAction> = Vec::new();
                assert(actions_view(none@) =~= Seq::<ActionView>::empty());
                (true, none)
            },
            PendingEndpointKind::IntegrationInstall => {
                let cancelled = match &result {
                    Err(error) => match &error.code {
                        Some(code) => crate::themes::string_eq(code.as_str(), "endpoint_cancelled"),
                        None => false,
                    },
                    Ok(_) => false,
                };
                self.pending_integration_installs = self.pending_integration_installs.saturating_sub(1);
                let pending = self.pending_integration_installs;
                match &mut self.overlay {
                    Some(ClientShellOverlay::Settings(settings)) => {
                        let ghost before = settings.integration_messages@;
                        match result {
                            Ok(ResponseResult::IntegrationInstall { messages }) => {
                                let mut messages = messages;
                                let ghost added = messages@;
                                settings.integration_messages.append(&mut messages);
                                assert(strings_view(settings.integration_messages@) =~= strings_view(
                                    before,
                                ) + strings_view(added));
                            },
                            Ok(_) => {
                                let message = "endpoint returned an unexpected integration result".to_owned();
                                let ghost m = message;
                                settings.integration_messages.push(message);
                                assert(strings_view(settings.integration_messages@) =~= strings_view(
                                    before,
                                ) + seq![m@]);
                            },
                            Err(error) => {
                                let ghost m = error.message;
                                settings.integration_messages.push(error.message);
                                assert(strings_view(settings.integration_messages@) =~= strings_view(
                                    before,
                                ) + seq![m@]);
                            },
                        }
                        settings.installing_integrations = pending > 0;
                    },
                    _ => {},
                }
                let is_settings = match &self.overlay {
                    Some(ClientShellOverlay::Settings(_)) => true,
                    _ => false,
                };
                if !cancelled && pending == 0 && is_settings {
                    let mut deferred = ClientShellInput::new();
                    self.queue_integration_list(&mut deferred, false);
                    (true, deferred.actions)
                } else {
                    let none: Vec<ClientShellAction> = Vec::new();
                    assert(actions_view(none@) =~= Seq::<ActionView>::empty());
                    (true, none)
                }
            },
            _ => {
                let none: Vec<ClientShellAction> = Vec::new();
                assert(actions_view(none@) =~= Seq::<ActionView>::empty());
                (false, none)
            },
        }
    }
}


// ---------------------------------------------------------------------------
// Keys
// ---------------------------------------------------------------------------

/// The spec-level value of a [`TerminalKey`].
pub struct KeyView {
    pub code: KeyCode,
    pub modifiers: u8,
    pub generated_text: Option<Seq<char>>,
}

/// The spec-level value of a key event.
pub open spec fn key_view(key: TerminalKey) -> KeyView {
    KeyView {
        code: key.code,
        modifiers: key.modifiers,
        generated_text: opt_string_view(key.generated_text),
    }
}

/// What a key does in the settings overlay.
#[derive(Debug)]
pub enum SettingsKeyCommand {
    /// No settings overlay is open; the key is not the overlay's.
    NotHandled,
    /// The overlay takes the key and nothing changes.
    Swallow,
    /// Cancel the overlay, restoring the original theme.
    Cancel,
    NextSection,
    PreviousSection,
    SelectionUp,
    SelectionDown,
    Apply,
    /// Edit the theme filter.
    EditFilter(FilterEdit),
}

/// The spec-level value of a [`SettingsKeyCommand`].
pub enum KeyCommandView {
    NotHandled,
    Swallow,
    Cancel,
    NextSection,
    PreviousSection,
    SelectionUp,
    SelectionDown,
    Apply,
    EditFilter(FilterEditView),
}

impl View for SettingsKeyCommand {
    type V = KeyCommandView;

    open spec fn view(&self) -> KeyCommandView {
        match self {
            SettingsKeyCommand::NotHandled => KeyCommandView::NotHandled,
            SettingsKeyCommand::Swallow => KeyCommandView::Swallow,
            SettingsKeyCommand::Cancel => KeyCommandView::Cancel,
            SettingsKeyCommand::NextSection => KeyCommandView::NextSection,
            SettingsKeyCommand::PreviousSection => KeyCommandView::PreviousSection,
            SettingsKeyCommand::SelectionUp => KeyCommandView::SelectionUp,
            SettingsKeyCommand::SelectionDown => KeyCommandView::SelectionDown,
            SettingsKeyCommand::Apply => KeyCommandView::Apply,
            SettingsKeyCommand::EditFilter(edit) => KeyCommandView::EditFilter(edit@),
        }
    }
}

/// The overlay's key map. In the Theme section plain `h`/`l`/`j`/`k` (and any
/// other plain or shifted character) type into the filter instead of
/// navigating; only the dedicated navigation keys move there.
///
/// - Esc: ignored while installing; clears a non-empty theme filter;
///   otherwise cancels the overlay.
/// - Tab or Right (or `l` outside Theme), unmodified: next section.
/// - BackTab or Left (or `h` outside Theme), at most Shift: previous section.
/// - Up unmodified, Ctrl-P in Theme, or plain `k` outside Theme: row up.
/// - Down unmodified, Ctrl-N in Theme, or plain `j` outside Theme: row down.
/// - Enter or Space, unmodified: apply the row.
/// - In Theme: Ctrl-U clears the filter, plain Backspace deletes a
///   character, and a character with at most Shift appends the text the key
///   generated (or the character itself).
/// - Every other key is taken and ignored.
pub open spec fn spec_settings_key_command(s: ShellView, key: KeyView) -> KeyCommandView {
    match s.overlay {
        Some(OverlayView::Settings(v)) => {
            let code = key.code;
            let m = key.modifiers;
            let in_theme = v.section == ClientSettingsSection::Theme;
            if code == KeyCode::Esc {
                if v.installing_integrations {
                    KeyCommandView::Swallow
                } else if in_theme && v.theme_filter.len() > 0 {
                    KeyCommandView::EditFilter(FilterEditView::Clear)
                } else {
                    KeyCommandView::Cancel
                }
            } else if (code == KeyCode::Tab || code == KeyCode::Right || (!in_theme && code
                == KeyCode::Char('l'))) && m == 0 {
                KeyCommandView::NextSection
            } else if (code == KeyCode::BackTab || code == KeyCode::Left || (!in_theme && code
                == KeyCode::Char('h'))) && m & !SHIFT == 0 {
                KeyCommandView::PreviousSection
            } else if (code == KeyCode::Up && m == 0) || (in_theme && code == KeyCode::Char('p') && m
                & CONTROL == CONTROL) || (!in_theme && code == KeyCode::Char('k') && m == 0) {
                KeyCommandView::SelectionUp
            } else if (code == KeyCode::Down && m == 0) || (in_theme && code == KeyCode::Char('n')
                && m & CONTROL == CONTROL) || (!in_theme && code == KeyCode::Char('j') && m == 0) {
                KeyCommandView::SelectionDown
            } else if (code == KeyCode::Enter || code == KeyCode::Char(' ')) && m == 0 {
                KeyCommandView::Apply
            } else if in_theme && code == KeyCode::Char('u') && m & CONTROL == CONTROL {
                KeyCommandView::EditFilter(FilterEditView::Clear)
            } else if in_theme && code == KeyCode::Backspace && m == 0 {
                KeyCommandView::EditFilter(FilterEditView::Pop)
            } else if in_theme && code is Char && m & !SHIFT == 0 {
                KeyCommandView::EditFilter(
                    FilterEditView::Push(
                        match key.generated_text {
                            Some(text) => text,
                            None => seq![code->Char_0],
                        },
                    ),
                )
            } else {
                KeyCommandView::Swallow
            }
        },
        _ => KeyCommandView::NotHandled,
    }
}

/// What a key command does to the shell: the new state, the outcome, and
/// whether the overlay took the key.
pub open spec fn spec_run_key_command(s: ShellView, o: InputView, command: KeyCommandView) -> (
    ShellView,
    InputView,
    bool,
) {
    match command {
        KeyCommandView::NotHandled => (s, o, false),
        KeyCommandView::Swallow => (s, o, true),
        KeyCommandView::Cancel => (
            spec_cancel_settings_overlay(s),
            InputView { repaint: true, ..o },
            true,
        ),
        KeyCommandView::NextSection => {
            let moved = spec_move_settings_section(s, o, 1);
            (moved.0, moved.1, true)
        },
        KeyCommandView::PreviousSection => {
            let moved = spec_move_settings_section(s, o, -1);
            (moved.0, moved.1, true)
        },
        KeyCommandView::SelectionUp => (
            spec_move_settings_selection(s, -1),
            InputView { repaint: true, ..o },
            true,
        ),
        KeyCommandView::SelectionDown => (
            spec_move_settings_selection(s, 1),
            InputView { repaint: true, ..o },
            true,
        ),
        KeyCommandView::Apply => {
            let applied = spec_apply_settings_choice(s, o);
            (applied.0, applied.1, true)
        },
        KeyCommandView::EditFilter(edit) => (
            spec_mutate_theme_filter(s, edit),
            InputView { repaint: true, ..o },
            true,
        ),
    }
}

/// What routing a key to the settings overlay does.
pub open spec fn spec_route_settings_key(s: ShellView, o: InputView, key: KeyView) -> (
    ShellView,
    InputView,
    bool,
) {
    spec_run_key_command(s, o, spec_settings_key_command(s, key))
}

/// Keys can move the selection by one row without leaving machine integers.
pub open spec fn selection_in_machine_range(s: ShellView) -> bool {
    s.overlay matches Some(OverlayView::Settings(v)) ==> {
        &&& v.selected < isize::MAX
        &&& spec_settings_choice_count(s) <= isize::MAX
    }
}

impl ClientShellState {
    /// What `key` does in the settings overlay.
    pub fn settings_key_command(&self, key: &TerminalKey) -> (command: SettingsKeyCommand)
        ensures
            command@ == spec_settings_key_command(self@, key_view(*key)),
    {
        let (section, installing, filter_open) = match &self.overlay {
            Some(ClientShellOverlay::Settings(settings)) => (
                settings.section,
                settings.installing_integrations,
                crate::text::chars_of(settings.theme_filter.as_str()).len() > 0,
            ),
            _ => return SettingsKeyCommand::NotHandled,
        };
        let code = key.code;
        let m = key.modifiers;
        let in_theme = section == ClientSettingsSection::Theme;
        let plain = modifiers_is_empty(m);
        let at_most_shift = modifiers_is_empty(modifiers_difference(m, SHIFT));
        let control = modifiers_contains(m, CONTROL);
        if code == KeyCode::Esc {
            if installing {
                return SettingsKeyCommand::Swallow;
            }
            if in_theme && filter_open {
                return SettingsKeyCommand::EditFilter(FilterEdit::Clear);
            }
            return SettingsKeyCommand::Cancel;
        }
        if (code == KeyCode::Tab || code == KeyCode::Right || (!in_theme && code == KeyCode::Char(
            'l',
        ))) && plain {
            return SettingsKeyCommand::NextSection;
        }
        if (code == KeyCode::BackTab || code == KeyCode::Left || (!in_theme && code
            == KeyCode::Char('h'))) && at_most_shift {
            return SettingsKeyCommand::PreviousSection;
        }
        let move_up = (code == KeyCode::Up && plain) || (in_theme && code == KeyCode::Char('p')
            && control) || (!in_theme && code == KeyCode::Char('k') && plain);
        if move_up {
            return SettingsKeyCommand::SelectionUp;
        }
        let move_down = (code == KeyCode::Down && plain) || (in_theme && code == KeyCode::Char('n')
            && control) || (!in_theme && code == KeyCode::Char('j') && plain);
        if move_down {
            return SettingsKeyCommand::SelectionDown;
        }
        if (code == KeyCode::Enter || code == KeyCode::Char(' ')) && plain {
            return SettingsKeyCommand::Apply;
        }
        if in_theme {
            if code == KeyCode::Char('u') && control {
                return SettingsKeyCommand::EditFilter(FilterEdit::Clear);
            }
            if code == KeyCode::Backspace && plain {
                return SettingsKeyCommand::EditFilter(FilterEdit::Pop);
            }
            match code {
                KeyCode::Char(character) => {
                    if at_most_shift {
                        let text = match &key.generated_text {
                            Some(text) => text.clone(),
                            None => {
                                let one = vec![character];
                                assert(one@ =~= seq![character]);
                                crate::text::string_from_chars(&one)
                            },
                        };
                        return SettingsKeyCommand::EditFilter(FilterEdit::Push(text));
                    }
                },
                _ => {},
            }
        }
        SettingsKeyCommand::Swallow
    }

    /// Routes a key to the settings overlay; returns whether the overlay took
    /// it. The key is matched as given: callers pass it already normalised
    /// the way the key bindings are (the same code and modifiers the config's
    /// key combos use).
    pub fn route_settings_key(&mut self, key: &TerminalKey, outcome: &mut ClientShellInput) -> (handled: bool)
        requires
            selection_in_machine_range(old(self)@),
        ensures
            (final(self)@, final(outcome)@, handled) == spec_route_settings_key(
                old(self)@,
                old(outcome)@,
                key_view(*key),
            ),
    {
        let command = self.settings_key_command(key);
        match command {
            SettingsKeyCommand::NotHandled => false,
            SettingsKeyCommand::Swallow => true,
            SettingsKeyCommand::Cancel => {
                self.cancel_settings_overlay();
                outcome.repaint = true;
                true
            },
            SettingsKeyCommand::NextSection => {
                self.move_settings_section(1, outcome);
                true
            },
            SettingsKeyCommand::PreviousSection => {
                self.move_settings_section(-1, outcome);
                true
            },
            SettingsKeyCommand::SelectionUp => {
                self.move_settings_selection(-1);
                outcome.repaint = true;
                true
            },
            SettingsKeyCommand::SelectionDown => {
                self.move_settings_selection(1);
                outcome.repaint = true;
                true
            },
            SettingsKeyCommand::Apply => {
                self.apply_settings_choice(outcome);
                true
            },
            SettingsKeyCommand::EditFilter(edit) => {
                self.mutate_theme_filter(edit);
                outcome.repaint = true;
                true
            },
        }
    }
}

// ---------------------------------------------------------------------------
// Status animation
// ---------------------------------------------------------------------------

/// One tick of the status animation at time `now` (milliseconds). The
/// spinner only runs in the animated style while some agent is working;
/// otherwise the tick disarms it and reports no repaint. The first tick arms
/// a deadline one frame period ahead; a tick at or after the deadline
/// advances the frame (wrapping at ten), re-arms the deadline and reports a
/// repaint.
pub open spec fn spec_tick_status_animation(s: ShellView, now: u64) -> (ShellView, bool) {
    let next_deadline = Some(now.saturating_add(SPINNER_FRAME_MILLIS));
    if s.config.status_indicators != StatusIndicatorStyle::Animated || !s.agent_statuses.contains(
        AgentStatus::Working,
    ) {
        (ShellView { status_animation_deadline: None, ..s }, false)
    } else {
        match s.status_animation_deadline {
            None => (ShellView { status_animation_deadline: next_deadline, ..s }, false),
            Some(deadline) => if now < deadline {
                (s, false)
            } else {
                (
                    ShellView {
                        config: ConfigView {
                            status_animation_frame: ((s.config.status_animation_frame + 1)
                                % (SPINNER_FRAME_COUNT as int)) as u8,
                            ..s.config
                        },
                        status_animation_deadline: next_deadline,
                        ..s
                    },
                    true,
                )
            },
        }
    }
}

impl ClientShellState {
    /// Replaces the agent statuses of the current snapshot.
    pub fn set_agent_statuses(&mut self, statuses: Vec<AgentStatus>)
        ensures
            final(self)@ == (ShellView { agent_statuses: statuses@, ..old(self)@ }),
    {
        self.agent_statuses = statuses;
    }

    /// Advances the working spinner when its frame period has elapsed;
    /// returns whether the screen needs a repaint.
    pub fn tick_status_animation(&mut self, now: u64) -> (repaint: bool)
        ensures
            (final(self)@, repaint) == spec_tick_status_animation(old(self)@, now),
    {
        let mut working = false;
        let mut i: usize = 0;
        while i < self.agent_statuses.len()
            invariant
                0 <= i <= self.agent_statuses@.len(),
                working == exists|k: int| 0 <= k < i && self.agent_statuses@[k] == AgentStatus::Working,
            decreases self.agent_statuses@.len() - i,
        {
            if self.agent_statuses[i] == AgentStatus::Working {
                working = true;
            }
            i = i + 1;
        }
        assert(working == self.agent_statuses@.contains(AgentStatus::Working));
        if self.config.status_indicators != StatusIndicatorStyle::Animated || !working {
            self.status_animation_deadline = None;
            return false;
        }
        let next_deadline = now.saturating_add(SPINNER_FRAME_MILLIS);
        match self.status_animation_deadline {
            None => {
                self.status_animation_deadline = Some(next_deadline);
                false
            },
            Some(deadline) => {
                if now < deadline {
                    false
                } else {
                    self.config.status_animation_frame = ((self.config.status_animation_frame as u16
                        + 1) % (SPINNER_FRAME_COUNT as u16)) as u8;
                    self.status_animation_deadline = Some(next_deadline);
                    true
                }
            },
        }
    }
}

// ---------------------------------------------------------------------------
// Laws
// ---------------------------------------------------------------------------

/// The theme and palette a settings overlay restores on cancel.
pub open spec fn remembered_theme(s: ShellView) -> Option<(Seq<char>, Palette)> {
    match s.overlay {
        Some(OverlayView::Settings(v)) => Some((v.original_theme_name, v.original_palette)),
        _ => None,
    }
}

/// Opening the overlay and cancelling it leaves the theme and palette as
/// they were, whatever was previewed in between: browsing (moving the
/// selection, selecting a row, editing the filter, previewing) keeps the
/// remembered theme, and cancelling restores it.
pub proof fn lemma_cancel_restores_the_theme_shown_before_opening(s: ShellView)
    ensures
        remembered_theme(spec_open_settings_overlay(s)) == Some((s.config.theme_name, s.config.palette)),
        spec_cancel_settings_overlay(spec_open_settings_overlay(s)).config == s.config,
        spec_cancel_settings_overlay(spec_open_settings_overlay(s)).overlay is None,
{
    assert(spec_cancel_settings_overlay(spec_open_settings_overlay(s)).config =~= s.config);
}

/// Browsing inside the settings overlay never changes the theme it will
/// restore on cancel, and cancelling shows exactly that theme again.
pub proof fn lemma_browsing_keeps_the_remembered_theme(
    s: ShellView,
    delta: int,
    index: int,
    edit: FilterEditView,
)
    requires
        s.overlay matches Some(OverlayView::Settings(_)),
    ensures
        remembered_theme(spec_move_settings_selection(s, delta)) == remembered_theme(s),
        remembered_theme(spec_select_settings_choice(s, index)) == remembered_theme(s),
        remembered_theme(spec_mutate_theme_filter(s, edit)) == remembered_theme(s),
        remembered_theme(spec_preview_selected_theme(s)) == remembered_theme(s),
        remembered_theme(s) matches Some((name, palette)) ==> {
            &&& spec_cancel_settings_overlay(s).config.theme_name == name
            &&& spec_cancel_settings_overlay(s).config.palette == palette
            &&& spec_cancel_settings_overlay(s).overlay is None
        },
{
}

/// One browsing step inside the settings overlay.
pub enum BrowseStep {
    MoveSelection(int),
    SelectChoice(int),
    EditFilter(FilterEditView),
    Preview,
    SelectSection(ClientSettingsSection),
    MoveSection(int),
}

/// The shell after one browsing step (the step's requests and repaints are
/// left aside).
pub open spec fn browse(s: ShellView, step: BrowseStep) -> ShellView {
    let o = InputView { repaint: false, actions: Seq::empty() };
    match step {
        BrowseStep::MoveSelection(delta) => spec_move_settings_selection(s, delta),
        BrowseStep::SelectChoice(index) => spec_select_settings_choice(s, index),
        BrowseStep::EditFilter(edit) => spec_mutate_theme_filter(s, edit),
        BrowseStep::Preview => spec_preview_selected_theme(s),
        BrowseStep::SelectSection(section) => spec_select_settings_section(s, o, section).0,
        BrowseStep::MoveSection(delta) => spec_move_settings_section(s, o, delta).0,
    }
}

/// The shell after the browsing steps, in order.
pub open spec fn browse_all(s: ShellView, steps: Seq<BrowseStep>) -> ShellView
    decreases steps.len(),
{
    if steps.len() == 0 {
        s
    } else {
        browse(browse_all(s, steps.drop_last()), steps.last())
    }
}

proof fn lemma_browse_keeps_the_overlay(s: ShellView, step: BrowseStep)
    requires
        s.overlay matches Some(OverlayView::Settings(_)),
    ensures
        browse(s, step).overlay matches Some(OverlayView::Settings(_)),
        remembered_theme(browse(s, step)) == remembered_theme(s),
{
}

/// Cancel undoes every preview: open the overlay, browse in any way
/// (selection moves, row choices, filter edits, previews, section switches),
/// then cancel, and the overlay is closed with the theme and palette shown
/// before it was opened.
pub proof fn lemma_cancel_after_any_browsing_restores_the_theme(s: ShellView, steps: Seq<BrowseStep>)
    ensures
        ({
            let end = spec_cancel_settings_overlay(browse_all(spec_open_settings_overlay(s), steps));
            &&& end.overlay is None
            &&& end.config.theme_name == s.config.theme_name
            &&& end.config.palette == s.config.palette
        }),
    decreases steps.len(),
{
    lemma_browsing_keeps_the_overlay_for_all(spec_open_settings_overlay(s), steps);
}

proof fn lemma_browsing_keeps_the_overlay_for_all(s: ShellView, steps: Seq<BrowseStep>)
    requires
        s.overlay matches Some(OverlayView::Settings(_)),
    ensures
        browse_all(s, steps).overlay matches Some(OverlayView::Settings(_)),
        remembered_theme(browse_all(s, steps)) == remembered_theme(s),
    decreases steps.len(),
{
    if steps.len() > 0 {
        lemma_browsing_keeps_the_overlay_for_all(s, steps.drop_last());
        lemma_browse_keeps_the_overlay(browse_all(s, steps.drop_last()), steps.last());
    }
}

/// The shell after moving the selection by `delta` rows `n` times.
pub open spec fn move_selection_times(s: ShellView, delta: int, n: nat) -> ShellView
    decreases n,
{
    if n == 0 {
        s
    } else {
        spec_move_settings_selection(move_selection_times(s, delta, (n - 1) as nat), delta)
    }
}

/// Moving the selection down one row `n` times from row `r` lands on row
/// `min(r + n, count - 1)`: it stops at the last row instead of wrapping.
/// The section, its filter and its rows stay the same, and in the Theme
/// section the theme on the selected row is the one shown.
pub proof fn lemma_repeated_moves_stop_at_the_last_row(s: ShellView, n: nat)
    requires
        s.overlay matches Some(OverlayView::Settings(v)) && v.selected < spec_settings_choice_count(s),
        spec_settings_choice_count(s) <= usize::MAX,
    ensures
        ({
            let t = move_selection_times(s, 1, n);
            let count = spec_settings_choice_count(s);
            &&& spec_settings_choice_count(t) == count
            &&& current_theme_filter(t) == current_theme_filter(s)
            &&& t.overlay matches Some(OverlayView::Settings(w)) && {
                &&& s.overlay matches Some(OverlayView::Settings(v)) && w.section == v.section && w.selected
                    == (if v.selected + n < count - 1 {
                    v.selected + n
                } else {
                    count - 1
                })
                &&& (n > 0 && w.section == ClientSettingsSection::Theme) ==> t.config.theme_name
                    == visible_theme_names(t)[w.selected as int]
            }
        }),
    decreases n,
{
    if n > 0 {
        lemma_repeated_moves_stop_at_the_last_row(s, (n - 1) as nat);
    }
}

/// The arrow keys move the selection the way they point: in an open
/// settings overlay an unmodified Down selects the next row and an
/// unmodified Up the previous one (within the section's rows), and the key
/// is taken.
pub proof fn lemma_arrow_keys_move_the_selection_their_way(s: ShellView, o: InputView, key: KeyView)
    requires
        s.overlay matches Some(OverlayView::Settings(v)) && {
            &&& v.selected + 1 < spec_settings_choice_count(s)
            &&& spec_settings_choice_count(s) <= isize::MAX
        },
        key.modifiers == 0,
        key.code == KeyCode::Down || key.code == KeyCode::Up,
    ensures
        ({
            let routed = spec_route_settings_key(s, o, key);
            &&& routed.2
            &&& routed.0.overlay matches Some(OverlayView::Settings(w)) && s.overlay matches Some(
                OverlayView::Settings(v),
            ) && w.selected == (if key.code == KeyCode::Down {
                v.selected + 1
            } else if v.selected > 0 {
                v.selected - 1
            } else {
                0
            })
        }),
{
}

/// Switching to the Theme section selects the row of the theme being shown
/// in the list as currently filtered: when the filtered list holds a name
/// that normalizes like the current theme's, the selected row is the first
/// such name; otherwise the first row.
pub proof fn lemma_theme_section_selects_the_shown_theme(s: ShellView, o: InputView)
    requires
        s.overlay matches Some(OverlayView::Settings(_)),
        visible_theme_names(s).len() <= usize::MAX,
    ensures
        ({
            let t = spec_select_settings_section(s, o, ClientSettingsSection::Theme).0;
            let names = visible_theme_names(s);
            let key = spec_normalized_theme_name(s.config.theme_name);
            &&& visible_theme_names(t) == names
            &&& t.overlay matches Some(OverlayView::Settings(w)) && {
                &&& w.section == ClientSettingsSection::Theme
                &&& (exists|k: int| 0 <= k < names.len() && spec_normalized_theme_name(#[trigger] names[k]) == key)
                    ==> {
                    &&& w.selected < names.len()
                    &&& spec_normalized_theme_name(names[w.selected as int]) == key
                    &&& forall|k: int| 0 <= k < w.selected ==> spec_normalized_theme_name(#[trigger] names[k]) != key
                }
                &&& !(exists|k: int| 0 <= k < names.len() && spec_normalized_theme_name(#[trigger] names[k]) == key)
                    ==> w.selected == 0
            }
        }),
{
    let names = visible_theme_names(s);
    let key = spec_normalized_theme_name(s.config.theme_name);
    crate::themes::lemma_theme_index_is_first_match(names, key, 0);
    let t = spec_select_settings_section(s, o, ClientSettingsSection::Theme).0;
    assert(current_theme_filter(t) == current_theme_filter(s));
    assert(t.themes == s.themes);
    if exists|k: int| 0 <= k < names.len() && spec_normalized_theme_name(#[trigger] names[k]) == key {
        let k = choose|k: int| 0 <= k < names.len() && spec_normalized_theme_name(#[trigger] names[k]) == key;
        assert(0 <= k < names.len() && spec_normalized_theme_name(names[k]) == key);
    }
}

/// Editing the theme filter re-anchors the selection to the first row, so
/// it never points past the end of a shrunken list.
pub proof fn lemma_filter_edit_reanchors_selection(s: ShellView, edit: FilterEditView)
    requires
        s.overlay matches Some(OverlayView::Settings(_)),
    ensures
        (spec_mutate_theme_filter(s, edit).overlay matches Some(OverlayView::Settings(v)) && v.selected
            == 0),
{
}

/// Moving the selection keeps it on a row of the section whenever the
/// section has rows.
pub proof fn lemma_selection_stays_in_range(s: ShellView, delta: int)
    requires
        s.overlay matches Some(OverlayView::Settings(_)),
        spec_settings_choice_count(s) > 0,
    ensures
        (spec_move_settings_selection(s, delta).overlay matches Some(OverlayView::Settings(v))
            && v.selected < spec_settings_choice_count(s)),
{
}

/// Esc with a non-empty theme filter clears the filter and keeps the overlay
/// open; Esc with an empty filter (and nothing installing) closes it and
/// restores the remembered theme.
pub proof fn lemma_esc_clears_filter_before_cancelling(s: ShellView, o: InputView, key: KeyView)
    requires
        key.code == KeyCode::Esc,
        s.overlay matches Some(OverlayView::Settings(v)) && !v.installing_integrations
            && v.section == ClientSettingsSection::Theme,
    ensures
        ({
            let routed = spec_route_settings_key(s, o, key);
            &&& routed.2
            &&& current_theme_filter(s).len() > 0 ==> (routed.0.overlay matches Some(
                OverlayView::Settings(w),
            ) && w.theme_filter.len() == 0)
            &&& current_theme_filter(s).len() == 0 ==> routed.0.overlay is None && Some(
                (routed.0.config.theme_name, routed.0.config.palette),
            ) == remembered_theme(s)
        }),
{
}

/// The spinner advances at most once per frame period: a tick before the
/// armed deadline changes nothing, and a tick that advances re-arms the
/// deadline a full period later.
pub proof fn lemma_spinner_advances_once_per_period(s: ShellView, now: u64)
    ensures
        (s.status_animation_deadline matches Some(d) && now < d && s.config.status_indicators
            == StatusIndicatorStyle::Animated && s.agent_statuses.contains(AgentStatus::Working))
            ==> spec_tick_status_animation(s, now) == (s, false),
        spec_tick_status_animation(s, now).1 ==> spec_tick_status_animation(s, now).0.status_animation_deadline
            == Some(now.saturating_add(SPINNER_FRAME_MILLIS)),
        s.config.status_indicators != StatusIndicatorStyle::Animated || !s.agent_statuses.contains(
            AgentStatus::Working,
        ) ==> !spec_tick_status_animation(s, now).1
            && spec_tick_status_animation(s, now).0.config == s.config,
        s.status_animation_deadline is None ==> !spec_tick_status_animation(s, now).1,
{
}

} // verus!
