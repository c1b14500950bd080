use vstd::prelude::*;

verus! {

/// Smallest zoom level offered by the toolbar, in percent.
pub const MIN_ZOOM_PERCENT: u16 = 50;
/// Largest zoom level offered by the toolbar, in percent.
pub const MAX_ZOOM_PERCENT: u16 = 300;
/// Distance between two neighbouring zoom levels, in percent.
pub const ZOOM_STEP_PERCENT: u16 = 10;
/// Height of one enhanced-view block at 100 % zoom, in pixels.
pub const BASE_BLOCK_HEIGHT: u16 = 12;
/// Width of one enhanced-view block at 100 % zoom, in pixels.
pub const BASE_BLOCK_WIDTH: u16 = 7;

/// `base * percent / 100`, rounded half up.
pub open spec fn spec_scaled_dimension(base: int, percent: int) -> int {
    (base * percent + 50) / 100
}

/// Scales a pixel dimension by a zoom percentage, rounding half up.
pub fn scaled_dimension(base: u16, percent: u16) -> (scaled: u16)
    requires
        base * percent + 50 <= u16::MAX,
    ensures
        scaled == spec_scaled_dimension(base as int, percent as int),
{
    assert(base * percent <= u16::MAX) by (nonlinear_arith)
        requires
            base * percent + 50 <= u16::MAX,
    ;
    (base * percent + 50) / 100
}

/// The built-in colour themes, plus the marker for a user-edited theme.
#[derive(Debug, Clone, Copy, PartialEq, Eq, Structural)]
pub enum NfoThemePreset {
    NeonPasture,
    CobaltPaper,
    Custom,
}

/// The presets offered in the theme picker, in display order.
pub fn built_in_themes() -> (themes: [NfoThemePreset; 2])
    ensures
        themes@ == seq![NfoThemePreset::NeonPasture, NfoThemePreset::CobaltPaper],
{
    [NfoThemePreset::NeonPasture, NfoThemePreset::CobaltPaper]
}

impl NfoThemePreset {
    /// Whether the preset carries a fixed set of theme values (only `Custom` does not).
    pub open spec fn spec_has_values(self) -> bool {
        !(self is Custom)
    }

    /// Whether the preset carries a fixed set of theme values.
    pub fn has_values(self) -> (has: bool)
        ensures
            has == self.spec_has_values(),
    {
        match self {
            NfoThemePreset::NeonPasture => true,
            NfoThemePreset::CobaltPaper => true,
            NfoThemePreset::Custom => false,
        }
    }

    /// The name shown in the theme picker.
    pub fn label(self) -> (name: &'static str)
        ensures
            self is NeonPasture ==> name@ == "Neon Pasture"@,
            self is CobaltPaper ==> name@ == "Cobalt Paper"@,
            self is Custom ==> name@ == "Custom"@,
    {
        match self {
            NfoThemePreset::NeonPasture => "Neon Pasture",
            NfoThemePreset::CobaltPaper => "Cobalt Paper",
            NfoThemePreset::Custom => "Custom",
        }
    }
}

/// The zoom level after one "zoom in" step: ten percent more, at most the maximum.
pub open spec fn spec_zoom_in(zoom: int) -> int {
    let raised = if zoom + 10 > u16::MAX { u16::MAX as int } else { zoom + 10 };
    if raised > 300 { 300 } else { raised }
}

/// The zoom level after one "zoom out" step: ten percent less, at least the minimum.
pub open spec fn spec_zoom_out(zoom: int) -> int {
    let lowered = if zoom < 10 { 0 } else { zoom - 10 };
    if lowered < 50 { 50 } else { lowered }
}

/// The values of a colour theme that are not colours.
#[derive(Debug, Clone, Copy, PartialEq, Eq, Structural)]
pub struct ThemeToggles {
    pub glow_enabled: bool,
    pub glow_radius: u16,
    pub hyperlink_underline: bool,
}

/// The non-colour values of Neon Pasture.
pub open spec fn neon_pasture_toggles() -> ThemeToggles {
    ThemeToggles { glow_enabled: true, glow_radius: 24, hyperlink_underline: true }
}

/// The non-colour values of Cobalt Paper.
pub open spec fn cobalt_paper_toggles() -> ThemeToggles {
    ThemeToggles { glow_enabled: true, glow_radius: 8, hyperlink_underline: true }
}

/// The non-colour values a preset brings; `Custom` brings none.
pub open spec fn spec_preset_toggles(preset: NfoThemePreset) -> Option<ThemeToggles> {
    match preset {
        NfoThemePreset::NeonPasture => Some(neon_pasture_toggles()),
        NfoThemePreset::CobaltPaper => Some(cobalt_paper_toggles()),
        NfoThemePreset::Custom => None,
    }
}

/// The non-colour values a preset brings; `Custom` brings none.
pub fn preset_toggles(preset: NfoThemePreset) -> (toggles: Option<ThemeToggles>)
    ensures
        toggles == spec_preset_toggles(preset),
{
    match preset {
        NfoThemePreset::NeonPasture => Some(
            ThemeToggles { glow_enabled: true, glow_radius: 24, hyperlink_underline: true },
        ),
        NfoThemePreset::CobaltPaper => Some(
            ThemeToggles { glow_enabled: true, glow_radius: 8, hyperlink_underline: true },
        ),
        NfoThemePreset::Custom => None,
    }
}

/// The renderer settings the inspector edits that are not floating point.
#[derive(Debug, Clone)]
pub struct RendererChoices {
    pub font_name: String,
    pub glow_enabled: bool,
    pub glow_radius: u16,
    pub hyperlink_underline: bool,
}

/// The text and values of `RendererChoices`.
pub struct RendererChoicesView {
    pub font_name: Seq<char>,
    pub glow_enabled: bool,
    pub glow_radius: u16,
    pub hyperlink_underline: bool,
}

impl View for RendererChoices {
    type V = RendererChoicesView;

    open spec fn view(&self) -> RendererChoicesView {
        RendererChoicesView {
            font_name: self.font_name@,
            glow_enabled: self.glow_enabled,
            glow_radius: self.glow_radius,
            hyperlink_underline: self.hyperlink_underline,
        }
    }
}

/// The state and settings after `preset` is selected.
pub open spec fn theme_selected(
    state: PresentationState,
    settings: RendererChoicesView,
    preset: NfoThemePreset,
) -> (PresentationState, RendererChoicesView) {
    match spec_preset_toggles(preset) {
        Some(toggles) => (
            PresentationState { selected_theme: preset, theme_toggles: toggles, ..state },
            RendererChoicesView {
                glow_enabled: toggles.glow_enabled,
                glow_radius: toggles.glow_radius,
                hyperlink_underline: toggles.hyperlink_underline,
                ..settings
            },
        ),
        None => (
            PresentationState {
                selected_theme: preset,
                theme_toggles: ThemeToggles {
                    glow_enabled: settings.glow_enabled,
                    glow_radius: settings.glow_radius,
                    hyperlink_underline: settings.hyperlink_underline,
                },
                ..state
            },
            settings,
        ),
    }
}

/// Session-only presentation state of the application shell.
///
/// Colours, the character ratio and other floating-point presentation
/// values live with the renderer settings; this holds the discrete state,
/// among it the theme values that are not colours.
#[derive(Debug, Clone, Copy, PartialEq, Eq)]
pub struct PresentationState {
    pub selected_theme: NfoThemePreset,
    pub theme_toggles: ThemeToggles,
    pub inspector_open: bool,
    pub overflow_open: bool,
    pub about_open: bool,
    pub zoom_percent: u16,
    pub use_ansi_colors: bool,
    pub line_wrapping: bool,
    pub antialiasing: bool,
}

impl PresentationState {
    /// The state of a freshly started session.
    pub fn new() -> (state: Self)
        ensures
            state == PresentationState::spec_new(),
    {
        PresentationState {
            selected_theme: NfoThemePreset::NeonPasture,
            theme_toggles: ThemeToggles { glow_enabled: true, glow_radius: 24, hyperlink_underline: true },
            inspector_open: true,
            overflow_open: false,
            about_open: false,
            zoom_percent: 100,
            use_ansi_colors: true,
            line_wrapping: false,
            antialiasing: true,
        }
    }

    /// Selects a theme preset. A preset with values of its own makes them
    /// the theme values and the renderer settings; `Custom` takes the theme
    /// values from the renderer settings as they are.
    pub fn select_theme(&mut self, preset: NfoThemePreset, settings: &mut RendererChoices)
        ensures
            (*final(self), final(settings)@) == theme_selected(*old(self), old(settings)@, preset),
    {
        self.selected_theme = preset;
        match preset_toggles(preset) {
            Some(toggles) => {
                self.theme_toggles = toggles;
                settings.glow_enabled = toggles.glow_enabled;
                settings.glow_radius = toggles.glow_radius;
                settings.hyperlink_underline = toggles.hyperlink_underline;
            },
            None => {
                self.theme_toggles = ThemeToggles {
                    glow_enabled: settings.glow_enabled,
                    glow_radius: settings.glow_radius,
                    hyperlink_underline: settings.hyperlink_underline,
                };
            },
        }
    }

    /// Records that the theme was edited by hand.
    pub fn mark_custom(&mut self)
        ensures
            *final(self) == (PresentationState { selected_theme: NfoThemePreset::Custom, ..*old(self) }),
    {
        self.selected_theme = NfoThemePreset::Custom;
    }

    /// Raises the zoom by one step, clamped to the maximum.
    pub fn zoom_in(&mut self)
        ensures
            final(self).zoom_percent == spec_zoom_in(old(self).zoom_percent as int),
            *final(self) == (PresentationState { zoom_percent: final(self).zoom_percent, ..*old(self) }),
    {
        let raised = self.zoom_percent.saturating_add(ZOOM_STEP_PERCENT);
        self.zoom_percent = if raised > MAX_ZOOM_PERCENT { MAX_ZOOM_PERCENT } else { raised };
    }

    /// Lowers the zoom by one step, clamped to the minimum.
    pub fn zoom_out(&mut self)
        ensures
            final(self).zoom_percent == spec_zoom_out(old(self).zoom_percent as int),
            *final(self) == (PresentationState { zoom_percent: final(self).zoom_percent, ..*old(self) }),
    {
        let lowered = self.zoom_percent.saturating_sub(ZOOM_STEP_PERCENT);
        self.zoom_percent = if lowered < MIN_ZOOM_PERCENT { MIN_ZOOM_PERCENT } else { lowered };
    }

    /// The enhanced-view block height for the current zoom level.
    pub fn zoomed_block_height(&self) -> (height: u16)
        requires
            BASE_BLOCK_HEIGHT * self.zoom_percent + 50 <= u16::MAX,
        ensures
            height == spec_scaled_dimension(BASE_BLOCK_HEIGHT as int, self.zoom_percent as int),
    {
        scaled_dimension(BASE_BLOCK_HEIGHT, self.zoom_percent)
    }

    /// Shows or hides the presentation inspector; the overflow menu closes.
    pub fn toggle_inspector(&mut self)
        ensures
            *final(self) == (PresentationState {
                inspector_open: !old(self).inspector_open,
                overflow_open: false,
                ..*old(self)
            }),
    {
        self.inspector_open = !self.inspector_open;
        self.overflow_open = false;
    }

    /// Opens or closes the overflow menu.
    pub fn toggle_overflow(&mut self)
        ensures
            *final(self) == (PresentationState { overflow_open: !old(self).overflow_open, ..*old(self) }),
    {
        self.overflow_open = !self.overflow_open;
    }

    /// Opens the About dialog; the overflow menu closes.
    pub fn show_about(&mut self)
        ensures
            *final(self) == (PresentationState { about_open: true, overflow_open: false, ..*old(self) }),
    {
        self.about_open = true;
        self.overflow_open = false;
    }

    /// Closes the About dialog.
    pub fn close_about(&mut self)
        ensures
            *final(self) == (PresentationState { about_open: false, ..*old(self) }),
    {
        self.about_open = false;
    }

    /// A file dragged over the window closes the overflow menu.
    pub fn file_hovered(&mut self)
        ensures
            *final(self) == (PresentationState { overflow_open: false, ..*old(self) }),
    {
        self.overflow_open = false;
    }
}

impl Default for PresentationState {
    fn default() -> (state: Self)
        ensures
            state == PresentationState::spec_new(),
    {
        PresentationState::new()
    }
}

impl PresentationState {
    /// The state of a freshly started session.
    pub open spec fn spec_new() -> PresentationState {
        PresentationState {
            selected_theme: NfoThemePreset::NeonPasture,
            theme_toggles: neon_pasture_toggles(),
            inspector_open: true,
            overflow_open: false,
            about_open: false,
            zoom_percent: 100,
            use_ansi_colors: true,
            line_wrapping: false,
            antialiasing: true,
        }
    }
}

/// A zoom level offered by the toolbar.
pub open spec fn zoom_in_range(zoom: int) -> bool {
    MIN_ZOOM_PERCENT <= zoom <= MAX_ZOOM_PERCENT
}

/// Zooming in or out from an offered level gives an offered level, and the
/// session starts at one; so the zoom level never leaves the offered range.
pub proof fn law_zoom_stays_in_range(zoom: int)
    requires
        zoom_in_range(zoom),
    ensures
        zoom_in_range(spec_zoom_in(zoom)),
        zoom_in_range(spec_zoom_out(zoom)),
        zoom_in_range(PresentationState::spec_new().zoom_percent as int),
{
}

/// One step in undoes one step out, and one step out undoes one step in,
/// wherever the first step was not cut short by the range's end.
pub proof fn law_zoom_steps_undo_each_other(zoom: int)
    requires
        zoom_in_range(zoom),
    ensures
        zoom + ZOOM_STEP_PERCENT <= MAX_ZOOM_PERCENT ==> spec_zoom_out(spec_zoom_in(zoom)) == zoom,
        zoom - ZOOM_STEP_PERCENT >= MIN_ZOOM_PERCENT ==> spec_zoom_in(spec_zoom_out(zoom)) == zoom,
{
}

/// A change made in the presentation inspector. Colours, the font size and
/// the character ratio are floating point and travel with the renderer
/// settings outside the library; their messages carry nothing here.
#[derive(Debug, Clone)]
pub enum InspectorMessage {
    ThemeSelected(NfoThemePreset),
    BackgroundColorSelected,
    TextColorSelected,
    ArtColorSelected,
    HyperlinkColorSelected,
    GlowEnabledChanged(bool),
    GlowColorSelected,
    GlowRadiusChanged(u16),
    HyperlinkUnderlineChanged(bool),
    FontNamesLoaded(Vec<String>),
    FontNameSelected(String),
    FontSizeSelected,
    CharacterRatioChanged,
    AntialiasingChanged(bool),
    UseAnsiColorsChanged(bool),
    LineWrappingChanged(bool),
}

/// Whether an inspector change needs the NFO rendered again.
#[derive(Debug, Clone, Copy, PartialEq, Eq, Structural)]
pub enum InspectorUpdate {
    PresentationOnly,
    RenderSettingsChanged,
}

/// An inspector change edits a value of the colour theme.
pub open spec fn edits_theme_value(message: InspectorMessage) -> bool {
    match message {
        InspectorMessage::BackgroundColorSelected
        | InspectorMessage::TextColorSelected
        | InspectorMessage::ArtColorSelected
        | InspectorMessage::HyperlinkColorSelected
        | InspectorMessage::GlowEnabledChanged(_)
        | InspectorMessage::GlowColorSelected
        | InspectorMessage::GlowRadiusChanged(_)
        | InspectorMessage::HyperlinkUnderlineChanged(_) => true,
        _ => false,
    }
}

/// An inspector change alters only how the shell presents the NFO, not the
/// rendering.
pub open spec fn presentation_only(message: InspectorMessage) -> bool {
    match message {
        InspectorMessage::FontNamesLoaded(_)
        | InspectorMessage::AntialiasingChanged(_)
        | InspectorMessage::UseAnsiColorsChanged(_)
        | InspectorMessage::LineWrappingChanged(_) => true,
        _ => false,
    }
}

/// The presentation state and renderer settings after an inspector change.
pub open spec fn state_after_inspector(
    state: PresentationState,
    settings: RendererChoicesView,
    message: InspectorMessage,
) -> (PresentationState, RendererChoicesView) {
    let custom = PresentationState { selected_theme: NfoThemePreset::Custom, ..state };
    let toggles = state.theme_toggles;
    match message {
        InspectorMessage::ThemeSelected(preset) => theme_selected(state, settings, preset),
        InspectorMessage::GlowEnabledChanged(enabled) => (
            PresentationState { theme_toggles: ThemeToggles { glow_enabled: enabled, ..toggles }, ..custom },
            RendererChoicesView { glow_enabled: enabled, ..settings },
        ),
        InspectorMessage::GlowRadiusChanged(radius) => (
            PresentationState { theme_toggles: ThemeToggles { glow_radius: radius, ..toggles }, ..custom },
            RendererChoicesView { glow_radius: radius, ..settings },
        ),
        InspectorMessage::HyperlinkUnderlineChanged(underline) => (
            PresentationState {
                theme_toggles: ThemeToggles { hyperlink_underline: underline, ..toggles },
                ..custom
            },
            RendererChoicesView { hyperlink_underline: underline, ..settings },
        ),
        InspectorMessage::FontNameSelected(name) => (state, RendererChoicesView { font_name: name@, ..settings }),
        InspectorMessage::AntialiasingChanged(enabled) => (PresentationState { antialiasing: enabled, ..state }, settings),
        InspectorMessage::UseAnsiColorsChanged(enabled) => (PresentationState { use_ansi_colors: enabled, ..state }, settings),
        InspectorMessage::LineWrappingChanged(enabled) => (PresentationState { line_wrapping: enabled, ..state }, settings),
        _ => if edits_theme_value(message) {
            (custom, settings)
        } else {
            (state, settings)
        },
    }
}

/// The font names offered for `message`: the names that arrived, or the
/// ones offered before.
pub open spec fn font_names_after_inspector(names: Seq<Seq<char>>, message: InspectorMessage) -> Seq<Seq<char>> {
    match message {
        InspectorMessage::FontNamesLoaded(loaded) => crate::natural_order::views(loaded@),
        _ => names,
    }
}

/// The presentation inspector: the font names it offers.
pub struct PresentationInspector {
    pub all_font_names: Vec<String>,
}

impl PresentationInspector {
    /// An inspector with no font names yet.
    pub fn new() -> (inspector: Self)
        ensures
            inspector.all_font_names@.len() == 0,
    {
        PresentationInspector { all_font_names: Vec::new() }
    }

    /// Applies an inspector change: a theme pick selects the preset; an
    /// edited theme value makes the theme `Custom` and is written to both
    /// the theme values and the renderer settings; a font pick is written to
    /// the renderer settings; arriving font names are kept; the display
    /// toggles are recorded. Reports whether the renderer settings changed,
    /// which is the case for everything but the font list and the display
    /// toggles.
    pub fn update(
        &mut self,
        message: InspectorMessage,
        presentation: &mut PresentationState,
        settings: &mut RendererChoices,
    ) -> (update: InspectorUpdate)
        ensures
            (*final(presentation), final(settings)@) == state_after_inspector(
                *old(presentation),
                old(settings)@,
                message,
            ),
            crate::natural_order::views(final(self).all_font_names@) == font_names_after_inspector(
                crate::natural_order::views(old(self).all_font_names@),
                message,
            ),
            (update == InspectorUpdate::PresentationOnly) == presentation_only(message),
    {
        match message {
            InspectorMessage::ThemeSelected(preset) => {
                presentation.select_theme(preset, settings);
                InspectorUpdate::RenderSettingsChanged
            },
            InspectorMessage::GlowEnabledChanged(enabled) => {
                settings.glow_enabled = enabled;
                presentation.theme_toggles.glow_enabled = enabled;
                presentation.mark_custom();
                InspectorUpdate::RenderSettingsChanged
            },
            InspectorMessage::GlowRadiusChanged(radius) => {
                settings.glow_radius = radius;
                presentation.theme_toggles.glow_radius = radius;
                presentation.mark_custom();
                InspectorUpdate::RenderSettingsChanged
            },
            InspectorMessage::HyperlinkUnderlineChanged(underline) => {
                settings.hyperlink_underline = underline;
                presentation.theme_toggles.hyperlink_underline = underline;
                presentation.mark_custom();
                InspectorUpdate::RenderSettingsChanged
            },
            InspectorMessage::BackgroundColorSelected
            | InspectorMessage::TextColorSelected
            | InspectorMessage::ArtColorSelected
            | InspectorMessage::HyperlinkColorSelected
            | InspectorMessage::GlowColorSelected => {
                presentation.mark_custom();
                InspectorUpdate::RenderSettingsChanged
            },
            InspectorMessage::FontNamesLoaded(names) => {
                self.all_font_names = names;
                InspectorUpdate::PresentationOnly
            },
            InspectorMessage::FontNameSelected(name) => {
                settings.font_name = name;
                InspectorUpdate::RenderSettingsChanged
            },
            InspectorMessage::FontSizeSelected | InspectorMessage::CharacterRatioChanged => {
                InspectorUpdate::RenderSettingsChanged
            },
            InspectorMessage::AntialiasingChanged(enabled) => {
                presentation.antialiasing = enabled;
                InspectorUpdate::PresentationOnly
            },
            InspectorMessage::UseAnsiColorsChanged(enabled) => {
                presentation.use_ansi_colors = enabled;
                InspectorUpdate::PresentationOnly
            },
            InspectorMessage::LineWrappingChanged(enabled) => {
                presentation.line_wrapping = enabled;
                InspectorUpdate::PresentationOnly
            },
        }
    }
}

/// Editing any value of a theme by hand leaves the theme `Custom`, which has
/// no preset values of its own.
pub proof fn law_edited_theme_is_custom(
    state: PresentationState,
    settings: RendererChoicesView,
    message: InspectorMessage,
)
    requires
        edits_theme_value(message),
    ensures
        state_after_inspector(state, settings, message).0.selected_theme == NfoThemePreset::Custom,
        !state_after_inspector(state, settings, message).0.selected_theme.spec_has_values(),
{
}

/// Picking a built-in preset sets its non-colour values in the theme and in
/// the renderer: Neon Pasture and Cobalt Paper both glow and underline
/// links, Neon Pasture with a glow radius of 24 and Cobalt Paper of 8; the
/// font stays. Picking `Custom` keeps the renderer as it is.
pub proof fn law_presets_bring_their_values(state: PresentationState, settings: RendererChoicesView)
    ensures
        ({
            let (neon, neon_settings) = theme_selected(state, settings, NfoThemePreset::NeonPasture);
            &&& neon.theme_toggles.glow_enabled && neon_settings.glow_enabled
            &&& neon.theme_toggles.glow_radius == 24 && neon_settings.glow_radius == 24
            &&& neon.theme_toggles.hyperlink_underline && neon_settings.hyperlink_underline
            &&& neon_settings.font_name == settings.font_name
        }),
        ({
            let (cobalt, cobalt_settings) = theme_selected(state, settings, NfoThemePreset::CobaltPaper);
            &&& cobalt.theme_toggles.glow_enabled && cobalt_settings.glow_enabled
            &&& cobalt.theme_toggles.glow_radius == 8 && cobalt_settings.glow_radius == 8
            &&& cobalt.theme_toggles.hyperlink_underline && cobalt_settings.hyperlink_underline
            &&& cobalt_settings.font_name == settings.font_name
        }),
        ({
            let (custom, custom_settings) = theme_selected(state, settings, NfoThemePreset::Custom);
            &&& custom_settings == settings
            &&& custom.theme_toggles.glow_enabled == settings.glow_enabled
            &&& custom.theme_toggles.glow_radius == settings.glow_radius
            &&& custom.theme_toggles.hyperlink_underline == settings.hyperlink_underline
        }),
{
}

} // verus!
