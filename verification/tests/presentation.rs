use infekt::presentation::{
    built_in_themes, preset_toggles, scaled_dimension, InspectorMessage, InspectorUpdate,
    NfoThemePreset, PresentationInspector, PresentationState, RendererChoices, ThemeToggles,
    BASE_BLOCK_HEIGHT, MAX_ZOOM_PERCENT, MIN_ZOOM_PERCENT,
};

#[test]
fn edited_theme_transitions_to_custom() {
    let mut presentation = PresentationState::new();
    assert_eq!(presentation.selected_theme, NfoThemePreset::NeonPasture);

    presentation.mark_custom();

    assert_eq!(presentation.selected_theme, NfoThemePreset::Custom);
    assert!(!presentation.selected_theme.has_values());
}

#[test]
fn zoom_is_clamped_and_applies_from_base_dimensions() {
    let mut presentation = PresentationState::new();

    for _ in 0..100 {
        presentation.zoom_in();
    }
    assert_eq!(presentation.zoom_percent, MAX_ZOOM_PERCENT);
    assert_eq!(presentation.zoomed_block_height(), 36);

    for _ in 0..100 {
        presentation.zoom_out();
    }
    assert_eq!(presentation.zoom_percent, MIN_ZOOM_PERCENT);
    assert_eq!(presentation.zoomed_block_height(), 6);
}

#[test]
fn zoom_uses_ten_percent_intermediate_steps() {
    let mut presentation = PresentationState::new();

    presentation.zoom_in();
    assert_eq!(presentation.zoom_percent, 110);
    assert_eq!(presentation.zoomed_block_height(), 13);

    presentation.zoom_in();
    assert_eq!(presentation.zoom_percent, 120);
    presentation.zoom_out();
    assert_eq!(presentation.zoom_percent, 110);
}

fn settings() -> RendererChoices {
    RendererChoices {
        font_name: "Cascadia Mono".to_owned(),
        glow_enabled: true,
        glow_radius: 24,
        hyperlink_underline: true,
    }
}

fn same_settings(left: &RendererChoices, right: &RendererChoices) -> bool {
    left.font_name == right.font_name
        && left.glow_enabled == right.glow_enabled
        && left.glow_radius == right.glow_radius
        && left.hyperlink_underline == right.hyperlink_underline
}

#[test]
fn presentation_only_controls_do_not_change_render_settings() {
    let mut inspector = PresentationInspector::new();
    let mut presentation = PresentationState::new();
    let mut renderer = settings();
    let before = renderer.clone();

    for message in [
        InspectorMessage::UseAnsiColorsChanged(false),
        InspectorMessage::LineWrappingChanged(true),
        InspectorMessage::AntialiasingChanged(false),
    ] {
        assert_eq!(
            inspector.update(message, &mut presentation, &mut renderer),
            InspectorUpdate::PresentationOnly
        );
    }

    assert!(same_settings(&renderer, &before));
    assert!(!presentation.use_ansi_colors);
    assert!(presentation.line_wrapping);
    assert!(!presentation.antialiasing);
    assert_eq!(presentation.selected_theme, NfoThemePreset::NeonPasture);
}

#[test]
fn theme_value_edits_rerender_and_mark_the_theme_custom() {
    let edits = [
        InspectorMessage::BackgroundColorSelected,
        InspectorMessage::TextColorSelected,
        InspectorMessage::ArtColorSelected,
        InspectorMessage::HyperlinkColorSelected,
        InspectorMessage::GlowEnabledChanged(false),
        InspectorMessage::GlowColorSelected,
        InspectorMessage::GlowRadiusChanged(8),
        InspectorMessage::HyperlinkUnderlineChanged(false),
    ];

    for edit in edits {
        let mut inspector = PresentationInspector::new();
        let mut presentation = PresentationState::new();
        let mut renderer = settings();
        assert_eq!(
            inspector.update(edit, &mut presentation, &mut renderer),
            InspectorUpdate::RenderSettingsChanged
        );
        assert_eq!(presentation.selected_theme, NfoThemePreset::Custom);
    }
}

#[test]
fn edited_values_reach_the_theme_and_the_renderer() {
    let mut inspector = PresentationInspector::new();
    let mut presentation = PresentationState::new();
    let mut renderer = settings();

    let _ = inspector.update(
        InspectorMessage::GlowRadiusChanged(48),
        &mut presentation,
        &mut renderer,
    );
    let _ = inspector.update(
        InspectorMessage::GlowEnabledChanged(false),
        &mut presentation,
        &mut renderer,
    );
    let _ = inspector.update(
        InspectorMessage::HyperlinkUnderlineChanged(false),
        &mut presentation,
        &mut renderer,
    );

    assert_eq!(renderer.glow_radius, 48);
    assert!(!renderer.glow_enabled);
    assert!(!renderer.hyperlink_underline);
    assert_eq!(
        presentation.theme_toggles,
        ThemeToggles {
            glow_enabled: false,
            glow_radius: 48,
            hyperlink_underline: false,
        }
    );
}

#[test]
fn renderer_edits_rerender_without_touching_the_theme() {
    for edit in [
        InspectorMessage::FontNameSelected("Fira Mono".to_owned()),
        InspectorMessage::FontSizeSelected,
        InspectorMessage::CharacterRatioChanged,
    ] {
        let mut inspector = PresentationInspector::new();
        let mut presentation = PresentationState::new();
        let before = presentation;
        let mut renderer = settings();
        assert_eq!(
            inspector.update(edit, &mut presentation, &mut renderer),
            InspectorUpdate::RenderSettingsChanged
        );
        assert_eq!(presentation, before);
    }

    let mut inspector = PresentationInspector::new();
    let mut presentation = PresentationState::new();
    let mut renderer = settings();
    let _ = inspector.update(
        InspectorMessage::FontNameSelected("Fira Mono".to_owned()),
        &mut presentation,
        &mut renderer,
    );
    assert_eq!(renderer.font_name, "Fira Mono");

    let before = presentation;
    assert_eq!(
        inspector.update(
            InspectorMessage::FontNamesLoaded(vec!["Andale Mono".to_owned()]),
            &mut presentation,
            &mut renderer
        ),
        InspectorUpdate::PresentationOnly
    );
    assert_eq!(presentation, before);
    assert_eq!(inspector.all_font_names, vec!["Andale Mono".to_owned()]);
}

#[test]
fn theme_selection_rerenders_with_the_picked_preset() {
    let mut inspector = PresentationInspector::new();
    let mut presentation = PresentationState::new();
    let mut renderer = settings();

    assert_eq!(
        inspector.update(
            InspectorMessage::ThemeSelected(NfoThemePreset::CobaltPaper),
            &mut presentation,
            &mut renderer
        ),
        InspectorUpdate::RenderSettingsChanged
    );
    assert_eq!(presentation.selected_theme, NfoThemePreset::CobaltPaper);
    assert_eq!(presentation.theme_toggles.glow_radius, 8);
    assert_eq!(renderer.glow_radius, 8);

    renderer.glow_radius = 30;
    presentation.select_theme(NfoThemePreset::Custom, &mut renderer);
    assert_eq!(presentation.selected_theme, NfoThemePreset::Custom);
    assert_eq!(presentation.theme_toggles.glow_radius, 30);
    assert_eq!(renderer.glow_radius, 30);

    presentation.select_theme(NfoThemePreset::NeonPasture, &mut renderer);
    assert_eq!(renderer.glow_radius, 24);
    assert_eq!(preset_toggles(NfoThemePreset::Custom), None);
}

#[test]
fn zoom_steps_undo_each_other_inside_the_range() {
    for start in [50u16, 60, 100, 200, 290] {
        let mut presentation = PresentationState::new();
        presentation.zoom_percent = start;
        presentation.zoom_in();
        presentation.zoom_out();
        assert_eq!(presentation.zoom_percent, start);
    }
    for start in [60u16, 100, 300] {
        let mut presentation = PresentationState::new();
        presentation.zoom_percent = start;
        presentation.zoom_out();
        presentation.zoom_in();
        assert_eq!(presentation.zoom_percent, start);
    }
}

#[test]
fn scaled_dimensions_round_half_up() {
    assert_eq!(scaled_dimension(BASE_BLOCK_HEIGHT, 100), 12);
    assert_eq!(scaled_dimension(BASE_BLOCK_HEIGHT, 110), 13);
    assert_eq!(scaled_dimension(7, 150), 11);
    assert_eq!(scaled_dimension(10, 5), 1);
    assert_eq!(scaled_dimension(10, 4), 0);
}

#[test]
fn shell_overlays_close_the_overflow_menu() {
    let mut presentation = PresentationState::new();
    assert!(presentation.inspector_open);

    presentation.toggle_inspector();
    assert!(!presentation.inspector_open);

    presentation.toggle_overflow();
    assert!(presentation.overflow_open);

    presentation.show_about();
    assert!(presentation.about_open);
    assert!(!presentation.overflow_open);
    presentation.close_about();
    assert!(!presentation.about_open);

    presentation.toggle_overflow();
    presentation.file_hovered();
    assert!(!presentation.overflow_open);
}

#[test]
fn theme_picker_lists_the_presets_with_their_names() {
    let themes = built_in_themes();
    assert_eq!(themes, [NfoThemePreset::NeonPasture, NfoThemePreset::CobaltPaper]);
    assert_eq!(NfoThemePreset::NeonPasture.label(), "Neon Pasture");
    assert_eq!(NfoThemePreset::CobaltPaper.label(), "Cobalt Paper");
    assert_eq!(NfoThemePreset::Custom.label(), "Custom");
    assert_eq!(PresentationState::default(), PresentationState::new());
}
