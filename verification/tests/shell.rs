use infekt::file_drop::{FileDropEvent, FileDropHover};
use infekt::folder_browser::{BrowseDirection, ScanResult};
use infekt::natural_order::sort_in_scan_order;
use infekt::nfo_backdrop::BackdropImage;
use infekt::presentation::{InspectorMessage, NfoThemePreset};
use infekt::renderer_grid::{NfoRendererBlockGroup, NfoRendererBlockShape, NfoRendererGrid, NfoRendererLine};
use infekt::nfo_backdrop::{Rgb8, Rgba8};
use infekt::main_view::{InfektMainView, Message as ViewMessage, TabId};
use infekt::shell::{
    browse_direction_for_key, shortcuts_enabled, window_title, InfektShell, ShellAction,
    ShellMessage,
};

#[test]
fn folder_shortcuts_are_disabled_behind_shell_overlays() {
    assert!(shortcuts_enabled(true, false, false));
    assert!(!shortcuts_enabled(false, false, false));
    assert!(!shortcuts_enabled(true, true, false));
    assert!(!shortcuts_enabled(true, false, true));
}

#[test]
fn folder_shortcuts_use_unmodified_non_repeated_lowercase_keys() {
    assert_eq!(
        browse_direction_for_key(Some("j"), true, false),
        Some(BrowseDirection::Next)
    );
    assert_eq!(
        browse_direction_for_key(Some("k"), true, false),
        Some(BrowseDirection::Previous)
    );
    assert_eq!(browse_direction_for_key(Some("J"), true, false), None);
    assert_eq!(browse_direction_for_key(Some("j"), false, false), None);
    assert_eq!(browse_direction_for_key(Some("j"), true, true), None);
}

#[test]
fn other_keys_do_not_browse() {
    assert_eq!(browse_direction_for_key(None, true, false), None);
    assert_eq!(browse_direction_for_key(Some("jk"), true, false), None);
    assert_eq!(browse_direction_for_key(Some(""), true, false), None);
    assert_eq!(browse_direction_for_key(Some("x"), true, false), None);
}

#[test]
fn window_title_names_the_loaded_file() {
    assert_eq!(window_title(false, None), "iNFekt NFO Viewer");
    assert_eq!(window_title(false, Some("ignored.nfo")), "iNFekt NFO Viewer");
    assert_eq!(
        window_title(true, Some("release.nfo")),
        "iNFekt NFO Viewer - release.nfo"
    );
    assert_eq!(window_title(true, None), "iNFekt NFO Viewer - ");
}

const MAIN: u64 = 1;

fn action_paths(action: ShellAction) -> Vec<String> {
    match action {
        ShellAction::TryInOrder(paths) => paths,
        _ => panic!("expected a list of files to try"),
    }
}

fn listing(shell: &InfektShell<u8>, names: &[&str]) -> ScanResult {
    ScanResult {
        directory: "/tmp/releases".to_owned(),
        generation: shell.folder_browser.scan_generation(),
        files: Ok(sort_in_scan_order(
            names.iter().map(|name| format!("/tmp/releases/{name}")).collect(),
        )),
    }
}

#[test]
fn shell_messages_update_session_state() {
    let mut shell: InfektShell<u8> = InfektShell::new("Cascadia Mono".to_owned());

    assert!(matches!(shell.update(ShellMessage::ToggleInspector), ShellAction::Nothing));
    assert!(!shell.presentation.inspector_open);

    let _ = shell.update(ShellMessage::ToggleOverflow);
    assert!(shell.presentation.overflow_open);

    assert!(matches!(shell.update(ShellMessage::ShowAbout), ShellAction::PresentAbout));
    assert!(shell.presentation.about_open);
    assert!(!shell.presentation.overflow_open);
    let _ = shell.update(ShellMessage::CloseAbout);
    assert!(!shell.presentation.about_open);

    assert!(matches!(shell.update(ShellMessage::ZoomIn), ShellAction::Rerender));
    assert_eq!(shell.presentation.zoom_percent, 110);
    assert!(matches!(shell.update(ShellMessage::ZoomOut), ShellAction::Rerender));
    assert_eq!(shell.presentation.zoom_percent, 100);

    assert!(matches!(
        shell.update(ShellMessage::Inspector(InspectorMessage::ThemeSelected(
            NfoThemePreset::CobaltPaper
        ))),
        ShellAction::Rerender
    ));
    assert_eq!(shell.presentation.selected_theme, NfoThemePreset::CobaltPaper);
    assert!(matches!(
        shell.update(ShellMessage::Inspector(InspectorMessage::LineWrappingChanged(true))),
        ShellAction::Nothing
    ));
    assert!(shell.presentation.line_wrapping);

    let mut view: InfektMainView<(), f32> = InfektMainView::new((), 0.0);
    view.update(ViewMessage::TabSelected(TabId::Classic));
    assert_eq!(view.active_tab(), TabId::Classic);
}

#[test]
fn hovering_a_file_closes_the_overflow_menu_and_drops_open_or_reject() {
    let mut shell: InfektShell<u8> = InfektShell::new("Cascadia Mono".to_owned());
    let _ = shell.update(ShellMessage::MainWindowCreated(Some(MAIN)));
    let _ = shell.update(ShellMessage::ToggleOverflow);

    let _ = shell.update(ShellMessage::FileDrop(MAIN, FileDropEvent::Hovered("a.nfo".to_owned())));
    assert!(!shell.presentation.overflow_open);
    assert_eq!(
        shell.file_drop.hover(),
        Some(FileDropHover::Single("a.nfo".to_owned()))
    );
    match shell.update(ShellMessage::FileDrop(MAIN, FileDropEvent::Dropped("a.nfo".to_owned()))) {
        ShellAction::Open(path) => assert_eq!(path, "a.nfo"),
        _ => panic!("a single dropped file opens"),
    }

    let _ = shell.update(ShellMessage::FileDrop(MAIN, FileDropEvent::Hovered("a.nfo".to_owned())));
    let _ = shell.update(ShellMessage::FileDrop(MAIN, FileDropEvent::Hovered("b.nfo".to_owned())));
    match shell.update(ShellMessage::FileDrop(MAIN, FileDropEvent::Dropped("a.nfo".to_owned()))) {
        ShellAction::ReportError(message) => {
            assert_eq!(message, "Please drop exactly one file at a time.")
        }
        _ => panic!("several dropped files are rejected"),
    }
    assert!(matches!(
        shell.update(ShellMessage::FileDrop(MAIN, FileDropEvent::Dropped("b.nfo".to_owned()))),
        ShellAction::Nothing
    ));
}

#[test]
fn folder_messages_drive_browsing() {
    let mut shell: InfektShell<u8> = InfektShell::new("Cascadia Mono".to_owned());
    let current = "/tmp/releases/two.nfo".to_owned();
    let first = match shell.update(ShellMessage::NfoLoaded(current.clone(), true)) {
        ShellAction::Shown(Some(request)) => request,
        _ => panic!("opening a file in a folder starts browsing it"),
    };

    match shell.update(ShellMessage::FolderChanged("/tmp/releases".to_owned())) {
        ShellAction::Scan(request) => {
            assert_eq!(request.directory, "/tmp/releases");
            assert_ne!(request.generation, first.generation);
        }
        _ => panic!("a change of the browsed folder asks for a listing"),
    }
    assert!(matches!(
        shell.update(ShellMessage::FolderChanged("/tmp/other".to_owned())),
        ShellAction::Nothing
    ));

    let result = listing(&shell, &["one.nfo", "two.nfo", "three.nfo"]);
    assert!(matches!(
        shell.update(ShellMessage::FolderScanReady(result, Some(current.clone()))),
        ShellAction::Nothing
    ));
    assert_eq!(
        action_paths(shell.update(ShellMessage::Browse(BrowseDirection::Next))),
        vec!["/tmp/releases/one.nfo", "/tmp/releases/three.nfo"]
    );

    let _ = shell.folder_browser.request_scan();
    let removed = listing(&shell, &["one.nfo", "three.nfo"]);
    assert_eq!(
        action_paths(shell.update(ShellMessage::FolderScanReady(removed, Some(current)))),
        vec!["/tmp/releases/three.nfo", "/tmp/releases/one.nfo"]
    );

    match shell.update(ShellMessage::FolderWatchFailed(
        "/tmp/releases".to_owned(),
        "gone".to_owned(),
    )) {
        ShellAction::ReportError(message) => assert_eq!(
            message,
            "Folder monitoring stopped for '/tmp/releases': gone"
        ),
        _ => panic!("a failed watch is reported"),
    }
    assert!(matches!(
        shell.update(ShellMessage::FolderWatchFailed(
            "/tmp/releases".to_owned(),
            "gone".to_owned()
        )),
        ShellAction::Nothing
    ));
}

#[test]
fn backdrop_results_go_to_the_backdrop() {
    let mut shell: InfektShell<u8> = InfektShell::new("Cascadia Mono".to_owned());
    let mut line = NfoRendererLine {
        row: 1,
        block_groups: Vec::new(),
        text_flights: Vec::new(),
        links: Vec::new(),
    };
    line.block_groups.push(NfoRendererBlockGroup {
        col: 1,
        blocks: vec![NfoRendererBlockShape::FullBlock],
    });
    let grid = NfoRendererGrid {
        width: 4,
        height: 4,
        lines: vec![line],
        has_blocks: true,
        id: 9,
    };
    let colour = Rgba8 {
        red: 1,
        green: 2,
        blue: 3,
        alpha: 255,
    };
    let job = shell
        .backdrop
        .request(
            Some(&grid),
            Rgb8 {
                red: 0,
                green: 0,
                blue: 0,
            },
            colour,
            colour,
            583,
        )
        .unwrap();

    let _ = shell.update(ShellMessage::BackdropReady(
        job.key(),
        job.generation(),
        Some(BackdropImage::new(job.key(), job.generation(), 7)),
    ));
    assert_eq!(shell.backdrop.current_handle(), Some(&7));
}

#[test]
fn file_drop_events_only_apply_to_the_main_window() {
    let mut shell: InfektShell<u8> = InfektShell::new("Cascadia Mono".to_owned());
    let main_window = 1;
    let other_window = 2;
    assert!(matches!(
        shell.update(ShellMessage::MainWindowCreated(Some(main_window))),
        ShellAction::Nothing
    ));

    let _ = shell.update(ShellMessage::FileDrop(
        other_window,
        FileDropEvent::Hovered("ignored.nfo".to_owned()),
    ));
    assert_eq!(shell.file_drop.hover(), None);

    let _ = shell.update(ShellMessage::FileDrop(
        main_window,
        FileDropEvent::Hovered("accepted.nfo".to_owned()),
    ));
    assert!(shell.file_drop.hover().is_some());

    let _ = shell.update(ShellMessage::FileDrop(other_window, FileDropEvent::Left));
    assert!(matches!(
        shell.update(ShellMessage::FileDrop(
            other_window,
            FileDropEvent::Dropped("ignored.nfo".to_owned()),
        )),
        ShellAction::Nothing
    ));
    assert!(shell.file_drop.hover().is_some());
}

#[test]
fn drops_before_the_main_window_exists_are_ignored() {
    let mut shell: InfektShell<u8> = InfektShell::new("Cascadia Mono".to_owned());
    let _ = shell.update(ShellMessage::ToggleOverflow);

    assert!(matches!(
        shell.update(ShellMessage::FileDrop(
            7,
            FileDropEvent::Dropped("release.nfo".to_owned())
        )),
        ShellAction::Nothing
    ));
    let _ = shell.update(ShellMessage::FileDrop(
        7,
        FileDropEvent::Hovered("release.nfo".to_owned()),
    ));
    assert!(shell.presentation.overflow_open);
    assert_eq!(shell.file_drop.hover(), None);
}

#[test]
fn loading_a_file_restarts_or_repositions_browsing() {
    let mut shell: InfektShell<u8> = InfektShell::new("Cascadia Mono".to_owned());
    let one = "/tmp/releases/one.nfo".to_owned();
    let two = "/tmp/releases/two.nfo".to_owned();

    let request = match shell.update(ShellMessage::NfoLoaded(one.clone(), true)) {
        ShellAction::Shown(Some(request)) => request,
        _ => panic!("opening a file starts browsing its folder"),
    };
    assert_eq!(request.directory, "/tmp/releases");
    let result = listing(&shell, &["one.nfo", "two.nfo"]);
    let _ = shell.update(ShellMessage::FolderScanReady(result, Some(one.clone())));
    assert_eq!(shell.folder_browser.position(), Some((1, 2)));

    assert!(matches!(
        shell.update(ShellMessage::NfoLoaded(two.clone(), false)),
        ShellAction::Shown(None)
    ));
    assert_eq!(shell.folder_browser.position(), Some((2, 2)));

    assert!(matches!(
        shell.update(ShellMessage::NfoLoaded("release.txt".to_owned(), true)),
        ShellAction::Shown(None)
    ));
    assert_eq!(shell.folder_browser.position(), None);
    assert_eq!(shell.folder_browser.watch_target(), None);
}

#[test]
fn loading_a_file_drops_the_backdrop_of_the_previous_one() {
    let mut shell: InfektShell<u8> = InfektShell::new("Cascadia Mono".to_owned());
    let grid = NfoRendererGrid {
        width: 4,
        height: 4,
        lines: Vec::new(),
        has_blocks: false,
        id: 3,
    };
    let colour = Rgba8 {
        red: 9,
        green: 9,
        blue: 9,
        alpha: 255,
    };
    let background = Rgb8 {
        red: 0,
        green: 0,
        blue: 0,
    };
    let job = shell
        .backdrop
        .request(Some(&grid), background, colour, colour, 583)
        .unwrap();
    let _ = shell.update(ShellMessage::BackdropReady(
        job.key(),
        job.generation(),
        Some(BackdropImage::new(job.key(), job.generation(), 1)),
    ));
    assert_eq!(shell.backdrop.current_handle(), Some(&1));

    let _ = shell.update(ShellMessage::NfoLoaded("/tmp/releases/one.nfo".to_owned(), false));
    assert_eq!(shell.backdrop.current_handle(), None);
    assert!(shell
        .backdrop
        .request(Some(&grid), background, colour, colour, 583)
        .is_some());
}

#[test]
fn inspector_changes_reach_the_renderer_settings() {
    let mut shell: InfektShell<u8> = InfektShell::new("Cascadia Mono".to_owned());
    assert_eq!(shell.renderer.glow_radius, 24);

    assert!(matches!(
        shell.update(ShellMessage::Inspector(InspectorMessage::GlowRadiusChanged(40))),
        ShellAction::Rerender
    ));
    assert_eq!(shell.renderer.glow_radius, 40);
    assert_eq!(shell.presentation.theme_toggles.glow_radius, 40);
    assert_eq!(shell.presentation.selected_theme, NfoThemePreset::Custom);

    let _ = shell.update(ShellMessage::Inspector(InspectorMessage::FontNameSelected(
        "Fira Mono".to_owned(),
    )));
    assert_eq!(shell.renderer.font_name, "Fira Mono");
    assert!(matches!(
        shell.update(ShellMessage::Inspector(InspectorMessage::FontNamesLoaded(vec![
            "Fira Mono".to_owned()
        ]))),
        ShellAction::Nothing
    ));
    assert_eq!(shell.inspector.all_font_names, vec!["Fira Mono".to_owned()]);
}
