//! The application shell: its keyboard shortcuts, the window title, and
//! the handling of every message that changes the session state.

use vstd::prelude::*;

use crate::file_drop::{
    handled, DropOutcomeView, DropPhase, FileDropEvent, FileDropOutcome, FileDropState,
};
use crate::folder_browser::{
    applied_scan, browsable_folder, browse_candidates, cleared, in_folder, law_browsing_directions_are_opposite, spec_is_active, started_in, with_current, listing_view, reports_watch_failure, next_generation, replacement_candidates,
    BrowseDirection, FolderBrowser, FolderBrowserView, ScanRequest, ScanResult, ScanUpdate,
    ScanUpdateView,
};
use crate::nfo_backdrop::{state_after_clear, state_after_result, BackdropImage, BackdropKey, BackdropState, NfoBackdrop};
use crate::presentation::{
    font_names_after_inspector, presentation_only, spec_zoom_in, spec_zoom_out,
    state_after_inspector, InspectorMessage, PresentationInspector, RendererChoices,
    RendererChoicesView,
    InspectorUpdate, PresentationState,
};

verus! {

/// Folder-browsing shortcuts are live only while browsing is possible and
/// no shell overlay (About dialog, overflow menu) is open.
pub fn shortcuts_enabled(browser_active: bool, about_open: bool, overflow_open: bool) -> (enabled: bool)
    ensures
        enabled == (browser_active && !about_open && !overflow_open),
{
    browser_active && !about_open && !overflow_open
}

/// The browsing step a key press asks for: `j` steps to the next file and
/// `k` to the previous one, but only as a first press without modifiers.
/// `key` is the text the key produced, or `None` for a key without text.
pub fn browse_direction_for_key(key: Option<&str>, no_modifiers: bool, repeat: bool) -> (direction:
    Option<BrowseDirection>)
    ensures
        direction == (if repeat || !no_modifiers {
            None
        } else {
            match key {
                Some(text) => if text@ == seq!['j'] {
                    Some(BrowseDirection::Next)
                } else if text@ == seq!['k'] {
                    Some(BrowseDirection::Previous)
                } else {
                    None
                },
                None => None,
            }
        }),
{
    if repeat || !no_modifiers {
        return None;
    }
    let text = match key {
        Some(text) => text,
        None => return None,
    };
    if text.unicode_len() != 1 {
        proof {
            assert(text@ != seq!['j']);
            assert(text@ != seq!['k']);
        }
        return None;
    }
    let character = text.get_char(0);
    if character == 'j' {
        assert(text@ =~= seq!['j']);
        Some(BrowseDirection::Next)
    } else if character == 'k' {
        assert(text@ =~= seq!['k']);
        Some(BrowseDirection::Previous)
    } else {
        proof {
            assert(text@ != seq!['j']) by {
                if text@ == seq!['j'] {
                    assert(text@[0] == 'j');
                }
            }
            assert(text@ != seq!['k']) by {
                if text@ == seq!['k'] {
                    assert(text@[0] == 'k');
                }
            }
        }
        None
    }
}

/// The title of the main window: the application name, followed by the
/// name of the loaded file when one is loaded (an empty name when the file
/// has none).
pub fn window_title(loaded: bool, file_name: Option<&str>) -> (title: String)
    ensures
        title@ == (if loaded {
            "iNFekt NFO Viewer - "@ + match file_name {
                Some(name) => name@,
                None => Seq::empty(),
            }
        } else {
            "iNFekt NFO Viewer"@
        }),
{
    if !loaded {
        return "iNFekt NFO Viewer".to_owned();
    }
    let mut title = "iNFekt NFO Viewer - ".to_owned();
    match file_name {
        Some(name) => title.append(name),
        None => {
            assert(title@ + Seq::<char>::empty() =~= title@);
        },
    }
    title
}

// ---------------------------------------------------------------------------
// The application shell
// ---------------------------------------------------------------------------

/// The message shown when several files are dropped at once.
pub open spec fn multiple_drop_message() -> Seq<char> {
    "Please drop exactly one file at a time."@
}

/// The message shown when watching `directory` failed with `error`.
pub open spec fn watch_failed_message(directory: Seq<char>, error: Seq<char>) -> Seq<char> {
    "Folder monitoring stopped for '"@ + directory + "': "@ + error
}

/// What the shell asks the application to do after a message.
pub enum ShellAction {
    /// Nothing further.
    Nothing,
    /// The renderer settings changed: rebuild them and ask for a backdrop.
    Rerender,
    /// The About dialog opens.
    PresentAbout,
    /// Load this file, as a newly opened one.
    Open(String),
    /// Load the first of these files that loads, as a browsed one.
    TryInOrder(Vec<String>),
    /// List this folder.
    Scan(ScanRequest),
    /// A file is shown now: ask for its backdrop, put every tab back at its
    /// start, and list the folder if a request comes with it.
    Shown(Option<ScanRequest>),
    /// Show this error.
    ReportError(String),
}

/// The text of a `ShellAction`; a scan is its folder and generation.
pub enum ShellActionView {
    Nothing,
    Rerender,
    PresentAbout,
    Open(Seq<char>),
    TryInOrder(Seq<Seq<char>>),
    Scan(Seq<char>, u64),
    Shown(Option<(Seq<char>, u64)>),
    ReportError(Seq<char>),
}

impl View for ShellAction {
    type V = ShellActionView;

    open spec fn view(&self) -> ShellActionView {
        match self {
            ShellAction::Nothing => ShellActionView::Nothing,
            ShellAction::Rerender => ShellActionView::Rerender,
            ShellAction::PresentAbout => ShellActionView::PresentAbout,
            ShellAction::Open(path) => ShellActionView::Open(path@),
            ShellAction::TryInOrder(paths) => ShellActionView::TryInOrder(
                crate::natural_order::views(paths@),
            ),
            ShellAction::Scan(request) => ShellActionView::Scan(request.directory@, request.generation),
            ShellAction::Shown(request) => ShellActionView::Shown(
                match request {
                    Some(r) => Some((r.directory@, r.generation)),
                    None => None,
                },
            ),
            ShellAction::ReportError(message) => ShellActionView::ReportError(message@),
        }
    }
}

/// A message to the application shell. Scroll offsets and renderer settings
/// are handled around it. Windows are named by plain identifiers.
pub enum ShellMessage<H> {
    /// The main window was created, with this identifier (if the window
    /// system gave one).
    MainWindowCreated(Option<u64>),
    ToggleInspector,
    ToggleOverflow,
    ShowAbout,
    CloseAbout,
    ZoomIn,
    ZoomOut,
    Inspector(InspectorMessage),
    /// This file was loaded and is shown now; `true` when it was opened
    /// anew (browsing then starts in its folder), `false` when browsed to.
    NfoLoaded(String, bool),
    /// A drag-and-drop event on the window with this identifier.
    FileDrop(u64, FileDropEvent),
    Browse(BrowseDirection),
    /// The watched folder changed.
    FolderChanged(String),
    /// Watching the folder failed, with this error.
    FolderWatchFailed(String, String),
    /// A listing arrived; the path of the file shown, if any, goes with it.
    FolderScanReady(ScanResult, Option<String>),
    BackdropReady(BackdropKey, u64, Option<BackdropImage<H>>),
}

/// What the shell holds.
pub struct ShellView<H> {
    pub main_window: Option<u64>,
    pub presentation: PresentationState,
    pub renderer: RendererChoicesView,
    pub font_names: Seq<Seq<char>>,
    pub file_drop: DropPhase,
    pub folder_browser: FolderBrowserView,
    pub backdrop: BackdropState<H>,
}

/// The session state of the application shell: the main window,
/// presentation, the renderer settings it edits, the inspector's font list,
/// the drag-and-drop gesture, folder browsing and the backdrop.
pub struct InfektShell<H> {
    pub main_window: Option<u64>,
    pub presentation: PresentationState,
    pub renderer: RendererChoices,
    pub inspector: PresentationInspector,
    pub file_drop: FileDropState,
    pub folder_browser: FolderBrowser,
    pub backdrop: NfoBackdrop<H>,
}

impl<H> View for InfektShell<H> {
    type V = ShellView<H>;

    open spec fn view(&self) -> ShellView<H> {
        ShellView {
            main_window: self.main_window,
            presentation: self.presentation,
            renderer: self.renderer@,
            font_names: crate::natural_order::views(self.inspector.all_font_names@),
            file_drop: self.file_drop@,
            folder_browser: self.folder_browser@,
            backdrop: self.backdrop@,
        }
    }
}

/// The action for the outcome of a drag-and-drop event.
pub open spec fn drop_action(outcome: DropOutcomeView) -> ShellActionView {
    match outcome {
        DropOutcomeView::Nothing => ShellActionView::Nothing,
        DropOutcomeView::Open(path) => ShellActionView::Open(path),
        DropOutcomeView::RejectMultiple => ShellActionView::ReportError(multiple_drop_message()),
    }
}

/// The shell after a message, and the action it asks for.
pub open spec fn shell_after<H>(state: ShellView<H>, message: ShellMessage<H>) -> (ShellView<H>, ShellActionView) {
    let p = state.presentation;
    match message {
        ShellMessage::ToggleInspector => (
            ShellView {
                presentation: PresentationState { inspector_open: !p.inspector_open, overflow_open: false, ..p },
                ..state
            },
            ShellActionView::Nothing,
        ),
        ShellMessage::ToggleOverflow => (
            ShellView { presentation: PresentationState { overflow_open: !p.overflow_open, ..p }, ..state },
            ShellActionView::Nothing,
        ),
        ShellMessage::ShowAbout => (
            ShellView {
                presentation: PresentationState { about_open: true, overflow_open: false, ..p },
                ..state
            },
            ShellActionView::PresentAbout,
        ),
        ShellMessage::CloseAbout => (
            ShellView { presentation: PresentationState { about_open: false, ..p }, ..state },
            ShellActionView::Nothing,
        ),
        ShellMessage::ZoomIn => (
            ShellView {
                presentation: PresentationState {
                    zoom_percent: spec_zoom_in(p.zoom_percent as int) as u16,
                    ..p
                },
                ..state
            },
            ShellActionView::Rerender,
        ),
        ShellMessage::ZoomOut => (
            ShellView {
                presentation: PresentationState {
                    zoom_percent: spec_zoom_out(p.zoom_percent as int) as u16,
                    ..p
                },
                ..state
            },
            ShellActionView::Rerender,
        ),
        ShellMessage::Inspector(change) => (
            ShellView {
                presentation: state_after_inspector(p, state.renderer, change).0,
                renderer: state_after_inspector(p, state.renderer, change).1,
                font_names: font_names_after_inspector(state.font_names, change),
                ..state
            },
            if presentation_only(change) {
                ShellActionView::Nothing
            } else {
                ShellActionView::Rerender
            },
        ),
        ShellMessage::MainWindowCreated(window) => (
            ShellView { main_window: window, ..state },
            ShellActionView::Nothing,
        ),
        ShellMessage::NfoLoaded(path, restart) => {
            let shown = ShellView { backdrop: state_after_clear(state.backdrop), ..state };
            let b = state.folder_browser;
            if !restart {
                (
                    ShellView { folder_browser: with_current(b, path@), ..shown },
                    ShellActionView::Shown(None),
                )
            } else {
                match browsable_folder(path@) {
                    None => (
                        ShellView { folder_browser: cleared(b), ..shown },
                        ShellActionView::Shown(None),
                    ),
                    Some(directory) => {
                        let started = started_in(b, directory, path@);
                        let generation = next_generation(started.scan_generation);
                        (
                            ShellView {
                                folder_browser: FolderBrowserView { scan_generation: generation, ..started },
                                ..shown
                            },
                            ShellActionView::Shown(Some((directory, generation))),
                        )
                    },
                }
            }
        },
        ShellMessage::FileDrop(window, event) => if state.main_window != Some(window) {
            (state, ShellActionView::Nothing)
        } else {
            let (phase, outcome) = handled(state.file_drop, event@);
            (
                ShellView {
                    presentation: if event@ is Hovered {
                        PresentationState { overflow_open: false, ..p }
                    } else {
                        p
                    },
                    file_drop: phase,
                    ..state
                },
                drop_action(outcome),
            )
        },
        ShellMessage::Browse(direction) => (
            state,
            ShellActionView::TryInOrder(browse_candidates(state.folder_browser, direction)),
        ),
        ShellMessage::FolderChanged(folder) => {
            let b = state.folder_browser;
            if in_folder(b, folder@) {
                let generation = next_generation(b.scan_generation);
                (
                    ShellView { folder_browser: FolderBrowserView { scan_generation: generation, ..b }, ..state },
                    ShellActionView::Scan(b.directory->0, generation),
                )
            } else {
                (state, ShellActionView::Nothing)
            }
        },
        ShellMessage::FolderWatchFailed(folder, error) => {
            let b = state.folder_browser;
            if reports_watch_failure(b, folder@) {
                (
                    ShellView { folder_browser: FolderBrowserView { watch_failed: true, ..b }, ..state },
                    ShellActionView::ReportError(watch_failed_message(folder@, error@)),
                )
            } else {
                (state, ShellActionView::Nothing)
            }
        },
        ShellMessage::FolderScanReady(result, current) => {
            let (browser, update) = applied_scan(
                state.folder_browser,
                result.directory@,
                result.generation,
                listing_view(result.files),
                match current {
                    Some(path) => Some(path@),
                    None => None,
                },
            );
            (
                ShellView { folder_browser: browser, ..state },
                match update {
                    ScanUpdateView::LoadNearest(path) => ShellActionView::TryInOrder(
                        replacement_candidates(browser, path),
                    ),
                    ScanUpdateView::Failed(error) => ShellActionView::ReportError(error),
                    _ => ShellActionView::Nothing,
                },
            )
        },
        ShellMessage::BackdropReady(key, generation, image) => (
            ShellView { backdrop: state_after_result(state.backdrop, key, generation, image), ..state },
            ShellActionView::Nothing,
        ),
    }
}

impl<H> InfektShell<H> {
    /// A fresh session: default presentation, the renderer set to the
    /// default theme's values and to `font_name`, no font list, no window,
    /// no gesture, no folder, no backdrop.
    pub fn new(font_name: String) -> (shell: Self)
        ensures
            shell@.main_window is None,
            shell.presentation == PresentationState::spec_new(),
            shell@.renderer == (RendererChoicesView {
                font_name: font_name@,
                glow_enabled: true,
                glow_radius: 24,
                hyperlink_underline: true,
            }),
            shell@.font_names.len() == 0,
            shell@.file_drop is Idle,
            shell@.folder_browser.directory is None,
            shell@.backdrop.requested_key is None,
            shell@.backdrop.image is None,
    {
        let shell = InfektShell {
            main_window: None,
            presentation: PresentationState::new(),
            renderer: RendererChoices {
                font_name,
                glow_enabled: true,
                glow_radius: 24,
                hyperlink_underline: true,
            },
            inspector: PresentationInspector::new(),
            file_drop: FileDropState::default(),
            folder_browser: FolderBrowser::default(),
            backdrop: NfoBackdrop::new(),
        };
        assert(crate::natural_order::views(shell.inspector.all_font_names@) =~= Seq::<Seq<char>>::empty());
        shell
    }

    /// Handles one message of the application shell and says what the
    /// application has to do next.
    pub fn update(&mut self, message: ShellMessage<H>) -> (action: ShellAction)
        ensures
            (final(self)@, action@) == shell_after(old(self)@, message),
    {
        match message {
            ShellMessage::ToggleInspector => {
                self.presentation.toggle_inspector();
                ShellAction::Nothing
            },
            ShellMessage::ToggleOverflow => {
                self.presentation.toggle_overflow();
                ShellAction::Nothing
            },
            ShellMessage::ShowAbout => {
                self.presentation.show_about();
                ShellAction::PresentAbout
            },
            ShellMessage::CloseAbout => {
                self.presentation.close_about();
                ShellAction::Nothing
            },
            ShellMessage::ZoomIn => {
                self.presentation.zoom_in();
                ShellAction::Rerender
            },
            ShellMessage::ZoomOut => {
                self.presentation.zoom_out();
                ShellAction::Rerender
            },
            ShellMessage::Inspector(change) => {
                match self.inspector.update(change, &mut self.presentation, &mut self.renderer) {
                    InspectorUpdate::PresentationOnly => ShellAction::Nothing,
                    InspectorUpdate::RenderSettingsChanged => ShellAction::Rerender,
                }
            },
            ShellMessage::MainWindowCreated(window) => {
                self.main_window = window;
                ShellAction::Nothing
            },
            ShellMessage::NfoLoaded(path, restart) => {
                self.backdrop.invalidate_source();
                if restart {
                    ShellAction::Shown(self.folder_browser.begin_for_file(path.as_str()))
                } else {
                    self.folder_browser.set_current_path(path.as_str());
                    ShellAction::Shown(None)
                }
            },
            ShellMessage::FileDrop(window, event) => {
                let from_main = match self.main_window {
                    Some(main) => main == window,
                    None => false,
                };
                if !from_main {
                    return ShellAction::Nothing;
                }
                let hovered = match &event {
                    FileDropEvent::Hovered(_) => true,
                    _ => false,
                };
                if hovered {
                    self.presentation.file_hovered();
                }
                match self.file_drop.handle(event) {
                    FileDropOutcome::Nothing => ShellAction::Nothing,
                    FileDropOutcome::Open(path) => ShellAction::Open(path),
                    FileDropOutcome::RejectMultiple => ShellAction::ReportError(
                        "Please drop exactly one file at a time.".to_owned(),
                    ),
                }
            },
            ShellMessage::Browse(direction) => {
                ShellAction::TryInOrder(self.folder_browser.paths_in_direction(direction))
            },
            ShellMessage::FolderChanged(folder) => {
                match self.folder_browser.request_scan_for(folder.as_str()) {
                    Some(request) => ShellAction::Scan(request),
                    None => ShellAction::Nothing,
                }
            },
            ShellMessage::FolderWatchFailed(folder, error) => {
                if self.folder_browser.mark_watch_failed(folder.as_str()) {
                    let mut message = "Folder monitoring stopped for '".to_owned();
                    message.append(folder.as_str());
                    message.append("': ");
                    message.append(error.as_str());
                    ShellAction::ReportError(message)
                } else {
                    ShellAction::Nothing
                }
            },
            ShellMessage::FolderScanReady(result, current) => {
                let current_path = match &current {
                    Some(path) => Some(path.as_str()),
                    None => None,
                };
                match self.folder_browser.apply_scan(result, current_path) {
                    ScanUpdate::LoadNearest(path) => ShellAction::TryInOrder(
                        self.folder_browser.replacement_paths(path.as_str()),
                    ),
                    ScanUpdate::Failed(error) => ShellAction::ReportError(error),
                    ScanUpdate::Ignored => ShellAction::Nothing,
                    ScanUpdate::Updated => ShellAction::Nothing,
                }
            },
            ShellMessage::BackdropReady(key, generation, image) => {
                self.backdrop.accept_result(key, generation, image);
                ShellAction::Nothing
            },
        }
    }
}

/// A drag-and-drop event on any window but the main one is ignored: the
/// shell stays as it was and nothing is done.
pub proof fn law_drops_on_other_windows_are_ignored<H>(
    state: ShellView<H>,
    window: u64,
    event: FileDropEvent,
)
    requires
        state.main_window != Some(window),
    ensures
        shell_after(state, ShellMessage::FileDrop(window, event)) == (state, ShellActionView::Nothing),
{
}

/// The browse shortcut offers the files in the direction asked for: going
/// back offers the file before the current one first, going forward the
/// file after it, and the two offers are each other's reverse. The shell
/// itself does not change.
pub proof fn law_browse_follows_the_direction<H>(state: ShellView<H>)
    requires
        spec_is_active(state.folder_browser),
        0 <= state.folder_browser.current_index->0 < state.folder_browser.files.len(),
    ensures
        ({
            let b = state.folder_browser;
            let count = b.files.len() as int;
            let current = b.current_index->0;
            let (after_back, back) = shell_after(state, ShellMessage::Browse(BrowseDirection::Previous));
            let (after_forward, forward) = shell_after(state, ShellMessage::Browse(BrowseDirection::Next));
            &&& after_back == state
            &&& after_forward == state
            &&& back matches ShellActionView::TryInOrder(back_files)
            &&& forward matches ShellActionView::TryInOrder(forward_files)
            &&& back_files == forward_files.reverse()
            &&& back_files[0] == b.files[if current == 0 { count - 1 } else { current - 1 }]
            &&& forward_files[0] == b.files[if current == count - 1 { 0 } else { current + 1 }]
        }),
{
    law_browsing_directions_are_opposite(state.folder_browser);
}

} // verus!
