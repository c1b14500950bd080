//! Verified core of the iNFekt NFO viewer: folder browsing and natural file
//! ordering, drag-and-drop, presentation and main-view state, the shell's
//! message handling, the offered fonts, and the choice and bookkeeping of
//! the ambient NFO backdrop.

pub mod file_drop;
pub mod folder_browser;
pub mod fonts;
pub mod main_view;
pub mod natural_order;
pub mod nfo_backdrop;
pub mod path_model;
pub mod presentation;
pub mod renderer_grid;
pub mod shell;
