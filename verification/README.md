# infekt

The verified core of the iNFekt NFO viewer, written in Verus.

`src/` holds the library. Its functions are proved against their contracts,
except four small wrappers in `path_model` whose contracts are trusted: they
call `std::path::Path` (`file_name`, `parent`, equality) and `str::to_lowercase`.

- `folder_browser` — browsing the NFO files next to the current one: scan
  requests and their generations, applying a listing, the nearest file when
  the current one disappears, the order of browsing in either direction.
- `natural_order` — natural, case-insensitive ordering of file names and the
  folder-listing order built on it, with its laws (a total order).
- `path_model` — what the library needs of paths (`std::path`), the path
  extension and the NFO extension test.
- `file_drop` — the drag-and-drop gesture: one file opens, several are
  rejected once.
- `presentation` — zoom levels, theme selection and what an inspector change
  does to the presentation state and the renderer settings.
- `main_view` — the tabs of the main view and their scroll offsets.
- `renderer_grid`, `nfo_backdrop` — the laid-out NFO grid, the part of it an
  ambient backdrop shows, and the bookkeeping that keeps stale backdrops out.
- `fonts` — the font names offered to the user.
- `shell` — keyboard shortcuts, the window title, and the step that handles
  each message of the application and names the action that follows.

`app/` holds ordinary Rust around the library: listing and watching folders,
querying system fonts, and the floating-point work (colours, layout, backdrop
pixels). `tests/` runs the library on concrete values.
