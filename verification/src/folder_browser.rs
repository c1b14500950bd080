//! Browsing the NFO files of the folder that holds the current file.

use vstd::prelude::*;
use vstd::arithmetic::div_mod::{lemma_mod_add_multiples_vanish, lemma_mod_sub_multiples_vanish, lemma_small_mod};

use crate::natural_order::{sort_in_scan_order, sorted_in_scan_order, views};
use crate::path_model::{
    is_nfo_path, path_parent, same_path, spec_is_nfo_path, spec_path_parent, paths_match,
};

verus! {

/// The direction of a browsing step.
#[derive(Debug, Clone, Copy, PartialEq, Eq, Structural)]
pub enum BrowseDirection {
    Previous,
    Next,
}

/// A request to list a folder, tagged with the scan generation that asked for it.
#[derive(Debug)]
pub struct ScanRequest {
    pub directory: String,
    pub generation: u64,
}

/// The listing of a folder: the NFO files in folder-listing order, or the
/// reason the folder could not be listed.
#[derive(Debug)]
pub struct ScanResult {
    pub directory: String,
    pub generation: u64,
    pub files: Result<Vec<String>, String>,
}

/// The text of a listing.
pub open spec fn listing_view(files: Result<Vec<String>, String>) -> Result<Seq<Seq<char>>, Seq<char>> {
    match files {
        Ok(files) => Ok(views(files@)),
        Err(error) => Err(error@),
    }
}

/// The entries of a listing that name NFO files, in listing order.
pub open spec fn nfo_entries(entries: Seq<Seq<char>>) -> Seq<Seq<char>> {
    entries.filter(|path: Seq<char>| spec_is_nfo_path(path))
}

impl ScanRequest {
    /// Completes the request with the files found in the folder (or the
    /// error that listing it gave): keeps the NFO files and sorts them
    /// into folder-listing order.
    pub fn run(self, entries: Result<Vec<String>, String>) -> (result: ScanResult)
        ensures
            result.directory@ == self.directory@,
            result.generation == self.generation,
            match (entries, result.files) {
                (Err(error), Err(reported)) => reported@ == error@,
                (Ok(entries), Ok(files)) => {
                    &&& views(files@).to_multiset() == nfo_entries(views(entries@)).to_multiset()
                    &&& sorted_in_scan_order(views(files@))
                },
                _ => false,
            },
    {
        let files = match entries {
            Err(error) => Err(error),
            Ok(entries) => {
                let nfo_files = keep_nfo_paths(&entries);
                Ok(sort_in_scan_order(nfo_files))
            },
        };
        ScanResult { directory: self.directory, generation: self.generation, files }
    }
}

/// The entries of a listing that name NFO files, in listing order.
fn keep_nfo_paths(entries: &Vec<String>) -> (kept: Vec<String>)
    ensures
        views(kept@) == nfo_entries(views(entries@)),
{
    let mut kept: Vec<String> = Vec::new();
    let mut i: usize = 0;
    proof {
        reveal_with_fuel(Seq::filter, 1);
        assert(views(entries@).take(0) =~= Seq::<Seq<char>>::empty());
        assert(views(kept@) =~= nfo_entries(views(entries@).take(0)));
    }
    while i < entries.len()
        invariant
            i <= entries.len(),
            views(kept@) == nfo_entries(views(entries@).take(i as int)),
        decreases entries.len() - i,
    {
        let ghost before = views(entries@).take(i as int);
        let ghost after = views(entries@).take(i + 1);
        proof {
            reveal_with_fuel(Seq::filter, 1);
            assert(after.drop_last() =~= before);
            assert(after.last() == entries@[i as int]@);
        }
        if is_nfo_path(entries[i].as_str()) {
            kept.push(entries[i].clone());
            assert(views(kept@) =~= nfo_entries(before).push(entries@[i as int]@));
        }
        i += 1;
    }
    assert(views(entries@).take(entries.len() as int) =~= views(entries@));
    kept
}

/// What applying a scan result did.
#[derive(Debug, PartialEq, Eq)]
pub enum ScanUpdate {
    /// The result belonged to an older request or another folder.
    Ignored,
    /// The listing replaced the previous one.
    Updated,
    /// The current file disappeared; this is the nearest remaining file.
    LoadNearest(String),
    /// The folder could not be listed.
    Failed(String),
}

/// The text of a `ScanUpdate`.
pub enum ScanUpdateView {
    Ignored,
    Updated,
    LoadNearest(Seq<char>),
    Failed(Seq<char>),
}

impl View for ScanUpdate {
    type V = ScanUpdateView;

    open spec fn view(&self) -> ScanUpdateView {
        match self {
            ScanUpdate::Ignored => ScanUpdateView::Ignored,
            ScanUpdate::Updated => ScanUpdateView::Updated,
            ScanUpdate::LoadNearest(path) => ScanUpdateView::LoadNearest(path@),
            ScanUpdate::Failed(error) => ScanUpdateView::Failed(error@),
        }
    }
}

/// The abstract state of a folder browser.
pub struct FolderBrowserView {
    /// The folder being browsed.
    pub directory: Option<Seq<char>>,
    /// The NFO files of that folder, in folder-listing order.
    pub files: Seq<Seq<char>>,
    /// The position of the current file among `files`, if it is one of them.
    pub current_index: Option<int>,
    /// The last known position of the current file; survives its removal.
    pub anchor_index: int,
    pub scan_generation: u64,
    pub watch_generation: u64,
    pub watch_failed: bool,
}

/// Browses the NFO files next to the current file, in folder-listing order.
#[derive(Debug)]
pub struct FolderBrowser {
    directory: Option<String>,
    files: Vec<String>,
    current_index: Option<usize>,
    anchor_index: usize,
    scan_generation: u64,
    watch_generation: u64,
    watch_failed: bool,
}

/// `generation + 1`, wrapping around.
pub open spec fn next_generation(generation: u64) -> u64 {
    if generation == u64::MAX { 0 } else { (generation + 1) as u64 }
}

pub(crate) fn advance(generation: u64) -> (next: u64)
    ensures
        next == next_generation(generation),
{
    if generation == u64::MAX { 0 } else { generation + 1 }
}

/// The first position of `path` in `files`.
pub open spec fn position_in(files: Seq<Seq<char>>, path: Seq<char>) -> Option<int>
    decreases files.len(),
{
    if files.len() == 0 {
        None
    } else if paths_match(files[0], path) {
        Some(0)
    } else {
        match position_in(files.drop_first(), path) {
            Some(i) => Some(i + 1),
            None => None,
        }
    }
}

pub proof fn lemma_position_in(files: Seq<Seq<char>>, path: Seq<char>)
    ensures
        match position_in(files, path) {
            Some(i) => 0 <= i < files.len() && paths_match(files[i], path) && forall|j: int|
                0 <= j < i ==> !paths_match(#[trigger] files[j], path),
            None => forall|j: int| 0 <= j < files.len() ==> !paths_match(#[trigger] files[j], path),
        },
    decreases files.len(),
{
    if files.len() > 0 && !paths_match(files[0], path) {
        lemma_position_in(files.drop_first(), path);
        assert forall|j: int| 0 < j < files.len() implies files[j] == files.drop_first()[j - 1] by {}
    }
}

/// The browser is in a folder that `std::path::Path` takes to be `directory`.
pub open spec fn in_folder(v: FolderBrowserView, directory: Seq<char>) -> bool {
    match v.directory {
        Some(current) => paths_match(current, directory),
        None => false,
    }
}

/// The state after `clear`.
pub open spec fn cleared(v: FolderBrowserView) -> FolderBrowserView {
    FolderBrowserView {
        directory: None,
        files: Seq::empty(),
        current_index: None,
        anchor_index: 0,
        scan_generation: next_generation(v.scan_generation),
        watch_generation: next_generation(v.watch_generation),
        watch_failed: false,
    }
}

/// The state after `set_current_path(path)`.
pub open spec fn with_current(v: FolderBrowserView, path: Seq<char>) -> FolderBrowserView {
    let index = position_in(v.files, path);
    FolderBrowserView {
        current_index: index,
        anchor_index: match index {
            Some(i) => i,
            None => v.anchor_index,
        },
        ..v
    }
}

/// The state after `begin_for_file(path)` when `path` is an NFO file in `directory`,
/// before the scan is requested.
pub open spec fn started_in(v: FolderBrowserView, directory: Seq<char>, path: Seq<char>) -> FolderBrowserView {
    let kept = if in_folder(v, directory) {
        v
    } else {
        FolderBrowserView { files: Seq::empty(), current_index: None, anchor_index: 0, ..v }
    };
    with_current(
        FolderBrowserView {
            directory: Some(directory),
            watch_failed: false,
            watch_generation: next_generation(v.watch_generation),
            ..kept
        },
        path,
    )
}

/// The folder `begin_for_file` browses for `path`: its non-empty parent, if it is an NFO file.
pub open spec fn browsable_folder(path: Seq<char>) -> Option<Seq<char>> {
    if spec_is_nfo_path(path) {
        match spec_path_parent(path) {
            Some(parent) => if parent.len() > 0 { Some(parent) } else { None },
            None => None,
        }
    } else {
        None
    }
}

/// The index `offset` steps away from `current` in `direction`, wrapping around.
pub open spec fn browse_index(current: int, offset: int, count: int, direction: BrowseDirection) -> int {
    match direction {
        BrowseDirection::Previous => (current - offset) % count,
        BrowseDirection::Next => (current + offset) % count,
    }
}

/// The other files in the order a run of steps in `direction` reaches them
/// from the current file; none unless browsing is active.
pub open spec fn browse_candidates(v: FolderBrowserView, direction: BrowseDirection) -> Seq<Seq<char>> {
    if !spec_is_active(v) {
        Seq::empty()
    } else {
        let count = v.files.len() as int;
        Seq::new(
            (count - 1) as nat,
            |k: int| v.files[browse_index(v.current_index->0, k + 1, count, direction)],
        )
    }
}

/// The files starting at `first` and going once around; none if `first` is
/// not one of them.
pub open spec fn replacement_candidates(v: FolderBrowserView, first: Seq<char>) -> Seq<Seq<char>> {
    match position_in(v.files, first) {
        None => Seq::empty(),
        Some(start) => {
            let count = v.files.len() as int;
            Seq::new(count as nat, |k: int| v.files[(start + k) % count])
        },
    }
}

/// A watch failure of `directory` is news: it is the browsed folder and no
/// failure was reported for it yet.
pub open spec fn reports_watch_failure(v: FolderBrowserView, directory: Seq<char>) -> bool {
    in_folder(v, directory) && !v.watch_failed
}

/// Whether the browser can move between files: at least two files and a current one.
pub open spec fn spec_is_active(v: FolderBrowserView) -> bool {
    v.files.len() > 1 && v.current_index is Some
}

/// The position the browser returns to when the current file is gone.
pub open spec fn nearest_index(v: FolderBrowserView, count: int) -> int {
    if v.anchor_index < count - 1 { v.anchor_index } else { count - 1 }
}

/// The state and outcome of applying a listing of `directory` made for `generation`.
pub open spec fn applied_scan(
    v: FolderBrowserView,
    directory: Seq<char>,
    generation: u64,
    files: Result<Seq<Seq<char>>, Seq<char>>,
    current: Option<Seq<char>>,
) -> (FolderBrowserView, ScanUpdateView) {
    if !in_folder(v, directory) || v.scan_generation != generation {
        (v, ScanUpdateView::Ignored)
    } else {
        match files {
            Err(error) => (
                FolderBrowserView { files: Seq::empty(), current_index: None, watch_failed: true, ..v },
                ScanUpdateView::Failed(error),
            ),
            Ok(files) => {
                let found = match current {
                    Some(path) => position_in(files, path),
                    None => None,
                };
                match found {
                    Some(i) => (
                        FolderBrowserView { files, current_index: Some(i), anchor_index: i, ..v },
                        ScanUpdateView::Updated,
                    ),
                    None => {
                        let updated = FolderBrowserView { files, current_index: None, ..v };
                        if files.len() == 0 {
                            (updated, ScanUpdateView::Updated)
                        } else {
                            (updated, ScanUpdateView::LoadNearest(files[nearest_index(v, files.len() as int)]))
                        }
                    },
                }
            },
        }
    }
}

impl View for FolderBrowser {
    type V = FolderBrowserView;

    closed spec fn view(&self) -> FolderBrowserView {
        FolderBrowserView {
            directory: match self.directory {
                Some(directory) => Some(directory@),
                None => None,
            },
            files: views(self.files@),
            current_index: match self.current_index {
                Some(i) => Some(i as int),
                None => None,
            },
            anchor_index: self.anchor_index as int,
            scan_generation: self.scan_generation,
            watch_generation: self.watch_generation,
            watch_failed: self.watch_failed,
        }
    }
}

/// The position of `target` among `files`, if it is there.
fn find_position(files: &Vec<String>, target: &String) -> (found: Option<usize>)
    ensures
        match found {
            Some(i) => position_in(views(files@), target@) == Some(i as int),
            None => position_in(views(files@), target@) is None,
        },
{
    proof {
        lemma_position_in(views(files@), target@);
    }
    let mut i: usize = 0;
    while i < files.len()
        invariant
            i <= files.len(),
            forall|j: int| 0 <= j < i ==> !paths_match(#[trigger] views(files@)[j], target@),
        decreases files.len() - i,
    {
        let same = same_path(files[i].as_str(), target.as_str());
        assert(views(files@)[i as int] == files@[i as int]@);
        if same {
            proof {
                lemma_position_in(views(files@), target@);
                match position_in(views(files@), target@) {
                    Some(p) => {
                        if p < i {
                            assert(!paths_match(views(files@)[p], target@));
                        } else if p > i {
                            assert(!paths_match(views(files@)[i as int], target@));
                        }
                    },
                    None => {
                        assert(!paths_match(views(files@)[i as int], target@));
                    },
                }
            }
            return Some(i);
        }
        i += 1;
    }
    None
}

impl Default for FolderBrowser {
    fn default() -> (browser: Self)
        ensures
            browser@ == (FolderBrowserView {
                directory: None,
                files: Seq::empty(),
                current_index: None,
                anchor_index: 0,
                scan_generation: 0,
                watch_generation: 0,
                watch_failed: false,
            }),
    {
        let browser = FolderBrowser {
            directory: None,
            files: Vec::new(),
            current_index: None,
            anchor_index: 0,
            scan_generation: 0,
            watch_generation: 0,
            watch_failed: false,
        };
        assert(views(browser.files@) =~= Seq::<Seq<char>>::empty());
        browser
    }
}

impl FolderBrowser {
    #[verifier::type_invariant]
    spec fn well_formed(self) -> bool {
        match self.current_index {
            Some(i) => i < self.files.len(),
            None => true,
        }
    }

    /// The scan generation; a listing is applied only if made for this generation.
    pub fn scan_generation(&self) -> (generation: u64)
        ensures
            generation == self@.scan_generation,
    {
        self.scan_generation
    }

    /// Starts browsing the folder of `path` and asks for its listing.
    /// Paths that are not NFO files, or have no parent folder, stop browsing.
    pub fn begin_for_file(&mut self, path: &str) -> (request: Option<ScanRequest>)
        ensures
            match browsable_folder(path@) {
                None => request is None && final(self)@ == cleared(old(self)@),
                Some(directory) => {
                    let started = started_in(old(self)@, directory, path@);
                    &&& final(self)@ == FolderBrowserView {
                        scan_generation: next_generation(started.scan_generation),
                        ..started
                    }
                    &&& request matches Some(r) && r.directory@ == directory
                        && r.generation == next_generation(started.scan_generation)
                },
            },
    {
        proof {
            use_type_invariant(&*self);
        }
        if !is_nfo_path(path) {
            self.clear();
            return None;
        }
        let directory = match path_parent(path) {
            Some(parent) => {
                if parent.as_str().is_empty() {
                    self.clear();
                    return None;
                }
                parent
            },
            None => {
                self.clear();
                return None;
            },
        };
        let same_directory = match &self.directory {
            Some(current) => same_path(current.as_str(), directory.as_str()),
            None => false,
        };
        if !same_directory {
            self.current_index = None;
            self.files = Vec::new();
            self.anchor_index = 0;
            assert(views(self.files@) =~= Seq::<Seq<char>>::empty());
        }
        self.directory = Some(directory);
        self.watch_failed = false;
        self.watch_generation = advance(self.watch_generation);
        self.set_current_path(path);
        self.request_scan()
    }

    /// Asks for a new listing of the browsed folder, if there is one.
    pub fn request_scan(&mut self) -> (request: Option<ScanRequest>)
        ensures
            match old(self)@.directory {
                None => request is None && final(self)@ == old(self)@,
                Some(directory) => {
                    &&& final(self)@ == FolderBrowserView {
                        scan_generation: next_generation(old(self)@.scan_generation),
                        ..old(self)@
                    }
                    &&& request matches Some(r) && r.directory@ == directory
                        && r.generation == final(self)@.scan_generation
                },
            },
    {
        proof {
            use_type_invariant(&*self);
        }
        let directory = match &self.directory {
            Some(directory) => directory.clone(),
            None => return None,
        };
        self.scan_generation = advance(self.scan_generation);
        Some(ScanRequest { directory, generation: self.scan_generation })
    }

    /// Asks for a new listing if `directory` is the browsed folder.
    pub fn request_scan_for(&mut self, directory: &str) -> (request: Option<ScanRequest>)
        ensures
            in_folder(old(self)@, directory@) ==> {
                &&& final(self)@ == FolderBrowserView {
                    scan_generation: next_generation(old(self)@.scan_generation),
                    ..old(self)@
                }
                &&& request matches Some(r) && Some(r.directory@) == old(self)@.directory
                    && r.generation == final(self)@.scan_generation
            },
            !in_folder(old(self)@, directory@) ==> request is None && final(self)@ == old(self)@,
    {
        let target = directory.to_owned();
        let is_browsed = match &self.directory {
            Some(current) => same_path(current.as_str(), target.as_str()),
            None => false,
        };
        if is_browsed {
            self.request_scan()
        } else {
            None
        }
    }

    /// Applies a listing. Listings made for an older request or another
    /// folder are ignored. A failed listing empties the browser and stops
    /// watching. Otherwise the current file is located again; if it is gone,
    /// the file at its last position (or the new last file) is proposed.
    pub fn apply_scan(&mut self, result: ScanResult, current_path: Option<&str>) -> (update: ScanUpdate)
        ensures
            (final(self)@, update@) == applied_scan(
                old(self)@,
                result.directory@,
                result.generation,
                listing_view(result.files),
                match current_path {
                    Some(path) => Some(path@),
                    None => None,
                },
            ),
    {
        proof {
            use_type_invariant(&*self);
        }
        let same_directory = match &self.directory {
            Some(current) => same_path(current.as_str(), result.directory.as_str()),
            None => false,
        };
        if !same_directory || self.scan_generation != result.generation {
            return ScanUpdate::Ignored;
        }
        let files = match result.files {
            Ok(files) => files,
            Err(error) => {
                self.current_index = None;
                self.files = Vec::new();
                self.watch_failed = true;
                assert(views(self.files@) =~= Seq::<Seq<char>>::empty());
                return ScanUpdate::Failed(error);
            },
        };
        let found = match current_path {
            Some(path) => {
                let target = path.to_owned();
                proof {
                    lemma_position_in(views(files@), target@);
                }
                find_position(&files, &target)
            },
            None => None,
        };
        self.current_index = None;
        self.files = files;
        if let Some(index) = found {
            self.current_index = Some(index);
            self.anchor_index = index;
            return ScanUpdate::Updated;
        }
        if self.files.len() == 0 {
            return ScanUpdate::Updated;
        }
        let last = self.files.len() - 1;
        let index = if self.anchor_index < last { self.anchor_index } else { last };
        ScanUpdate::LoadNearest(self.files[index].clone())
    }

    /// Records which file is current; its position becomes the anchor.
    pub fn set_current_path(&mut self, path: &str)
        ensures
            final(self)@ == with_current(old(self)@, path@),
    {
        proof {
            use_type_invariant(&*self);
        }
        let target = path.to_owned();
        proof {
            lemma_position_in(views(self.files@), target@);
        }
        let found = find_position(&self.files, &target);
        self.current_index = found;
        if let Some(index) = found {
            self.anchor_index = index;
        }
    }

    /// The other files of the folder, each once, in the order a run of
    /// steps in `direction` reaches them; empty unless browsing is active.
    pub fn paths_in_direction(&self, direction: BrowseDirection) -> (paths: Vec<String>)
        ensures
            views(paths@) == browse_candidates(self@, direction),
            spec_is_active(self@) ==> 0 <= self@.current_index->0 < self@.files.len(),
    {
        proof {
            use_type_invariant(self);
        }
        if !self.is_active() {
            return Vec::new();
        }
        let current = match self.current_index {
            Some(index) => index,
            None => return Vec::new(),
        };
        let count = self.files.len();
        let mut paths: Vec<String> = Vec::new();
        let mut offset: usize = 1;
        while offset < count
            invariant
                1 <= offset <= count,
                current < count,
                count == self.files@.len(),
                paths@.len() == offset - 1,
                forall|k: int| 0 <= k < offset - 1 ==>
                    #[trigger] views(paths@)[k] == views(self.files@)[browse_index(current as int, k + 1, count as int, direction)],
            decreases count - offset,
        {
            let index = match direction {
                BrowseDirection::Previous => if offset <= current { current - offset } else { count - (offset - current) },
                BrowseDirection::Next => if offset < count - current { current + offset } else { offset - (count - current) },
            };
            proof {
                lemma_wrap_index(current - offset, count as int);
                lemma_wrap_index(current + offset, count as int);
            }
            let ghost before = paths@;
            let path = self.files[index].clone();
            paths.push(path);
            proof {
                assert(views(paths@)[offset - 1] == views(self.files@)[index as int]);
                assert forall|k: int| 0 <= k < offset implies
                    #[trigger] views(paths@)[k] == views(self.files@)[browse_index(current as int, k + 1, count as int, direction)] by {
                    if k < offset - 1 {
                        assert(paths@[k] == before[k]);
                        assert(views(paths@)[k] == views(before)[k]);
                    }
                }
            }
            offset += 1;
        }
        paths
    }

    /// The files of the folder starting at `first` and going once around,
    /// in folder-listing order; empty if `first` is not one of them.
    pub fn replacement_paths(&self, first: &str) -> (paths: Vec<String>)
        ensures
            views(paths@) == replacement_candidates(self@, first@),
    {
        let target = first.to_owned();
        let start = match find_position(&self.files, &target) {
            Some(index) => index,
            None => return Vec::new(),
        };
        proof {
            lemma_position_in(views(self.files@), first@);
        }
        let count = self.files.len();
        let mut paths: Vec<String> = Vec::new();
        let mut offset: usize = 0;
        while offset < count
            invariant
                offset <= count,
                start < count,
                count == self.files@.len(),
                paths@.len() == offset,
                forall|k: int| 0 <= k < offset ==>
                    #[trigger] views(paths@)[k] == views(self.files@)[(start + k) % (count as int)],
            decreases count - offset,
        {
            let index = if offset < count - start { start + offset } else { offset - (count - start) };
            proof {
                lemma_wrap_index(start + offset, count as int);
            }
            let ghost before = paths@;
            let path = self.files[index].clone();
            paths.push(path);
            proof {
                assert(views(paths@)[offset as int] == views(self.files@)[index as int]);
                assert forall|k: int| 0 <= k < offset + 1 implies
                    #[trigger] views(paths@)[k] == views(self.files@)[(start + k) % (count as int)] by {
                    if k < offset {
                        assert(paths@[k] == before[k]);
                        assert(views(paths@)[k] == views(before)[k]);
                    }
                }
            }
            offset += 1;
        }
        paths
    }

    /// The one-based position of the current file and the number of files,
    /// while browsing is active.
    pub fn position(&self) -> (position: Option<(usize, usize)>)
        ensures
            spec_is_active(self@) ==> (position matches Some((index, count))
                && index == self@.current_index->0 + 1 && count == self@.files.len()
                && 1 <= index <= count),
            !spec_is_active(self@) ==> position is None,
    {
        proof {
            use_type_invariant(self);
        }
        if !self.is_active() {
            return None;
        }
        match self.current_index {
            Some(index) => Some((index + 1, self.files.len())),
            None => None,
        }
    }

    /// Whether the browser can move between files.
    pub fn is_active(&self) -> (active: bool)
        ensures
            active == spec_is_active(self@),
    {
        self.files.len() > 1 && self.current_index.is_some()
    }

    /// Records that watching `directory` failed. Returns whether this is news,
    /// i.e. `directory` is the browsed folder and no failure was recorded yet.
    pub fn mark_watch_failed(&mut self, directory: &str) -> (newly_failed: bool)
        ensures
            newly_failed == reports_watch_failure(old(self)@, directory@),
            newly_failed ==> final(self)@ == (FolderBrowserView { watch_failed: true, ..old(self)@ }),
            !newly_failed ==> final(self)@ == old(self)@,
    {
        proof {
            use_type_invariant(&*self);
        }
        let target = directory.to_owned();
        let is_browsed = match &self.directory {
            Some(current) => same_path(current.as_str(), target.as_str()),
            None => false,
        };
        if !is_browsed || self.watch_failed {
            return false;
        }
        self.watch_failed = true;
        true
    }

    /// The folder to watch and the generation of the watch, unless watching failed.
    pub fn watch_target(&self) -> (target: Option<(String, u64)>)
        ensures
            match target {
                Some((directory, generation)) => !self@.watch_failed && self@.directory == Some(directory@)
                    && generation == self@.watch_generation,
                None => self@.watch_failed || self@.directory is None,
            },
    {
        if self.watch_failed {
            return None;
        }
        match &self.directory {
            Some(directory) => Some((directory.clone(), self.watch_generation)),
            None => None,
        }
    }

    /// Stops browsing and invalidates outstanding scans and watches.
    pub fn clear(&mut self)
        ensures
            final(self)@ == cleared(old(self)@),
    {
        proof {
            use_type_invariant(&*self);
        }
        self.current_index = None;
        self.directory = None;
        self.files = Vec::new();
        self.anchor_index = 0;
        self.scan_generation = advance(self.scan_generation);
        self.watch_generation = advance(self.watch_generation);
        self.watch_failed = false;
        assert(views(self.files@) =~= Seq::<Seq<char>>::empty());
    }
}

/// Reduction of an index that is at most one turn out of range.
pub proof fn lemma_wrap_index(index: int, count: int)
    requires
        count > 0,
        -count <= index < 2 * count,
    ensures
        index < 0 ==> index % count == index + count,
        0 <= index < count ==> index % count == index,
        count <= index ==> index % count == index - count,
{
    if index < 0 {
        lemma_mod_add_multiples_vanish(index, count);
        lemma_small_mod((index + count) as nat, count as nat);
    } else if index < count {
        lemma_small_mod(index as nat, count as nat);
    } else {
        lemma_mod_sub_multiples_vanish(index, count);
        lemma_small_mod((index - count) as nat, count as nat);
    }
}

/// Some step from 1 to `count - 1` in `direction` from `current` reaches `index`.
pub open spec fn browse_reaches(current: int, count: int, direction: BrowseDirection, index: int) -> bool {
    exists|k: int| 1 <= k < count && #[trigger] browse_index(current, k, count, direction) == index
}

/// Some step from 0 to `count - 1` around from `start` reaches `index`.
pub open spec fn cycle_reaches(start: int, count: int, index: int) -> bool {
    exists|k: int| 0 <= k < count && #[trigger] ((start + k) % count) == index
}

/// Browsing from the file at `current` among `count` files reaches, in
/// steps 1 to `count - 1`, every other file exactly once and never the
/// current one, in either direction.
pub proof fn law_browse_visits_every_other_file_once(
    current: int,
    count: int,
    direction: BrowseDirection,
)
    requires
        0 <= current < count,
    ensures
        forall|k: int|
            1 <= k < count ==> 0 <= #[trigger] browse_index(current, k, count, direction) < count
                && browse_index(current, k, count, direction) != current,
        forall|j: int, k: int|
            1 <= j < count && 1 <= k < count && #[trigger] browse_index(current, j, count, direction)
                == #[trigger] browse_index(current, k, count, direction) ==> j == k,
        forall|i: int|
            0 <= i < count && i != current ==> #[trigger] browse_reaches(current, count, direction, i),
{
    assert forall|k: int| 1 <= k < count implies 0 <= #[trigger] browse_index(
        current,
        k,
        count,
        direction,
    ) < count && browse_index(current, k, count, direction) != current by {
        lemma_wrap_index(current - k, count);
        lemma_wrap_index(current + k, count);
    }
    assert forall|j: int, k: int|
        1 <= j < count && 1 <= k < count && #[trigger] browse_index(current, j, count, direction)
            == #[trigger] browse_index(current, k, count, direction) implies j == k by {
        lemma_wrap_index(current - j, count);
        lemma_wrap_index(current + j, count);
        lemma_wrap_index(current - k, count);
        lemma_wrap_index(current + k, count);
    }
    assert forall|i: int| 0 <= i < count && i != current implies #[trigger] browse_reaches(
        current,
        count,
        direction,
        i,
    ) by {
        let k = match direction {
            BrowseDirection::Next => if i > current { i - current } else { i - current + count },
            BrowseDirection::Previous => if i < current { current - i } else { current - i + count },
        };
        lemma_wrap_index(current - k, count);
        lemma_wrap_index(current + k, count);
        assert(browse_index(current, k, count, direction) == i);
    }
}

/// Going once around from the file at `start` among `count` files reaches
/// every file exactly once, `start` first.
pub proof fn law_replacements_cover_the_folder_once(start: int, count: int)
    requires
        0 <= start < count,
    ensures
        (start + 0) % count == start,
        forall|k: int| 0 <= k < count ==> 0 <= #[trigger] ((start + k) % count) < count,
        forall|j: int, k: int|
            0 <= j < count && 0 <= k < count && #[trigger] ((start + j) % count) == #[trigger] ((
            start + k) % count) ==> j == k,
        forall|i: int| 0 <= i < count ==> #[trigger] cycle_reaches(start, count, i),
{
    lemma_wrap_index(start, count);
    assert forall|k: int| 0 <= k < count implies 0 <= #[trigger] ((start + k) % count) < count by {
        lemma_wrap_index(start + k, count);
    }
    assert forall|j: int, k: int|
        0 <= j < count && 0 <= k < count && #[trigger] ((start + j) % count) == #[trigger] ((start
            + k) % count) implies j == k by {
        lemma_wrap_index(start + j, count);
        lemma_wrap_index(start + k, count);
    }
    assert forall|i: int| 0 <= i < count implies #[trigger] cycle_reaches(start, count, i) by {
        let k = if i >= start { i - start } else { i - start + count };
        lemma_wrap_index(start + k, count);
        assert((start + k) % count == i);
    }
}

/// Once another scan has been requested, a late result of the earlier
/// request is ignored and changes nothing.
pub proof fn law_earlier_scan_is_ignored(
    state: FolderBrowserView,
    files: Result<Seq<Seq<char>>, Seq<char>>,
    current: Option<Seq<char>>,
)
    requires
        state.directory is Some,
    ensures
        ({
            let later = FolderBrowserView {
                scan_generation: next_generation(state.scan_generation),
                ..state
            };
            applied_scan(later, state.directory->0, state.scan_generation, files, current) == (
            later,
            ScanUpdateView::Ignored,
            )
        }),
{
}

/// A listing that no longer holds the current file keeps its last position
/// as the anchor, so the browser returns near it once files reappear; a
/// listing that holds it moves the anchor to its new position.
pub proof fn law_rescan_keeps_the_anchor(
    state: FolderBrowserView,
    files: Seq<Seq<char>>,
    current: Seq<char>,
)
    requires
        state.directory is Some,
    ensures
        ({
            let (after, update) = applied_scan(
                state,
                state.directory->0,
                state.scan_generation,
                Ok(files),
                Some(current),
            );
            match position_in(files, current) {
                Some(i) => after.anchor_index == i && after.current_index == Some(i) && update
                    == ScanUpdateView::Updated,
                None => after.anchor_index == state.anchor_index && after.current_index is None,
            }
        }),
{
}

/// Browsing back reaches the other files in the reverse of the order in
/// which browsing forward reaches them.
pub proof fn law_previous_is_next_reversed(current: int, count: int, step: int)
    requires
        0 <= current < count,
        1 <= step < count,
    ensures
        browse_index(current, step, count, BrowseDirection::Previous) == browse_index(
            current,
            count - step,
            count,
            BrowseDirection::Next,
        ),
{
    lemma_wrap_index(current - step, count);
    lemma_wrap_index(current + (count - step), count);
}

/// The files offered by browsing back are those offered by browsing
/// forward, in reverse order (none either way while browsing is inactive).
pub proof fn law_previous_candidates_reverse_next(state: FolderBrowserView)
    requires
        state.current_index matches Some(i) ==> 0 <= i < state.files.len(),
    ensures
        browse_candidates(state, BrowseDirection::Previous) == browse_candidates(
            state,
            BrowseDirection::Next,
        ).reverse(),
{
    let previous = browse_candidates(state, BrowseDirection::Previous);
    let next = browse_candidates(state, BrowseDirection::Next);
    if spec_is_active(state) {
        let count = state.files.len() as int;
        let current = state.current_index->0;
        assert forall|k: int| 0 <= k < previous.len() implies previous[k] == next.reverse()[k] by {
            law_previous_is_next_reversed(current, count, k + 1);
            assert(next.reverse()[k] == next[count - 2 - k]);
        }
    }
    assert(previous =~= next.reverse());
}

/// A watch failure of the browsed folder is reported the first time only:
/// once reported, reporting it again for that folder is refused.
pub proof fn law_watch_failure_reported_once(state: FolderBrowserView, directory: Seq<char>)
    requires
        reports_watch_failure(state, directory),
    ensures
        !reports_watch_failure(FolderBrowserView { watch_failed: true, ..state }, directory),
{
}

/// The result of the latest scan request of the browsed folder is never
/// ignored.
pub proof fn law_latest_scan_is_applied(
    state: FolderBrowserView,
    files: Result<Seq<Seq<char>>, Seq<char>>,
    current: Option<Seq<char>>,
)
    requires
        state.directory is Some,
    ensures
        applied_scan(state, state.directory->0, state.scan_generation, files, current).1
            != ScanUpdateView::Ignored,
{
}

/// When the current file is gone from a non-empty listing, the file
/// proposed is the one now at the current file's last known position, or
/// the last file when the listing got shorter than that; the anchor keeps
/// that position and no file is current.
pub proof fn law_missing_file_proposes_the_file_at_its_place(
    state: FolderBrowserView,
    files: Seq<Seq<char>>,
    current: Seq<char>,
)
    requires
        state.directory is Some,
        0 <= state.anchor_index,
        files.len() > 0,
        forall|j: int| 0 <= j < files.len() ==> !paths_match(#[trigger] files[j], current),
    ensures
        ({
            let (after, update) = applied_scan(
                state,
                state.directory->0,
                state.scan_generation,
                Ok(files),
                Some(current),
            );
            &&& state.anchor_index < files.len() ==> update == ScanUpdateView::LoadNearest(
                files[state.anchor_index],
            )
            &&& state.anchor_index >= files.len() ==> update == ScanUpdateView::LoadNearest(
                files[files.len() - 1],
            )
            &&& after.anchor_index == state.anchor_index
            &&& after.current_index is None
            &&& after.files == files
        }),
{
    lemma_position_in(files, current);
    if position_in(files, current) is Some {
        let i = position_in(files, current)->0;
        assert(!paths_match(files[i], current));
    }
}

/// Making a file of the listing current records its position as the
/// anchor: the file at index `i`, and no earlier one, is that path.
pub proof fn law_current_file_becomes_the_anchor(
    state: FolderBrowserView,
    path: Seq<char>,
    i: int,
)
    requires
        0 <= i < state.files.len(),
        paths_match(state.files[i], path),
        forall|j: int| 0 <= j < i ==> !paths_match(#[trigger] state.files[j], path),
    ensures
        with_current(state, path).current_index == Some(i),
        with_current(state, path).anchor_index == i,
        with_current(state, path).files == state.files,
{
    lemma_position_in(state.files, path);
    let found = position_in(state.files, path);
    assert(found is Some);
    let p = found->0;
    if p < i {
        assert(!paths_match(state.files[p], path));
    } else if p > i {
        assert(!paths_match(state.files[i], path));
    }
}

/// Browsing back and browsing forward offer the same files in opposite
/// orders: the first offered back is the file just before the current one,
/// the first offered forward the file just after it (both wrapping round).
pub proof fn law_browsing_directions_are_opposite(state: FolderBrowserView)
    requires
        spec_is_active(state),
        0 <= state.current_index->0 < state.files.len(),
    ensures
        ({
            let count = state.files.len() as int;
            let current = state.current_index->0;
            let back = browse_candidates(state, BrowseDirection::Previous);
            let forward = browse_candidates(state, BrowseDirection::Next);
            &&& back == forward.reverse()
            &&& back.len() == count - 1
            &&& back[0] == state.files[if current == 0 { count - 1 } else { current - 1 }]
            &&& forward[0] == state.files[if current == count - 1 { 0 } else { current + 1 }]
        }),
{
    let count = state.files.len() as int;
    let current = state.current_index->0;
    law_previous_candidates_reverse_next(state);
    lemma_wrap_index(current - 1, count);
    lemma_wrap_index(current + 1, count);
}

} // verus!
