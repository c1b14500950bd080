use std::cmp::Ordering;

use infekt::folder_browser::{BrowseDirection, FolderBrowser, ScanRequest, ScanResult, ScanUpdate};
use infekt::natural_order::{natural_path_cmp, sort_in_scan_order};
use infekt::path_model::is_nfo_path;

const DIRECTORY: &str = "/tmp/releases";

fn join(directory: &str, name: &str) -> String {
    format!("{directory}/{name}")
}

fn scan_result(browser: &FolderBrowser, directory: &str, files: &[&str]) -> ScanResult {
    let files = files.iter().map(|name| join(directory, name)).collect::<Vec<_>>();

    ScanResult {
        directory: directory.to_owned(),
        generation: browser.scan_generation(),
        files: Ok(sort_in_scan_order(files)),
    }
}

#[test]
fn nfo_filter_is_case_insensitive_and_excludes_other_art_files() {
    assert!(is_nfo_path("release.nfo"));
    assert!(is_nfo_path("release.NFO"));
    assert!(!is_nfo_path("release.diz"));
    assert!(!is_nfo_path("release.txt"));
}

#[test]
fn natural_order_compares_numeric_runs_and_uses_paths_as_ties() {
    let paths = vec![
        "release10.nfo".to_owned(),
        "release02.nfo".to_owned(),
        "Release2.nfo".to_owned(),
        "release1.nfo".to_owned(),
    ];
    let paths = sort_in_scan_order(paths);

    assert_eq!(paths[0], "release1.nfo");
    assert_eq!(paths[1], "Release2.nfo");
    assert_eq!(paths[2], "release02.nfo");
    assert_eq!(paths[3], "release10.nfo");

    let ties = vec!["release2.nfo".to_owned(), "Release2.NFO".to_owned()];
    let mut expected = ties.clone();
    expected.sort_by(|left, right| left.as_bytes().cmp(right.as_bytes()));

    assert_eq!(natural_path_cmp(&ties[0], &ties[1]), Ordering::Equal);
    let ties = sort_in_scan_order(ties);
    assert_eq!(ties, expected);
}

#[test]
fn browser_activates_at_two_files_and_wraps_both_directions() {
    let current = join(DIRECTORY, "one.nfo");
    let mut browser = FolderBrowser::default();
    browser.begin_for_file(&current);

    let one = scan_result(&browser, DIRECTORY, &["one.nfo"]);
    assert_eq!(browser.apply_scan(one, Some(&current)), ScanUpdate::Updated);
    assert!(!browser.is_active());

    browser.request_scan();
    let two = scan_result(&browser, DIRECTORY, &["one.nfo", "two.nfo"]);
    assert_eq!(browser.apply_scan(two, Some(&current)), ScanUpdate::Updated);
    assert_eq!(browser.position(), Some((1, 2)));
    assert_eq!(
        browser.paths_in_direction(BrowseDirection::Previous),
        vec![join(DIRECTORY, "two.nfo")]
    );
    assert_eq!(
        browser.paths_in_direction(BrowseDirection::Next),
        vec![join(DIRECTORY, "two.nfo")]
    );

    browser.set_current_path(&join(DIRECTORY, "two.nfo"));
    assert_eq!(
        browser.paths_in_direction(BrowseDirection::Next),
        vec![join(DIRECTORY, "one.nfo")]
    );
}

#[test]
fn browse_candidates_visit_every_other_file_once_in_the_requested_direction() {
    let current = join(DIRECTORY, "release2.nfo");
    let mut browser = FolderBrowser::default();
    browser.begin_for_file(&current);
    let initial = scan_result(
        &browser,
        DIRECTORY,
        &["release1.nfo", "release2.nfo", "release3.nfo", "release4.nfo"],
    );
    browser.apply_scan(initial, Some(&current));

    assert_eq!(
        browser.paths_in_direction(BrowseDirection::Next),
        vec![
            join(DIRECTORY, "release3.nfo"),
            join(DIRECTORY, "release4.nfo"),
            join(DIRECTORY, "release1.nfo"),
        ]
    );
    assert_eq!(
        browser.paths_in_direction(BrowseDirection::Previous),
        vec![
            join(DIRECTORY, "release1.nfo"),
            join(DIRECTORY, "release4.nfo"),
            join(DIRECTORY, "release3.nfo"),
        ]
    );
}

#[test]
fn browsing_previous_from_later_index_does_not_underflow() {
    let current = join(DIRECTORY, "release3.nfo");
    let mut browser = FolderBrowser::default();
    browser.begin_for_file(&current);
    let initial = scan_result(
        &browser,
        DIRECTORY,
        &["release1.nfo", "release2.nfo", "release3.nfo", "release4.nfo"],
    );
    browser.apply_scan(initial, Some(&current));

    assert_eq!(
        browser.paths_in_direction(BrowseDirection::Previous),
        vec![
            join(DIRECTORY, "release2.nfo"),
            join(DIRECTORY, "release1.nfo"),
            join(DIRECTORY, "release4.nfo"),
        ]
    );
}

#[test]
fn replacement_candidates_start_at_nearest_and_are_bounded_to_one_cycle() {
    let current = join(DIRECTORY, "release2.nfo");
    let mut browser = FolderBrowser::default();
    browser.begin_for_file(&current);
    let initial = scan_result(
        &browser,
        DIRECTORY,
        &["release1.nfo", "release2.nfo", "release3.nfo"],
    );
    browser.apply_scan(initial, Some(&current));

    browser.request_scan();
    let removed = scan_result(
        &browser,
        DIRECTORY,
        &["release1.nfo", "release3.nfo", "release4.nfo"],
    );
    let ScanUpdate::LoadNearest(nearest) = browser.apply_scan(removed, Some(&current)) else {
        panic!("removing the current file should select its nearest replacement");
    };

    assert_eq!(
        browser.replacement_paths(&nearest),
        vec![
            join(DIRECTORY, "release3.nfo"),
            join(DIRECTORY, "release4.nfo"),
            join(DIRECTORY, "release1.nfo"),
        ]
    );
}

#[test]
fn removing_current_loads_the_same_position_or_new_last() {
    let current = join(DIRECTORY, "two.nfo");
    let mut browser = FolderBrowser::default();
    browser.begin_for_file(&current);
    let initial = scan_result(&browser, DIRECTORY, &["one.nfo", "two.nfo", "three.nfo"]);
    browser.apply_scan(initial, Some(&current));

    browser.request_scan();
    let removed = scan_result(&browser, DIRECTORY, &["one.nfo", "three.nfo"]);
    assert_eq!(
        browser.apply_scan(removed, Some(&current)),
        ScanUpdate::LoadNearest(join(DIRECTORY, "three.nfo"))
    );

    browser.set_current_path(&join(DIRECTORY, "three.nfo"));
    browser.request_scan();
    let removed_last = scan_result(&browser, DIRECTORY, &["one.nfo"]);
    assert_eq!(
        browser.apply_scan(removed_last, Some(&join(DIRECTORY, "three.nfo"))),
        ScanUpdate::LoadNearest(join(DIRECTORY, "one.nfo"))
    );
}

#[test]
fn rescans_recompute_position_when_files_are_inserted_or_removed_before_current() {
    let current = join(DIRECTORY, "release10.nfo");
    let mut browser = FolderBrowser::default();
    browser.begin_for_file(&current);
    let initial = scan_result(&browser, DIRECTORY, &["release2.nfo", "release10.nfo"]);
    assert_eq!(browser.apply_scan(initial, Some(&current)), ScanUpdate::Updated);
    assert_eq!(browser.position(), Some((2, 2)));

    browser.request_scan();
    let inserted = scan_result(
        &browser,
        DIRECTORY,
        &["release1.nfo", "release2.nfo", "release10.nfo"],
    );
    assert_eq!(browser.apply_scan(inserted, Some(&current)), ScanUpdate::Updated);
    assert_eq!(browser.position(), Some((3, 3)));

    browser.request_scan();
    let removed = scan_result(&browser, DIRECTORY, &["release1.nfo", "release10.nfo"]);
    assert_eq!(browser.apply_scan(removed, Some(&current)), ScanUpdate::Updated);
    assert_eq!(browser.position(), Some((2, 2)));
}

#[test]
fn empty_scan_hides_navigation_but_keeps_the_anchor_for_reactivation() {
    let current = join(DIRECTORY, "two.nfo");
    let mut browser = FolderBrowser::default();
    browser.begin_for_file(&current);
    let initial = scan_result(&browser, DIRECTORY, &["one.nfo", "two.nfo"]);
    browser.apply_scan(initial, Some(&current));

    browser.request_scan();
    let empty = scan_result(&browser, DIRECTORY, &[]);
    assert_eq!(browser.apply_scan(empty, Some(&current)), ScanUpdate::Updated);
    assert!(!browser.is_active());

    browser.request_scan();
    let recreated = scan_result(&browser, DIRECTORY, &["new.nfo"]);
    assert_eq!(
        browser.apply_scan(recreated, Some(&current)),
        ScanUpdate::LoadNearest(join(DIRECTORY, "new.nfo"))
    );
}

#[test]
fn stale_scan_results_are_ignored() {
    let current = join(DIRECTORY, "one.nfo");
    let mut browser = FolderBrowser::default();
    let stale_request = browser.begin_for_file(&current).unwrap();
    browser.request_scan();
    let stale = ScanResult {
        directory: stale_request.directory,
        generation: stale_request.generation,
        files: Ok(vec![current.clone()]),
    };

    assert_eq!(browser.apply_scan(stale, Some(&current)), ScanUpdate::Ignored);
}

#[test]
fn scan_keeps_only_nfo_files_in_listing_order() {
    let mut browser = FolderBrowser::default();
    let request = browser.begin_for_file(&join(DIRECTORY, "release2.NFO")).unwrap();
    let entries = vec![
        join(DIRECTORY, "release10.nfo"),
        join(DIRECTORY, "release1.txt"),
        join(DIRECTORY, "release2.NFO"),
        join(DIRECTORY, "cover.diz"),
    ];

    let result = request.run(Ok(entries));

    assert_eq!(result.directory, DIRECTORY);
    assert_eq!(
        result.files,
        Ok(vec![join(DIRECTORY, "release2.NFO"), join(DIRECTORY, "release10.nfo")])
    );
}

#[test]
fn unreadable_folder_reports_the_failure_and_stops_browsing() {
    let current = join(DIRECTORY, "one.nfo");
    let mut browser = FolderBrowser::default();
    let request: ScanRequest = browser.begin_for_file(&current).unwrap();
    let result = request.run(Err("no access".to_owned()));

    assert_eq!(
        browser.apply_scan(result, Some(&current)),
        ScanUpdate::Failed("no access".to_owned())
    );
    assert!(!browser.is_active());
    assert_eq!(browser.watch_target(), None);
}

#[test]
fn files_outside_a_folder_or_of_other_types_do_not_start_browsing() {
    let mut browser = FolderBrowser::default();

    assert!(browser.begin_for_file("release.nfo").is_none());
    assert!(browser.begin_for_file(&join(DIRECTORY, "release.txt")).is_none());
    assert!(browser.request_scan().is_none());
    assert_eq!(browser.watch_target(), None);
}

#[test]
fn rescans_are_requested_only_for_the_browsed_folder() {
    let mut browser = FolderBrowser::default();
    let first = browser.begin_for_file(&join(DIRECTORY, "one.nfo")).unwrap();

    assert!(browser.request_scan_for("/tmp/elsewhere").is_none());
    let again = browser.request_scan_for(DIRECTORY).unwrap();
    assert_eq!(again.directory, DIRECTORY);
    assert_ne!(again.generation, first.generation);
}

#[test]
fn watch_failure_is_reported_once_per_folder() {
    let mut browser = FolderBrowser::default();
    browser.begin_for_file(&join(DIRECTORY, "one.nfo"));

    assert!(browser.watch_target().is_some());
    assert!(!browser.mark_watch_failed("/tmp/elsewhere"));
    assert!(browser.mark_watch_failed(DIRECTORY));
    assert!(!browser.mark_watch_failed(DIRECTORY));
    assert_eq!(browser.watch_target(), None);

    browser.begin_for_file(&join(DIRECTORY, "one.nfo"));
    assert!(browser.watch_target().is_some());
}

#[test]
fn clearing_forgets_the_folder() {
    let current = join(DIRECTORY, "one.nfo");
    let mut browser = FolderBrowser::default();
    browser.begin_for_file(&current);
    let listing = scan_result(&browser, DIRECTORY, &["one.nfo", "two.nfo"]);
    browser.apply_scan(listing, Some(&current));
    assert!(browser.is_active());

    browser.clear();

    assert!(!browser.is_active());
    assert_eq!(browser.position(), None);
    assert!(browser.paths_in_direction(BrowseDirection::Next).is_empty());
    assert!(browser.replacement_paths(&current).is_empty());
}

#[test]
fn paths_compare_as_paths_not_as_strings() {
    let current = "/tmp/releases//two.nfo".to_owned();
    let mut browser = FolderBrowser::default();
    browser.begin_for_file(&current);
    let listing = scan_result(&browser, DIRECTORY, &["one.nfo", "two.nfo"]);

    assert_eq!(browser.apply_scan(listing, Some(&current)), ScanUpdate::Updated);
    assert_eq!(browser.position(), Some((2, 2)));
    assert!(browser.request_scan_for("/tmp/releases/").is_some());
    assert!(browser.mark_watch_failed("/tmp/./releases"));
}
