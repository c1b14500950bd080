use infekt::nfo_backdrop::{
    first_dense_block_row, visible_bounds, BackdropImage, BackdropKey, ContentBounds, NfoBackdrop,
    Rgb8, Rgba8, ALGORITHM_VERSION,
};
use infekt::renderer_grid::{
    NfoRendererBlockGroup, NfoRendererBlockShape, NfoRendererGrid, NfoRendererLine,
    NfoRendererLink, NfoRendererTextFlight,
};

fn grid_with_line(width: usize, height: usize, id: u64, line: NfoRendererLine) -> NfoRendererGrid {
    grid_with_lines(width, height, id, vec![line])
}

fn grid_with_lines(
    width: usize,
    height: usize,
    id: u64,
    lines: Vec<NfoRendererLine>,
) -> NfoRendererGrid {
    NfoRendererGrid {
        width,
        height,
        lines,
        has_blocks: true,
        id,
    }
}

fn line(row: usize) -> NfoRendererLine {
    NfoRendererLine {
        row,
        block_groups: Vec::new(),
        text_flights: Vec::new(),
        links: Vec::new(),
    }
}

fn single_block_grid(shape: NfoRendererBlockShape) -> NfoRendererGrid {
    let mut content = line(5);
    content.block_groups.push(NfoRendererBlockGroup {
        col: 5,
        blocks: vec![shape],
    });
    grid_with_line(11, 11, 7, content)
}

const BACKGROUND: Rgb8 = Rgb8 {
    red: 1,
    green: 2,
    blue: 2,
};
const TEXT: Rgba8 = Rgba8 {
    red: 245,
    green: 250,
    blue: 250,
    alpha: 255,
};
const ART: Rgba8 = Rgba8 {
    red: 0,
    green: 227,
    blue: 235,
    alpha: 255,
};
const RATIO_MILLI: u16 = 583;

fn request(
    state: &mut NfoBackdrop<u32>,
    grid: &NfoRendererGrid,
) -> Option<infekt::nfo_backdrop::BackdropRequest> {
    state.request(Some(grid), BACKGROUND, TEXT, ART, RATIO_MILLI)
}

#[test]
fn key_tracks_only_inputs_that_change_backdrop_pixels() {
    let grid = single_block_grid(NfoRendererBlockShape::FullBlock);
    let base_key = BackdropKey::new(&grid, BACKGROUND, TEXT, ART, RATIO_MILLI);

    let mut changed_grid = grid.clone();
    changed_grid.id += 1;
    assert_ne!(
        base_key,
        BackdropKey::new(&changed_grid, BACKGROUND, TEXT, ART, RATIO_MILLI)
    );

    let other = Rgba8 {
        red: 51,
        green: 77,
        blue: 102,
        alpha: 128,
    };
    assert_ne!(
        base_key,
        BackdropKey::new(
            &grid,
            Rgb8 {
                red: 51,
                green: 77,
                blue: 102
            },
            TEXT,
            ART,
            RATIO_MILLI
        )
    );
    assert_ne!(base_key, BackdropKey::new(&grid, BACKGROUND, other, ART, RATIO_MILLI));
    assert_ne!(base_key, BackdropKey::new(&grid, BACKGROUND, TEXT, other, RATIO_MILLI));
    assert_ne!(base_key, BackdropKey::new(&grid, BACKGROUND, TEXT, ART, 600));

    // Everything else about the grid leaves the key alone.
    let mut relaid = grid.clone();
    relaid.width = 99;
    relaid.height = 99;
    relaid.has_blocks = false;
    assert_eq!(base_key, BackdropKey::new(&relaid, BACKGROUND, TEXT, ART, RATIO_MILLI));
    assert_eq!(base_key.algorithm_version, ALGORITHM_VERSION);
}

#[test]
fn bounds_crop_to_visible_content_with_two_cell_margin() {
    let mut content = line(10);
    content.block_groups.push(NfoRendererBlockGroup {
        col: 20,
        blocks: vec![NfoRendererBlockShape::FullBlock],
    });
    content.text_flights.push(NfoRendererTextFlight {
        col: 30,
        text: "A".into(),
    });
    let grid = grid_with_line(100, 50, 1, content);

    assert_eq!(
        visible_bounds(&grid),
        Some(ContentBounds {
            left: 18,
            top: 8,
            right: 33,
            bottom: 13,
            content_top: 0,
        })
    );
}

#[test]
fn leading_sparse_rows_are_excluded_after_dense_art_anchor() {
    let mut early = line(3);
    early.block_groups.push(NfoRendererBlockGroup {
        col: 0,
        blocks: vec![NfoRendererBlockShape::FullBlock; 19],
    });
    early.text_flights.push(NfoRendererTextFlight {
        col: 70,
        text: "ordinary text does not establish the art anchor".into(),
    });

    let mut inside_margin = line(8);
    inside_margin.block_groups.push(NfoRendererBlockGroup {
        col: 35,
        blocks: vec![NfoRendererBlockShape::FullBlock],
    });

    let mut anchor = line(10);
    anchor.block_groups.push(NfoRendererBlockGroup {
        col: 30,
        blocks: vec![NfoRendererBlockShape::FullBlock; 20],
    });

    let mut trailing = line(15);
    trailing.block_groups.push(NfoRendererBlockGroup {
        col: 60,
        blocks: vec![NfoRendererBlockShape::FullBlock],
    });
    trailing.text_flights.push(NfoRendererTextFlight {
        col: 70,
        text: "A".into(),
    });

    let grid = grid_with_lines(100, 30, 11, vec![early, inside_margin, anchor, trailing]);
    let bounds = visible_bounds(&grid).unwrap();

    assert_eq!(
        bounds,
        ContentBounds {
            left: 28,
            top: 8,
            right: 73,
            bottom: 18,
            content_top: 10,
        }
    );
    assert!(!bounds.contains(35, 8));
    assert!(bounds.contains(30, 10));
    assert!(bounds.contains(70, 15));
}

#[test]
fn sparse_art_and_text_only_grids_keep_the_existing_fallback() {
    let mut sparse = line(7);
    sparse.block_groups.push(NfoRendererBlockGroup {
        col: 12,
        blocks: vec![NfoRendererBlockShape::FullBlock; 19],
    });
    let sparse_grid = grid_with_line(80, 25, 12, sparse);
    let sparse_bounds = visible_bounds(&sparse_grid).unwrap();

    assert_eq!(first_dense_block_row(&sparse_grid), None);
    assert_eq!(sparse_bounds.content_top, 0);
    assert!(sparse_bounds.contains(12, 7));

    let mut text = line(4);
    text.text_flights.push(NfoRendererTextFlight {
        col: 6,
        text: "text-only NFO".into(),
    });
    let text_grid = grid_with_line(80, 25, 13, text);
    let text_bounds = visible_bounds(&text_grid).unwrap();

    assert_eq!(first_dense_block_row(&text_grid), None);
    assert_eq!(text_bounds.content_top, 0);
    assert!(text_bounds.contains(6, 4));
}

#[test]
fn dense_anchor_uses_lowest_row_with_twenty_distinct_valid_blocks() {
    let mut out_of_bounds = line(1);
    out_of_bounds.block_groups.push(NfoRendererBlockGroup {
        col: 80,
        blocks: vec![NfoRendererBlockShape::FullBlock; 20],
    });

    let mut duplicates = line(2);
    duplicates.block_groups.push(NfoRendererBlockGroup {
        col: 0,
        blocks: vec![NfoRendererBlockShape::FullBlock; 10],
    });
    duplicates.block_groups.push(NfoRendererBlockGroup {
        col: 0,
        blocks: vec![NfoRendererBlockShape::FullBlock; 10],
    });

    let mut whitespace = line(3);
    whitespace.block_groups.push(NfoRendererBlockGroup {
        col: 0,
        blocks: vec![NfoRendererBlockShape::Whitespace; 20],
    });

    let mut later = line(12);
    later.block_groups.push(NfoRendererBlockGroup {
        col: 30,
        blocks: vec![NfoRendererBlockShape::FullBlock; 20],
    });

    let mut earlier = line(5);
    earlier.block_groups.push(NfoRendererBlockGroup {
        col: 20,
        blocks: vec![NfoRendererBlockShape::FullBlock; 20],
    });

    let grid = grid_with_lines(
        80,
        25,
        14,
        vec![later, whitespace, duplicates, earlier, out_of_bounds],
    );

    assert_eq!(first_dense_block_row(&grid), Some(5));
}

#[test]
fn empty_whitespace_and_links_only_grids_generate_no_backdrop() {
    let empty = NfoRendererGrid {
        width: 80,
        height: 25,
        lines: Vec::new(),
        has_blocks: false,
        id: 1,
    };
    assert!(visible_bounds(&empty).is_none());

    let mut links_only = line(4);
    links_only.links.push(NfoRendererLink {
        col: 4,
        text: "https://infekt.ws".into(),
        url: "https://infekt.ws".into(),
    });
    let links_only = grid_with_line(80, 25, 2, links_only);
    assert!(visible_bounds(&links_only).is_none());

    let mut whitespace = line(4);
    whitespace.text_flights.push(NfoRendererTextFlight {
        col: 4,
        text: "   \t".into(),
    });
    let whitespace = grid_with_line(80, 25, 3, whitespace);
    assert!(visible_bounds(&whitespace).is_none());
}

#[test]
fn stale_results_are_rejected_without_replacing_the_current_image() {
    let first_grid = single_block_grid(NfoRendererBlockShape::FullBlock);
    let mut second_grid = first_grid.clone();
    second_grid.id += 1;
    let mut state = NfoBackdrop::<u32>::default();

    let first = request(&mut state, &first_grid).unwrap();
    let first_key = first.key();
    let first_generation = first.generation();
    let first_image = BackdropImage::new(first_key, first_generation, 1);
    let second = request(&mut state, &second_grid).unwrap();
    let second_key = second.key();
    let second_generation = second.generation();
    let second_image = BackdropImage::new(second_key, second_generation, 2);

    assert!(!state.accept_result(first_key, first_generation, Some(first_image)));
    assert!(state.current_handle().is_none());
    assert!(state.accept_result(second_key, second_generation, Some(second_image)));
    assert!(state.current_handle().is_some());
    assert!(request(&mut state, &second_grid).is_none());
}

#[test]
fn source_invalidation_forces_same_key_regeneration_and_rejects_old_work() {
    let grid = single_block_grid(NfoRendererBlockShape::FullBlock);
    let mut state = NfoBackdrop::<u32>::default();
    let first = request(&mut state, &grid).unwrap();
    let first_key = first.key();
    let first_generation = first.generation();
    let first_image = BackdropImage::new(first_key, first_generation, 1);

    state.invalidate_source();
    let second = request(&mut state, &grid).unwrap();

    assert_eq!(second.key(), first_key);
    assert_ne!(second.generation(), first_generation);
    assert!(!state.accept_result(first_key, first_generation, Some(first_image)));
    assert!(state.current_handle().is_none());
}

#[test]
fn accepted_image_is_shown_until_the_next_request() {
    let grid = single_block_grid(NfoRendererBlockShape::FullBlock);
    let mut state = NfoBackdrop::<u32>::new();
    let job = request(&mut state, &grid).unwrap();
    assert_eq!(job.generation(), 1);
    assert_eq!(job.grid.id, grid.id);

    assert!(state.accept_result(
        job.key(),
        job.generation(),
        Some(BackdropImage::new(job.key(), job.generation(), 42))
    ));
    assert_eq!(state.current_handle(), Some(&42));

    let mut other = grid.clone();
    other.id = 8;
    assert!(request(&mut state, &other).is_some());
    assert_eq!(state.current_handle(), None);
}

#[test]
fn accepted_empty_or_mismatched_result_shows_nothing() {
    let grid = single_block_grid(NfoRendererBlockShape::FullBlock);
    let mut state = NfoBackdrop::<u32>::new();
    let job = request(&mut state, &grid).unwrap();

    assert!(state.accept_result(job.key(), job.generation(), None));
    assert_eq!(state.current_handle(), None);

    let foreign = BackdropImage::new(job.key(), job.generation().wrapping_add(5), 3);
    assert!(state.accept_result(job.key(), job.generation(), Some(foreign)));
    assert_eq!(state.current_handle(), None);
}

#[test]
fn missing_grid_clears_the_backdrop() {
    let grid = single_block_grid(NfoRendererBlockShape::FullBlock);
    let mut state = NfoBackdrop::<u32>::new();
    let job = request(&mut state, &grid).unwrap();
    assert!(state.accept_result(
        job.key(),
        job.generation(),
        Some(BackdropImage::new(job.key(), job.generation(), 5))
    ));

    assert!(state
        .request(None, BACKGROUND, TEXT, ART, RATIO_MILLI)
        .is_none());
    assert_eq!(state.current_handle(), None);
    // The same grid is requested afresh afterwards.
    let again = request(&mut state, &grid).unwrap();
    assert_eq!(again.generation(), 3);
}

#[test]
fn bounds_are_clipped_to_the_grid_and_measure_their_extent() {
    let mut corner = line(0);
    corner.block_groups.push(NfoRendererBlockGroup {
        col: 0,
        blocks: vec![NfoRendererBlockShape::LowerHalf],
    });
    let mut far = line(9);
    far.text_flights.push(NfoRendererTextFlight {
        col: 8,
        text: "x y".into(),
    });
    let grid = grid_with_lines(10, 10, 30, vec![corner, far]);
    let bounds = visible_bounds(&grid).unwrap();

    assert_eq!(
        bounds,
        ContentBounds {
            left: 0,
            top: 0,
            right: 10,
            bottom: 10,
            content_top: 0,
        }
    );
    assert_eq!(bounds.width(), 10);
    assert_eq!(bounds.height(), 10);

    let inverted = ContentBounds {
        left: 5,
        top: 7,
        right: 3,
        bottom: 2,
        content_top: 0,
    };
    assert_eq!(inverted.width(), 0);
    assert_eq!(inverted.height(), 0);
}

#[test]
fn cells_outside_the_grid_and_invisible_blocks_are_not_ink() {
    let mut content = line(4);
    content.block_groups.push(NfoRendererBlockGroup {
        col: 18,
        blocks: vec![
            NfoRendererBlockShape::NoBlock,
            NfoRendererBlockShape::FullBlockDarkShade,
            NfoRendererBlockShape::FullBlock,
            NfoRendererBlockShape::FullBlock,
        ],
    });
    let mut below = line(20);
    below.text_flights.push(NfoRendererTextFlight {
        col: 1,
        text: "beyond the last row".into(),
    });
    let grid = grid_with_lines(20, 10, 31, vec![content, below]);

    assert_eq!(
        visible_bounds(&grid),
        Some(ContentBounds {
            left: 17,
            top: 2,
            right: 20,
            bottom: 7,
            content_top: 0,
        })
    );

    let zero_width = grid_with_lines(0, 10, 32, Vec::new());
    assert!(visible_bounds(&zero_width).is_none());
}

#[test]
fn duplicate_columns_do_not_make_a_row_dense() {
    let mut row = line(3);
    for _ in 0..5 {
        row.block_groups.push(NfoRendererBlockGroup {
            col: 2,
            blocks: vec![NfoRendererBlockShape::FullBlock; 19],
        });
    }
    let mut dense = line(6);
    dense.block_groups.push(NfoRendererBlockGroup {
        col: 2,
        blocks: vec![NfoRendererBlockShape::FullBlock; 19],
    });
    dense.block_groups.push(NfoRendererBlockGroup {
        col: 40,
        blocks: vec![NfoRendererBlockShape::BlackSquareSmall],
    });
    let grid = grid_with_lines(60, 10, 33, vec![row, dense]);

    assert_eq!(first_dense_block_row(&grid), Some(6));
    assert_eq!(visible_bounds(&grid).unwrap().content_top, 6);
}

#[test]
fn refused_result_keeps_the_image_shown() {
    let grid = single_block_grid(NfoRendererBlockShape::FullBlock);
    let mut state = NfoBackdrop::<u32>::new();
    let job = request(&mut state, &grid).unwrap();
    assert!(state.accept_result(
        job.key(),
        job.generation(),
        Some(BackdropImage::new(job.key(), job.generation(), 11))
    ));

    let late = BackdropImage::new(job.key(), job.generation() + 1, 12);
    assert!(!state.accept_result(job.key(), job.generation() + 1, Some(late)));
    assert_eq!(state.current_handle(), Some(&11));
    assert!(request(&mut state, &grid).is_none());
    assert_eq!(state.current_handle(), Some(&11));
}

#[test]
fn jobs_carry_a_copy_of_the_grid() {
    let mut content = line(2);
    content.text_flights.push(NfoRendererTextFlight {
        col: 1,
        text: "copy me".into(),
    });
    content.links.push(NfoRendererLink {
        col: 9,
        text: "link".into(),
        url: "https://example.org".into(),
    });
    let grid = grid_with_line(20, 5, 40, content);
    let mut state = NfoBackdrop::<u32>::new();
    let job = request(&mut state, &grid).unwrap();

    assert_eq!(job.grid.width, 20);
    assert_eq!(job.grid.height, 5);
    assert_eq!(job.grid.lines.len(), 1);
    assert_eq!(job.grid.lines[0].text_flights[0].text, "copy me");
    assert_eq!(job.grid.lines[0].links[0].url, "https://example.org");
    assert_eq!(visible_bounds(&job.grid), visible_bounds(&grid));
}
