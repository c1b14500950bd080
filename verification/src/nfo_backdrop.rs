//! The ambient backdrop behind an NFO: which part of the grid it shows, and
//! the bookkeeping that keeps a late, stale image from replacing a newer one.

use vstd::prelude::*;

use crate::folder_browser::{advance, next_generation};
use crate::renderer_grid::{
    is_visible_block, is_whitespace, same_grid, spec_is_visible_block, spec_is_whitespace,
    NfoRendererBlockGroup, NfoRendererGrid, NfoRendererLine, NfoRendererTextFlight,
};

verus! {

/// Version of the way backdrop pixels are computed; part of every key.
pub const ALGORITHM_VERSION: u8 = 8;

/// Cells of margin kept around the visible content.
pub const CROP_MARGIN_CELLS: usize = 2;

/// Distinct visible block columns that make a row the start of the art.
pub const LEADING_ART_BLOCK_THRESHOLD: usize = 20;

// ---------------------------------------------------------------------------
// What the grid shows
// ---------------------------------------------------------------------------

/// Column `col` holds a visible block of `group`, inside a grid `width` wide.
pub open spec fn group_ink_at(group: NfoRendererBlockGroup, width: int, col: int) -> bool {
    &&& group.col <= col < width
    &&& col - group.col < group.blocks@.len()
    &&& spec_is_visible_block(group.blocks@[col - group.col])
}

/// Column `col` holds a character of `flight` that is not whitespace, inside
/// a grid `width` wide.
pub open spec fn flight_ink_at(flight: NfoRendererTextFlight, width: int, col: int) -> bool {
    &&& flight.col <= col < width
    &&& col - flight.col < flight.text@.len()
    &&& !spec_is_whitespace(flight.text@[col - flight.col])
}

/// Column `col` of `line` holds a visible block.
pub open spec fn line_block_ink(line: NfoRendererLine, width: int, col: int) -> bool {
    exists|g: int|
        0 <= g < line.block_groups@.len() && group_ink_at(#[trigger] line.block_groups@[g], width, col)
}

/// Column `col` of `line` holds a character that is not whitespace.
pub open spec fn line_text_ink(line: NfoRendererLine, width: int, col: int) -> bool {
    exists|f: int|
        0 <= f < line.text_flights@.len() && flight_ink_at(#[trigger] line.text_flights@[f], width, col)
}

/// Column `col` of `line` is painted: a visible block or ordinary text.
/// Links are not part of the backdrop.
pub open spec fn line_ink(line: NfoRendererLine, width: int, col: int) -> bool {
    line_block_ink(line, width, col) || line_text_ink(line, width, col)
}

/// At least the threshold number of distinct columns of `line` hold a
/// visible block.
pub open spec fn dense_line(line: NfoRendererLine, width: int) -> bool {
    exists|cols: Seq<usize>|
        #![trigger cols.no_duplicates()]
        cols.len() == LEADING_ART_BLOCK_THRESHOLD && cols.no_duplicates() && forall|i: int|
            0 <= i < cols.len() ==> line_block_ink(line, width, #[trigger] cols[i] as int)
}

/// Row `row` of the grid is a line inside the grid with dense block art.
pub open spec fn is_dense_row(grid: NfoRendererGrid, row: int) -> bool {
    exists|l: int|
        0 <= l < grid.lines@.len() && #[trigger] grid.lines@[l].row == row && row < grid.height
            && dense_line(grid.lines@[l], grid.width as int)
}

/// `row` is the first row of dense block art.
pub open spec fn is_first_dense_row(grid: NfoRendererGrid, row: int) -> bool {
    is_dense_row(grid, row) && forall|other: int| #[trigger] is_dense_row(grid, other) ==> row <= other
}

/// Where the art starts: the first dense row, or the top of the grid when
/// no row is dense.
pub open spec fn content_top_of(grid: NfoRendererGrid) -> int {
    if exists|row: int| is_first_dense_row(grid, row) {
        choose|row: int| is_first_dense_row(grid, row)
    } else {
        0
    }
}

/// The cell at (`col`, `row`) is painted and lies at or below `content_top`.
pub open spec fn grid_ink_at(grid: NfoRendererGrid, content_top: int, col: int, row: int) -> bool {
    exists|l: int|
        0 <= l < grid.lines@.len() && #[trigger] grid.lines@[l].row == row && content_top <= row
            < grid.height && line_ink(grid.lines@[l], grid.width as int, col)
}

// ---------------------------------------------------------------------------
// Bounds
// ---------------------------------------------------------------------------

/// The part of the grid that the backdrop shows: columns `left..right`, rows
/// `top..bottom`, of which only the rows from `content_top` on carry ink.
#[derive(Debug, Clone, Copy, PartialEq, Eq, Structural)]
pub struct ContentBounds {
    pub left: usize,
    pub top: usize,
    pub right: usize,
    pub bottom: usize,
    pub content_top: usize,
}

impl ContentBounds {
    /// Columns covered; zero when `right` is not past `left`.
    pub fn width(self) -> (columns: usize)
        ensures
            columns == (if self.right >= self.left { self.right - self.left } else { 0 }),
    {
        self.right.saturating_sub(self.left)
    }

    /// Rows covered; zero when `bottom` is not past `top`.
    pub fn height(self) -> (rows: usize)
        ensures
            rows == (if self.bottom >= self.top { self.bottom - self.top } else { 0 }),
    {
        self.bottom.saturating_sub(self.top)
    }

    /// Whether the cell lies inside the bounds and not above `content_top`.
    pub fn contains(self, col: usize, row: usize) -> (inside: bool)
        ensures
            inside == (self.left <= col < self.right && self.top <= row < self.bottom
                && row >= self.content_top),
    {
        col >= self.left && col < self.right && row >= self.top && row < self.bottom && row
            >= self.content_top
    }
}

// ---------------------------------------------------------------------------
// Where the art starts
// ---------------------------------------------------------------------------

/// Whether `cols` holds `col`.
fn holds_col(cols: &Vec<usize>, col: usize) -> (found: bool)
    ensures
        found == cols@.contains(col),
{
    let mut i: usize = 0;
    while i < cols.len()
        invariant
            i <= cols.len(),
            forall|j: int| 0 <= j < i ==> cols@[j] != col,
        decreases cols.len() - i,
    {
        if cols[i] == col {
            return true;
        }
        i = i + 1;
    }
    false
}

/// A sequence without duplicates, all of whose items lie in `within`, is no
/// longer than `within`.
proof fn lemma_distinct_items_fit(items: Seq<usize>, within: Seq<usize>)
    requires
        items.no_duplicates(),
        forall|i: int| 0 <= i < items.len() ==> within.contains(#[trigger] items[i]),
    ensures
        items.len() <= within.len(),
{
    items.unique_seq_to_set();
    within.lemma_cardinality_of_set();
    assert(items.to_set().subset_of(within.to_set())) by {
        assert forall|x: usize| items.to_set().contains(x) implies within.to_set().contains(x) by {
            let i = choose|i: int| 0 <= i < items.len() && items[i] == x;
            assert(within.contains(items[i]));
        }
    }
    vstd::set_lib::lemma_len_subset(items.to_set(), within.to_set());
}

/// Column `col` holds a visible block of one of the first `g` groups of
/// `line`, or of the first `k` blocks of group `g`.
spec fn blocks_seen(line: NfoRendererLine, width: int, col: int, g: int, k: int) -> bool {
    (exists|h: int| 0 <= h < g && group_ink_at(#[trigger] line.block_groups@[h], width, col)) || (
    g < line.block_groups@.len() && group_ink_at(line.block_groups@[g], width, col) && col
        - line.block_groups@[g].col < k)
}

/// Whether `line` is dense, counting its distinct visible block columns
/// inside the grid until the threshold is reached.
fn line_is_dense(line: &NfoRendererLine, width: usize) -> (dense: bool)
    ensures
        dense == dense_line(*line, width as int),
{
    let mut cols: Vec<usize> = Vec::new();
    let mut g: usize = 0;
    while g < line.block_groups.len()
        invariant
            g <= line.block_groups.len(),
            cols.len() < LEADING_ART_BLOCK_THRESHOLD,
            cols@.no_duplicates(),
            forall|c: int|
                #![trigger cols@.contains(c as usize)]
                #![trigger blocks_seen(*line, width as int, c, g as int, 0)]
                0 <= c <= usize::MAX ==> (cols@.contains(c as usize) <==> blocks_seen(
                    *line,
                    width as int,
                    c,
                    g as int,
                    0,
                )),
        decreases line.block_groups.len() - g,
    {
        let group = &line.block_groups[g];
        let mut offset: usize = 0;
        while offset < group.blocks.len()
            invariant
                g < line.block_groups.len(),
                *group == line.block_groups@[g as int],
                offset <= group.blocks.len(),
                cols.len() < LEADING_ART_BLOCK_THRESHOLD,
                cols@.no_duplicates(),
                forall|c: int|
                    #![trigger cols@.contains(c as usize)]
                    #![trigger blocks_seen(*line, width as int, c, g as int, offset as int)]
                    0 <= c <= usize::MAX ==> (cols@.contains(c as usize) <==> blocks_seen(
                        *line,
                        width as int,
                        c,
                        g as int,
                        offset as int,
                    )),
            decreases group.blocks.len() - offset,
        {
            let ghost before = cols@;
            let ghost at: int = group.col + offset;
            let in_grid = offset < width && group.col < width - offset;
            if in_grid && is_visible_block(&group.blocks[offset]) {
                let col = group.col + offset;
                proof {
                    assert(group_ink_at(line.block_groups@[g as int], width as int, at));
                }
                let held = holds_col(&cols, col);
                if !held {
                    cols.push(col);
                    proof {
                        assert(cols@ == before.push(col));
                    }
                    if cols.len() >= LEADING_ART_BLOCK_THRESHOLD {
                        proof {
                            assert forall|i: int| 0 <= i < cols@.len() implies line_block_ink(
                                *line,
                                width as int,
                                #[trigger] cols@[i] as int,
                            ) by {
                                let x = cols@[i];
                                if i == cols@.len() - 1 {
                                    assert(x == col);
                                } else {
                                    assert(before[i] == x);
                                    assert(before.contains(x));
                                    assert(blocks_seen(
                                        *line,
                                        width as int,
                                        x as int,
                                        g as int,
                                        offset as int,
                                    ));
                                }
                            }
                            assert(cols@.len() == LEADING_ART_BLOCK_THRESHOLD);
                            assert(cols@.no_duplicates());
                        }
                        return true;
                    }
                }
                proof {
                    if held {
                        assert(cols@ == before);
                    } else {
                        assert(cols@ == before.push(col));
                        assert(cols@[before.len() as int] == col);
                    }
                    assert(cols@.contains(col));
                    assert forall|c: int| 0 <= c <= usize::MAX implies (#[trigger] cols@.contains(
                        c as usize,
                    ) <==> blocks_seen(*line, width as int, c, g as int, offset + 1)) by {
                        assert(blocks_seen(*line, width as int, c, g as int, offset as int)
                            <==> before.contains(c as usize));
                        if c != at && !held {
                            if cols@.contains(c as usize) {
                                let j = choose|j: int| 0 <= j < cols@.len() && cols@[j] == c as usize;
                                assert(j < before.len());
                                assert(before[j] == c as usize);
                            }
                            if before.contains(c as usize) {
                                let j = choose|j: int| 0 <= j < before.len() && before[j] == c as usize;
                                assert(cols@[j] == c as usize);
                            }
                        }
                    }
                }
            } else {
                proof {
                    assert(!group_ink_at(line.block_groups@[g as int], width as int, at));
                    assert forall|c: int| 0 <= c <= usize::MAX implies (#[trigger] cols@.contains(
                        c as usize,
                    ) <==> blocks_seen(*line, width as int, c, g as int, offset + 1)) by {
                        assert(blocks_seen(*line, width as int, c, g as int, offset as int)
                            <==> before.contains(c as usize));
                    }
                }
            }
            offset = offset + 1;
        }
        proof {
            assert forall|c: int| 0 <= c <= usize::MAX implies (#[trigger] cols@.contains(
                c as usize,
            ) <==> blocks_seen(*line, width as int, c, g + 1, 0)) by {
                assert(cols@.contains(c as usize) <==> blocks_seen(
                    *line,
                    width as int,
                    c,
                    g as int,
                    offset as int,
                ));
                if blocks_seen(*line, width as int, c, g as int, offset as int) {
                    if !(exists|h: int|
                        0 <= h < g && group_ink_at(
                            #[trigger] line.block_groups@[h],
                            width as int,
                            c,
                        )) {
                        assert(group_ink_at(line.block_groups@[g as int], width as int, c));
                    }
                }
                if blocks_seen(*line, width as int, c, g + 1, 0) {
                    let h = choose|h: int|
                        0 <= h < g + 1 && group_ink_at(
                            #[trigger] line.block_groups@[h],
                            width as int,
                            c,
                        );
                    if h == g {
                        assert(blocks_seen(*line, width as int, c, g as int, offset as int));
                    }
                }
            }
        }
        g = g + 1;
    }
    proof {
        if dense_line(*line, width as int) {
            let witness = choose|w: Seq<usize>|
                #![trigger w.no_duplicates()]
                w.len() == LEADING_ART_BLOCK_THRESHOLD && w.no_duplicates() && forall|i: int|
                    0 <= i < w.len() ==> line_block_ink(*line, width as int, #[trigger] w[i] as int);
            assert forall|i: int| 0 <= i < witness.len() implies cols@.contains(
                #[trigger] witness[i],
            ) by {
                assert(line_block_ink(*line, width as int, witness[i] as int));
                let x = witness[i] as int;
                assert(blocks_seen(*line, width as int, x, g as int, 0));
            }
            lemma_distinct_items_fit(witness, cols@);
        }
    }
    false
}

/// Row `row` is dense in one of the first `l` lines of the grid.
spec fn dense_row_among(grid: NfoRendererGrid, row: int, l: int) -> bool {
    exists|m: int|
        0 <= m < l && #[trigger] grid.lines@[m].row == row && row < grid.height && dense_line(
            grid.lines@[m],
            grid.width as int,
        )
}

/// The first row of dense block art: the least row of a line inside the grid
/// with at least the threshold number of distinct visible block columns, or
/// `None` when there is no such line.
pub fn first_dense_block_row(grid: &NfoRendererGrid) -> (first: Option<usize>)
    ensures
        match first {
            Some(row) => is_first_dense_row(*grid, row as int),
            None => forall|row: int| !is_dense_row(*grid, row),
        },
        content_top_of(*grid) == match first {
            Some(row) => row as int,
            None => 0,
        },
{
    let mut best: Option<usize> = None;
    let mut l: usize = 0;
    while l < grid.lines.len()
        invariant
            l <= grid.lines.len(),
            forall|row: int|
                #[trigger] dense_row_among(*grid, row, l as int) ==> (best is Some && best->0 <= row),
            best matches Some(b) ==> dense_row_among(*grid, b as int, l as int),
        decreases grid.lines.len() - l,
    {
        let line = &grid.lines[l];
        let ghost old_best = best;
        let dense = line.row < grid.height && line_is_dense(line, grid.width);
        if dense {
            let better = match best {
                Some(b) => line.row < b,
                None => true,
            };
            if better {
                best = Some(line.row);
            }
        }
        proof {
            assert forall|row: int| #[trigger]
                dense_row_among(*grid, row, l + 1) implies (best is Some && best->0 <= row) by {
                let m = choose|m: int|
                    0 <= m < l + 1 && #[trigger] grid.lines@[m].row == row && row < grid.height
                        && dense_line(grid.lines@[m], grid.width as int);
                if m < l {
                    assert(dense_row_among(*grid, row, l as int));
                }
            }
            if let Some(b) = best {
                if old_best == best {
                    let m = choose|m: int|
                        0 <= m < l && #[trigger] grid.lines@[m].row == b && b < grid.height
                            && dense_line(grid.lines@[m], grid.width as int);
                    assert(grid.lines@[m].row == b);
                } else {
                    assert(grid.lines@[l as int].row == b);
                }
                assert(dense_row_among(*grid, b as int, l + 1));
            }
        }
        l = l + 1;
    }
    proof {
        match best {
            Some(b) => {
                assert(is_dense_row(*grid, b as int)) by {
                    let m = choose|m: int|
                        0 <= m < l && #[trigger] grid.lines@[m].row == b && b < grid.height
                            && dense_line(grid.lines@[m], grid.width as int);
                    assert(grid.lines@[m].row == b);
                }
                assert forall|other: int| #[trigger] is_dense_row(*grid, other) implies b <= other by {
                    let m = choose|m: int|
                        0 <= m < grid.lines@.len() && #[trigger] grid.lines@[m].row == other && other
                            < grid.height && dense_line(grid.lines@[m], grid.width as int);
                    assert(dense_row_among(*grid, other, l as int));
                }
                assert(is_first_dense_row(*grid, b as int));
                assert(content_top_of(*grid) == b as int) by {
                    let chosen = choose|row: int| is_first_dense_row(*grid, row);
                    assert(is_first_dense_row(*grid, chosen));
                }
            },
            None => {
                assert forall|row: int| !is_dense_row(*grid, row) by {
                    if is_dense_row(*grid, row) {
                        let m = choose|m: int|
                            0 <= m < grid.lines@.len() && #[trigger] grid.lines@[m].row == row && row
                                < grid.height && dense_line(grid.lines@[m], grid.width as int);
                        assert(dense_row_among(*grid, row, l as int));
                    }
                }
                assert(!exists|row: int| is_first_dense_row(*grid, row));
            },
        }
    }
    best
}

// ---------------------------------------------------------------------------
// The extent of the ink
// ---------------------------------------------------------------------------

/// `col` is the least column of a painted cell at or below `content_top`.
pub open spec fn is_least_ink_col(grid: NfoRendererGrid, content_top: int, col: int) -> bool {
    (exists|row: int| #[trigger] grid_ink_at(grid, content_top, col, row)) && forall|c: int, r: int|
        #[trigger] grid_ink_at(grid, content_top, c, r) ==> col <= c
}

/// `col` is the greatest column of a painted cell at or below `content_top`.
pub open spec fn is_greatest_ink_col(grid: NfoRendererGrid, content_top: int, col: int) -> bool {
    (exists|row: int| #[trigger] grid_ink_at(grid, content_top, col, row)) && forall|c: int, r: int|
        #[trigger] grid_ink_at(grid, content_top, c, r) ==> c <= col
}

/// `row` is the least row of a painted cell at or below `content_top`.
pub open spec fn is_least_ink_row(grid: NfoRendererGrid, content_top: int, row: int) -> bool {
    (exists|col: int| #[trigger] grid_ink_at(grid, content_top, col, row)) && forall|c: int, r: int|
        #[trigger] grid_ink_at(grid, content_top, c, r) ==> row <= r
}

/// `row` is the greatest row of a painted cell at or below `content_top`.
pub open spec fn is_greatest_ink_row(grid: NfoRendererGrid, content_top: int, row: int) -> bool {
    (exists|col: int| #[trigger] grid_ink_at(grid, content_top, col, row)) && forall|c: int, r: int|
        #[trigger] grid_ink_at(grid, content_top, c, r) ==> r <= row
}

/// Some cell at or below `content_top` is painted.
pub open spec fn has_ink(grid: NfoRendererGrid, content_top: int) -> bool {
    exists|col: int, row: int| #[trigger] grid_ink_at(grid, content_top, col, row)
}

/// `value - margin`, or zero where that would be negative.
pub open spec fn shrink(value: int, margin: int) -> int {
    if value >= margin { value - margin } else { 0 }
}

/// `value + margin + 1`, but no more than `limit`.
pub open spec fn grow_within(value: int, margin: int, limit: int) -> int {
    if value + margin + 1 <= limit { value + margin + 1 } else { limit }
}

/// The bounds around the ink of `grid` below the start of its art: the
/// least and greatest painted columns and rows widened by the margin,
/// clipped to the grid.
pub open spec fn bounds_around_ink(grid: NfoRendererGrid, bounds: ContentBounds) -> bool {
    let top = content_top_of(grid);
    let margin = CROP_MARGIN_CELLS as int;
    &&& bounds.content_top == top
    &&& exists|c: int| is_least_ink_col(grid, top, c) && bounds.left == shrink(c, margin)
    &&& exists|c: int|
        is_greatest_ink_col(grid, top, c) && bounds.right == grow_within(c, margin, grid.width as int)
    &&& exists|r: int| is_least_ink_row(grid, top, r) && bounds.top == shrink(r, margin)
    &&& exists|r: int|
        is_greatest_ink_row(grid, top, r) && bounds.bottom == grow_within(r, margin, grid.height as int)
}

/// The least and greatest column and row of the cells seen so far.
struct InkExtent {
    has: bool,
    min_col: usize,
    min_row: usize,
    max_col: usize,
    max_row: usize,
}

/// `extent` describes exactly the cells for which `seen` holds.
spec fn extent_of(extent: InkExtent, seen: spec_fn(int, int) -> bool) -> bool {
    &&& extent.has == (exists|c: int, r: int| #[trigger] seen(c, r))
    &&& extent.has ==> {
        &&& (exists|r: int| #[trigger] seen(extent.min_col as int, r))
        &&& (exists|r: int| #[trigger] seen(extent.max_col as int, r))
        &&& (exists|c: int| #[trigger] seen(c, extent.min_row as int))
        &&& (exists|c: int| #[trigger] seen(c, extent.max_row as int))
        &&& forall|c: int, r: int| #[trigger]
            seen(c, r) ==> extent.min_col <= c <= extent.max_col && extent.min_row <= r
                <= extent.max_row
    }
}

/// `seen`, and the cell (`col`, `row`) besides.
spec fn with_cell(seen: spec_fn(int, int) -> bool, col: int, row: int) -> spec_fn(int, int) -> bool {
    |c: int, r: int| seen(c, r) || (c == col && r == row)
}

/// Takes the cell (`col`, `row`) into the extent.
fn include_cell(extent: &mut InkExtent, col: usize, row: usize, Ghost(seen): Ghost<spec_fn(int, int) -> bool>)
    requires
        extent_of(*old(extent), seen),
    ensures
        extent_of(*final(extent), with_cell(seen, col as int, row as int)),
{
    let ghost before = *extent;
    let ghost next = with_cell(seen, col as int, row as int);
    if !extent.has {
        *extent = InkExtent { has: true, min_col: col, min_row: row, max_col: col, max_row: row };
        proof {
            assert(next(col as int, row as int));
            assert forall|c: int, r: int| #[trigger] next(c, r) implies c == col && r == row by {
                if seen(c, r) {
                    assert(before.has);
                }
            }
        }
    } else {
        if col < extent.min_col {
            extent.min_col = col;
        }
        if row < extent.min_row {
            extent.min_row = row;
        }
        if col > extent.max_col {
            extent.max_col = col;
        }
        if row > extent.max_row {
            extent.max_row = row;
        }
        proof {
            assert(next(col as int, row as int));
            let r1 = choose|r: int| #[trigger] seen(before.min_col as int, r);
            let r2 = choose|r: int| #[trigger] seen(before.max_col as int, r);
            let c1 = choose|c: int| #[trigger] seen(c, before.min_row as int);
            let c2 = choose|c: int| #[trigger] seen(c, before.max_row as int);
            assert(next(before.min_col as int, r1));
            assert(next(before.max_col as int, r2));
            assert(next(c1, before.min_row as int));
            assert(next(c2, before.max_row as int));
            if extent.min_col == col {
                assert(next(extent.min_col as int, row as int));
            } else {
                assert(next(extent.min_col as int, r1));
            }
            if extent.max_col == col {
                assert(next(extent.max_col as int, row as int));
            } else {
                assert(next(extent.max_col as int, r2));
            }
            if extent.min_row == row {
                assert(next(col as int, extent.min_row as int));
            } else {
                assert(next(c1, extent.min_row as int));
            }
            if extent.max_row == row {
                assert(next(col as int, extent.max_row as int));
            } else {
                assert(next(c2, extent.max_row as int));
            }
        }
    }
}

/// `seen`, and the visible blocks among the first `k` cells of `group`
/// placed on row `row`.
spec fn with_group_prefix(
    seen: spec_fn(int, int) -> bool,
    group: NfoRendererBlockGroup,
    row: int,
    width: int,
    k: int,
) -> spec_fn(int, int) -> bool {
    |c: int, r: int| seen(c, r) || (r == row && group_ink_at(group, width, c) && c - group.col < k)
}

/// Takes the visible blocks of `group`, on row `row`, into the extent.
fn include_group(
    extent: &mut InkExtent,
    group: &NfoRendererBlockGroup,
    row: usize,
    width: usize,
    Ghost(seen): Ghost<spec_fn(int, int) -> bool>,
)
    requires
        extent_of(*old(extent), seen),
    ensures
        extent_of(
            *final(extent),
            with_group_prefix(seen, *group, row as int, width as int, group.blocks@.len() as int),
        ),
{
    let mut offset: usize = 0;
    assert(with_group_prefix(seen, *group, row as int, width as int, 0) =~= seen);
    while offset < group.blocks.len()
        invariant
            offset <= group.blocks.len(),
            extent_of(*extent, with_group_prefix(seen, *group, row as int, width as int, offset as int)),
        decreases group.blocks.len() - offset,
    {
        let ghost prev = with_group_prefix(seen, *group, row as int, width as int, offset as int);
        let ghost next = with_group_prefix(seen, *group, row as int, width as int, offset + 1);
        if is_visible_block(&group.blocks[offset]) && offset < width && group.col < width - offset {
            let col = group.col + offset;
            include_cell(extent, col, row, Ghost(prev));
            assert(next =~= with_cell(prev, col as int, row as int));
        } else {
            assert(next =~= prev);
        }
        offset = offset + 1;
    }
}

/// `seen`, and the characters other than whitespace among the first `k` of
/// `flight`, placed on row `row`.
spec fn with_flight_prefix(
    seen: spec_fn(int, int) -> bool,
    flight: NfoRendererTextFlight,
    row: int,
    width: int,
    k: int,
) -> spec_fn(int, int) -> bool {
    |c: int, r: int| seen(c, r) || (r == row && flight_ink_at(flight, width, c) && c - flight.col < k)
}

/// Takes the characters of `flight` other than whitespace, on row `row`,
/// into the extent.
fn include_flight(
    extent: &mut InkExtent,
    flight: &NfoRendererTextFlight,
    row: usize,
    width: usize,
    Ghost(seen): Ghost<spec_fn(int, int) -> bool>,
)
    requires
        extent_of(*old(extent), seen),
    ensures
        extent_of(
            *final(extent),
            with_flight_prefix(seen, *flight, row as int, width as int, flight.text@.len() as int),
        ),
{
    let text = flight.text.as_str();
    let count = text.unicode_len();
    let mut offset: usize = 0;
    assert(with_flight_prefix(seen, *flight, row as int, width as int, 0) =~= seen);
    while offset < count
        invariant
            text@ == flight.text@,
            count == text@.len(),
            offset <= count,
            extent_of(*extent, with_flight_prefix(seen, *flight, row as int, width as int, offset as int)),
        decreases count - offset,
    {
        let ghost prev = with_flight_prefix(seen, *flight, row as int, width as int, offset as int);
        let ghost next = with_flight_prefix(seen, *flight, row as int, width as int, offset + 1);
        let character = text.get_char(offset);
        if !is_whitespace(character) && offset < width && flight.col < width - offset {
            let col = flight.col + offset;
            include_cell(extent, col, row, Ghost(prev));
            assert(next =~= with_cell(prev, col as int, row as int));
        } else {
            assert(next =~= prev);
        }
        offset = offset + 1;
    }
}

/// `seen`, and the painted cells of `line` in its first `g` block groups.
spec fn with_line_groups(seen: spec_fn(int, int) -> bool, line: NfoRendererLine, width: int, g: int) -> spec_fn(
    int,
    int,
) -> bool {
    |c: int, r: int|
        seen(c, r) || (r == line.row && exists|h: int|
            0 <= h < g && group_ink_at(#[trigger] line.block_groups@[h], width, c))
}

/// `seen`, the visible blocks of `line`, and its text in the first `f`
/// flights.
spec fn with_line_flights(seen: spec_fn(int, int) -> bool, line: NfoRendererLine, width: int, f: int) -> spec_fn(
    int,
    int,
) -> bool {
    |c: int, r: int|
        seen(c, r) || (r == line.row && (line_block_ink(line, width, c) || exists|h: int|
            0 <= h < f && flight_ink_at(#[trigger] line.text_flights@[h], width, c)))
}

/// `seen`, and the painted cells of `line`.
spec fn with_line(seen: spec_fn(int, int) -> bool, line: NfoRendererLine, width: int) -> spec_fn(
    int,
    int,
) -> bool {
    |c: int, r: int| seen(c, r) || (r == line.row && line_ink(line, width, c))
}

/// Takes the painted cells of `line` into the extent.
fn include_line(
    extent: &mut InkExtent,
    line: &NfoRendererLine,
    width: usize,
    Ghost(seen): Ghost<spec_fn(int, int) -> bool>,
)
    requires
        extent_of(*old(extent), seen),
    ensures
        extent_of(*final(extent), with_line(seen, *line, width as int)),
{
    let mut g: usize = 0;
    assert(with_line_groups(seen, *line, width as int, 0) =~= seen);
    while g < line.block_groups.len()
        invariant
            g <= line.block_groups.len(),
            extent_of(*extent, with_line_groups(seen, *line, width as int, g as int)),
        decreases line.block_groups.len() - g,
    {
        let ghost prev = with_line_groups(seen, *line, width as int, g as int);
        let group = &line.block_groups[g];
        include_group(extent, group, line.row, width, Ghost(prev));
        proof {
            let done = with_group_prefix(
                prev,
                *group,
                line.row as int,
                width as int,
                group.blocks@.len() as int,
            );
            let next = with_line_groups(seen, *line, width as int, g + 1);
            assert forall|c: int, r: int| #[trigger] next(c, r) == done(c, r) by {
                if next(c, r) && !seen(c, r) {
                    let h = choose|h: int|
                        0 <= h < g + 1 && group_ink_at(#[trigger] line.block_groups@[h], width as int, c);
                    if h < g {
                        assert(prev(c, r));
                    }
                }
                if done(c, r) && !prev(c, r) {
                    assert(group_ink_at(line.block_groups@[g as int], width as int, c));
                }
            }
            assert(next =~= done);
        }
        g = g + 1;
    }
    let mut f: usize = 0;
    proof {
        let groups = with_line_groups(seen, *line, width as int, g as int);
        let flights = with_line_flights(seen, *line, width as int, 0);
        assert forall|c: int, r: int| #[trigger] flights(c, r) == groups(c, r) by {
            if flights(c, r) && !seen(c, r) {
                assert(line_block_ink(*line, width as int, c));
                let h = choose|h: int|
                    0 <= h < line.block_groups@.len() && group_ink_at(
                        #[trigger] line.block_groups@[h],
                        width as int,
                        c,
                    );
                assert(group_ink_at(line.block_groups@[h], width as int, c));
            }
            if groups(c, r) && !seen(c, r) {
                let h = choose|h: int|
                    0 <= h < g && group_ink_at(#[trigger] line.block_groups@[h], width as int, c);
                assert(line_block_ink(*line, width as int, c));
            }
        }
        assert(flights =~= groups);
    }
    while f < line.text_flights.len()
        invariant
            f <= line.text_flights.len(),
            extent_of(*extent, with_line_flights(seen, *line, width as int, f as int)),
        decreases line.text_flights.len() - f,
    {
        let ghost prev = with_line_flights(seen, *line, width as int, f as int);
        let flight = &line.text_flights[f];
        include_flight(extent, flight, line.row, width, Ghost(prev));
        proof {
            let done = with_flight_prefix(
                prev,
                *flight,
                line.row as int,
                width as int,
                flight.text@.len() as int,
            );
            let next = with_line_flights(seen, *line, width as int, f + 1);
            assert forall|c: int, r: int| #[trigger] next(c, r) == done(c, r) by {
                if next(c, r) && !seen(c, r) && !line_block_ink(*line, width as int, c) {
                    let h = choose|h: int|
                        0 <= h < f + 1 && flight_ink_at(#[trigger] line.text_flights@[h], width as int, c);
                    if h < f {
                        assert(prev(c, r));
                    }
                }
                if done(c, r) && !prev(c, r) {
                    assert(flight_ink_at(line.text_flights@[f as int], width as int, c));
                }
            }
            assert(next =~= done);
        }
        f = f + 1;
    }
    proof {
        let flights = with_line_flights(seen, *line, width as int, f as int);
        let whole = with_line(seen, *line, width as int);
        assert forall|c: int, r: int| #[trigger] flights(c, r) == whole(c, r) by {
            if whole(c, r) && !seen(c, r) && line_text_ink(*line, width as int, c) {
                let h = choose|h: int|
                    0 <= h < line.text_flights@.len() && flight_ink_at(
                        #[trigger] line.text_flights@[h],
                        width as int,
                        c,
                    );
                assert(flight_ink_at(line.text_flights@[h], width as int, c));
            }
        }
        assert(flights =~= whole);
    }
}

/// The painted cells of the first `l` lines of the grid, on rows from
/// `content_top` to the bottom of the grid.
spec fn ink_among(grid: NfoRendererGrid, content_top: int, l: int) -> spec_fn(int, int) -> bool {
    |c: int, r: int|
        exists|m: int|
            0 <= m < l && #[trigger] grid.lines@[m].row == r && content_top <= r < grid.height
                && line_ink(grid.lines@[m], grid.width as int, c)
}

/// The cells to show: the painted blocks and text of the grid below the
/// start of its art (`content_top_of`), enclosed with a margin of
/// `CROP_MARGIN_CELLS` on every side and clipped to the grid; `None` when no
/// such cell is painted, which is always the case for an empty grid.
/// Links do not count.
pub fn visible_bounds(grid: &NfoRendererGrid) -> (bounds: Option<ContentBounds>)
    ensures
        match bounds {
            None => !has_ink(*grid, content_top_of(*grid)),
            Some(b) => has_ink(*grid, content_top_of(*grid)) && bounds_around_ink(*grid, b),
        },
{
    let content_top = match first_dense_block_row(grid) {
        Some(row) => row,
        None => 0,
    };
    let ghost top = content_top as int;
    if grid.width == 0 || grid.height == 0 {
        proof {
            if has_ink(*grid, top) {
                let (c, r) = choose|c: int, r: int| #[trigger] grid_ink_at(*grid, top, c, r);
                let m = choose|m: int|
                    0 <= m < grid.lines@.len() && #[trigger] grid.lines@[m].row == r && top <= r
                        < grid.height && line_ink(grid.lines@[m], grid.width as int, c);
                let line = grid.lines@[m];
                if line_block_ink(line, grid.width as int, c) {
                    let h = choose|h: int|
                        0 <= h < line.block_groups@.len() && group_ink_at(
                            #[trigger] line.block_groups@[h],
                            grid.width as int,
                            c,
                        );
                } else {
                    let h = choose|h: int|
                        0 <= h < line.text_flights@.len() && flight_ink_at(
                            #[trigger] line.text_flights@[h],
                            grid.width as int,
                            c,
                        );
                }
            }
        }
        return None;
    }
    let mut extent = InkExtent { has: false, min_col: 0, min_row: 0, max_col: 0, max_row: 0 };
    let mut l: usize = 0;
    assert(extent_of(extent, ink_among(*grid, top, 0)));
    while l < grid.lines.len()
        invariant
            l <= grid.lines.len(),
            top == content_top as int,
            extent_of(extent, ink_among(*grid, top, l as int)),
        decreases grid.lines.len() - l,
    {
        let ghost prev = ink_among(*grid, top, l as int);
        let ghost next = ink_among(*grid, top, l + 1);
        let line = &grid.lines[l];
        if line.row >= content_top && line.row < grid.height {
            include_line(&mut extent, line, grid.width, Ghost(prev));
            proof {
                let done = with_line(prev, *line, grid.width as int);
                assert forall|c: int, r: int| #[trigger] next(c, r) == done(c, r) by {
                    if next(c, r) {
                        let m = choose|m: int|
                            0 <= m < l + 1 && #[trigger] grid.lines@[m].row == r && top <= r
                                < grid.height && line_ink(grid.lines@[m], grid.width as int, c);
                        if m < l {
                            assert(prev(c, r));
                        }
                    }
                    if done(c, r) && !prev(c, r) {
                        assert(grid.lines@[l as int].row == r);
                    }
                }
                assert(next =~= done);
            }
        } else {
            proof {
                assert forall|c: int, r: int| #[trigger] next(c, r) == prev(c, r) by {
                    if next(c, r) {
                        let m = choose|m: int|
                            0 <= m < l + 1 && #[trigger] grid.lines@[m].row == r && top <= r
                                < grid.height && line_ink(grid.lines@[m], grid.width as int, c);
                        if m < l {
                            assert(prev(c, r));
                        }
                    }
                }
                assert(next =~= prev);
            }
        }
        l = l + 1;
    }
    let ghost all = ink_among(*grid, top, l as int);
    proof {
        assert forall|c: int, r: int| #[trigger] all(c, r) == grid_ink_at(*grid, top, c, r) by {
            if grid_ink_at(*grid, top, c, r) {
                let m = choose|m: int|
                    0 <= m < grid.lines@.len() && #[trigger] grid.lines@[m].row == r && top <= r
                        < grid.height && line_ink(grid.lines@[m], grid.width as int, c);
                assert(grid.lines@[m].row == r);
            }
        }
    }
    if !extent.has {
        proof {
            if has_ink(*grid, top) {
                let (c, r) = choose|c: int, r: int| #[trigger] grid_ink_at(*grid, top, c, r);
                assert(all(c, r));
            }
        }
        return None;
    }
    let margin = CROP_MARGIN_CELLS;
    let right_edge = extent.max_col.saturating_add(margin + 1);
    let bottom_edge = extent.max_row.saturating_add(margin + 1);
    let bounds = ContentBounds {
        left: extent.min_col.saturating_sub(margin),
        top: extent.min_row.saturating_sub(margin),
        right: if right_edge < grid.width { right_edge } else { grid.width },
        bottom: if bottom_edge < grid.height { bottom_edge } else { grid.height },
        content_top,
    };
    proof {
        let r1 = choose|r: int| #[trigger] all(extent.min_col as int, r);
        let r2 = choose|r: int| #[trigger] all(extent.max_col as int, r);
        let c1 = choose|c: int| #[trigger] all(c, extent.min_row as int);
        let c2 = choose|c: int| #[trigger] all(c, extent.max_row as int);
        assert(grid_ink_at(*grid, top, extent.min_col as int, r1));
        assert(grid_ink_at(*grid, top, extent.max_col as int, r2));
        assert(grid_ink_at(*grid, top, c1, extent.min_row as int));
        assert(grid_ink_at(*grid, top, c2, extent.max_row as int));
        assert forall|c: int, r: int| #[trigger] grid_ink_at(*grid, top, c, r) implies extent.min_col
            <= c <= extent.max_col && extent.min_row <= r <= extent.max_row && c < grid.width && r
            < grid.height by {
            assert(all(c, r));
            let m = choose|m: int|
                0 <= m < grid.lines@.len() && #[trigger] grid.lines@[m].row == r && top <= r
                    < grid.height && line_ink(grid.lines@[m], grid.width as int, c);
            let line = grid.lines@[m];
            if line_block_ink(line, grid.width as int, c) {
                let h = choose|h: int|
                    0 <= h < line.block_groups@.len() && group_ink_at(
                        #[trigger] line.block_groups@[h],
                        grid.width as int,
                        c,
                    );
            } else {
                let h = choose|h: int|
                    0 <= h < line.text_flights@.len() && flight_ink_at(
                        #[trigger] line.text_flights@[h],
                        grid.width as int,
                        c,
                    );
            }
        }
        assert(is_least_ink_col(*grid, top, extent.min_col as int));
        assert(is_greatest_ink_col(*grid, top, extent.max_col as int));
        assert(is_least_ink_row(*grid, top, extent.min_row as int));
        assert(is_greatest_ink_row(*grid, top, extent.max_row as int));
        assert(has_ink(*grid, top));
        assert(top == content_top_of(*grid));
        let margin_i = CROP_MARGIN_CELLS as int;
        assert(bounds.left == shrink(extent.min_col as int, margin_i));
        assert(bounds.top == shrink(extent.min_row as int, margin_i));
        assert(bounds.right == grow_within(extent.max_col as int, margin_i, grid.width as int));
        assert(bounds.bottom == grow_within(extent.max_row as int, margin_i, grid.height as int));
        assert(bounds_around_ink(*grid, bounds));
    }
    Some(bounds)
}

// ---------------------------------------------------------------------------
// Requests and results
// ---------------------------------------------------------------------------

/// An opaque colour, one byte per channel.
#[derive(Debug, Clone, Copy, PartialEq, Eq, Hash, Structural)]
pub struct Rgb8 {
    pub red: u8,
    pub green: u8,
    pub blue: u8,
}

/// A colour with opacity, one byte per channel.
#[derive(Debug, Clone, Copy, PartialEq, Eq, Hash, Structural)]
pub struct Rgba8 {
    pub red: u8,
    pub green: u8,
    pub blue: u8,
    pub alpha: u8,
}

/// Everything that can change the pixels of a backdrop. Renderer settings
/// that do not appear here (zoom, font, glow, links, ANSI presentation) do
/// not invalidate it.
#[derive(Debug, Clone, Copy, PartialEq, Eq, Hash, Structural)]
pub struct BackdropKey {
    pub algorithm_version: u8,
    pub grid_id: u64,
    pub background_color: Rgb8,
    pub text_color: Rgba8,
    pub art_color: Rgba8,
    pub character_ratio_milli: u16,
}

impl BackdropKey {
    /// The key of `grid` drawn with these colours at this character ratio
    /// (width over height, in thousandths).
    pub fn new(
        grid: &NfoRendererGrid,
        background_color: Rgb8,
        text_color: Rgba8,
        art_color: Rgba8,
        character_ratio_milli: u16,
    ) -> (key: BackdropKey)
        ensures
            key == (BackdropKey {
                algorithm_version: ALGORITHM_VERSION,
                grid_id: grid.id,
                background_color,
                text_color,
                art_color,
                character_ratio_milli,
            }),
    {
        BackdropKey {
            algorithm_version: ALGORITHM_VERSION,
            grid_id: grid.id,
            background_color,
            text_color,
            art_color,
            character_ratio_milli,
        }
    }
}

/// A generated backdrop: the image behind `handle`, made for `key` in
/// request generation `generation`.
#[derive(Debug, Clone)]
pub struct BackdropImage<H> {
    key: BackdropKey,
    generation: u64,
    handle: H,
}

impl<H> BackdropImage<H> {
    /// The key the image was made for.
    pub closed spec fn image_key(&self) -> BackdropKey {
        self.key
    }

    /// The request generation the image was made in.
    pub closed spec fn image_generation(&self) -> u64 {
        self.generation
    }

    /// The image itself.
    pub closed spec fn image_handle(&self) -> H {
        self.handle
    }

    /// The result of the request with `key` and `generation`.
    pub fn new(key: BackdropKey, generation: u64, handle: H) -> (image: Self)
        ensures
            image.image_key() == key,
            image.image_generation() == generation,
            image.image_handle() == handle,
    {
        BackdropImage { key, generation, handle }
    }

    /// The image itself.
    pub fn handle(&self) -> (handle: &H)
        ensures
            *handle == self.image_handle(),
    {
        &self.handle
    }
}

/// A job to generate the backdrop of `grid` for `key`, in request
/// generation `generation`.
#[derive(Clone)]
pub struct BackdropRequest {
    pub key: BackdropKey,
    pub generation: u64,
    pub grid: NfoRendererGrid,
}

impl BackdropRequest {
    /// The key the job generates for.
    pub fn key(&self) -> (key: BackdropKey)
        ensures
            key == self.key,
    {
        self.key
    }

    /// The request generation of the job.
    pub fn generation(&self) -> (generation: u64)
        ensures
            generation == self.generation,
    {
        self.generation
    }
}

/// What a backdrop tracker holds: the key last requested, the generation of
/// that request, and the image shown, if any.
pub struct BackdropState<H> {
    pub requested_key: Option<BackdropKey>,
    pub requested_generation: u64,
    pub image: Option<BackdropImage<H>>,
}

/// The backdrop that was requested last and the one shown. An image is shown
/// only while it belongs to the latest request.
pub struct NfoBackdrop<H> {
    requested_key: Option<BackdropKey>,
    requested_generation: u64,
    image: Option<BackdropImage<H>>,
}

/// `image`, if any, belongs to the request with `key` and `generation`.
pub open spec fn image_is_current<H>(
    image: Option<BackdropImage<H>>,
    key: Option<BackdropKey>,
    generation: u64,
) -> bool {
    match image {
        Some(shown) => key == Some(shown.image_key()) && shown.image_generation() == generation,
        None => true,
    }
}

/// The state after a request for `key`: unchanged when `key` is already
/// requested; otherwise `key` in the next generation, with nothing shown.
pub open spec fn state_after_request<H>(state: BackdropState<H>, key: BackdropKey) -> BackdropState<H> {
    if state.requested_key == Some(key) {
        state
    } else {
        BackdropState {
            requested_key: Some(key),
            requested_generation: next_generation(state.requested_generation),
            image: None,
        }
    }
}

/// The state after the request and the image are forgotten: nothing
/// requested, nothing shown, and the next generation.
pub open spec fn state_after_clear<H>(state: BackdropState<H>) -> BackdropState<H> {
    BackdropState {
        requested_key: None,
        requested_generation: next_generation(state.requested_generation),
        image: None,
    }
}

/// A result for `key` made in `generation` belongs to the latest request.
pub open spec fn accepts<H>(state: BackdropState<H>, key: BackdropKey, generation: u64) -> bool {
    state.requested_key == Some(key) && state.requested_generation == generation
}

/// The state after a result for `key` in `generation` arrives: unchanged
/// when it is refused; otherwise showing the image if it was itself made for
/// that key and generation, and nothing if not.
pub open spec fn state_after_result<H>(
    state: BackdropState<H>,
    key: BackdropKey,
    generation: u64,
    image: Option<BackdropImage<H>>,
) -> BackdropState<H> {
    if !accepts(state, key, generation) {
        state
    } else {
        BackdropState {
            image: match image {
                Some(made) => if made.image_key() == key && made.image_generation() == generation {
                    Some(made)
                } else {
                    None
                },
                None => None,
            },
            ..state
        }
    }
}

impl<H> View for NfoBackdrop<H> {
    type V = BackdropState<H>;

    closed spec fn view(&self) -> BackdropState<H> {
        BackdropState {
            requested_key: self.requested_key,
            requested_generation: self.requested_generation,
            image: self.image,
        }
    }
}

impl<H> NfoBackdrop<H> {
    #[verifier::type_invariant]
    spec fn shows_only_current(&self) -> bool {
        image_is_current(self.image, self.requested_key, self.requested_generation)
    }

    /// Nothing requested, nothing shown.
    pub fn new() -> (backdrop: Self)
        ensures
            backdrop@.requested_key is None,
            backdrop@.requested_generation == 0,
            backdrop@.image is None,
    {
        NfoBackdrop { requested_key: None, requested_generation: 0, image: None }
    }

    fn advance_generation(&mut self)
        ensures
            final(self)@.requested_generation == next_generation(old(self)@.requested_generation),
            final(self)@.requested_key == old(self)@.requested_key,
            final(self)@.image is None,
    {
        let next = advance(self.requested_generation);
        self.image = None;
        self.requested_generation = next;
    }

    /// Asks for the backdrop of `grid` with these colours and character
    /// ratio. With no grid everything is cleared, as `clear` does. With the
    /// key already requested nothing changes. Otherwise the generation
    /// advances, the image is dropped, and a job for the new key is returned.
    pub fn request(
        &mut self,
        grid: Option<&NfoRendererGrid>,
        background_color: Rgb8,
        text_color: Rgba8,
        art_color: Rgba8,
        character_ratio_milli: u16,
    ) -> (job: Option<BackdropRequest>)
        ensures
            match grid {
                None => job is None && final(self)@ == state_after_clear(old(self)@),
                Some(g) => {
                    let key = BackdropKey {
                        algorithm_version: ALGORITHM_VERSION,
                        grid_id: g.id,
                        background_color,
                        text_color,
                        art_color,
                        character_ratio_milli,
                    };
                    &&& final(self)@ == state_after_request(old(self)@, key)
                    &&& match job {
                        None => old(self)@.requested_key == Some(key),
                        Some(j) => {
                            &&& old(self)@.requested_key != Some(key)
                            &&& j.key == key
                            &&& j.generation == final(self)@.requested_generation
                            &&& same_grid(j.grid, *g)
                        },
                    }
                },
            },
            image_is_current(final(self)@.image, final(self)@.requested_key, final(self)@.requested_generation),
    {
        proof {
            use_type_invariant(&*self);
        }
        let grid = match grid {
            Some(grid) => grid,
            None => {
                self.clear();
                return None;
            },
        };
        let key = BackdropKey::new(grid, background_color, text_color, art_color, character_ratio_milli);
        let already = match self.requested_key {
            Some(requested) => requested == key,
            None => false,
        };
        if already {
            return None;
        }
        self.advance_generation();
        self.requested_key = Some(key);
        Some(BackdropRequest { key, generation: self.requested_generation, grid: grid.clone() })
    }

    /// Takes a generated result. It is refused, and nothing changes, unless
    /// `key` and `generation` are those of the latest request. Once accepted,
    /// the image is shown if it was itself made for that key and generation;
    /// otherwise (a `None` result among them) nothing is shown.
    pub fn accept_result(
        &mut self,
        key: BackdropKey,
        generation: u64,
        image: Option<BackdropImage<H>>,
    ) -> (accepted: bool)
        ensures
            accepted == accepts(old(self)@, key, generation),
            final(self)@ == state_after_result(old(self)@, key, generation, image),
            image_is_current(final(self)@.image, final(self)@.requested_key, final(self)@.requested_generation),
    {
        proof {
            use_type_invariant(&*self);
        }
        let current = match self.requested_key {
            Some(requested) => requested == key && self.requested_generation == generation,
            None => false,
        };
        if !current {
            return false;
        }
        self.image = match image {
            Some(made) => if made.key == key && made.generation == generation {
                Some(made)
            } else {
                None
            },
            None => None,
        };
        true
    }

    /// The image shown, if any.
    pub fn current_handle(&self) -> (handle: Option<&H>)
        ensures
            match handle {
                Some(h) => self@.image is Some && *h == self@.image->0.image_handle(),
                None => self@.image is None,
            },
            image_is_current(self@.image, self@.requested_key, self@.requested_generation),
    {
        proof {
            use_type_invariant(self);
        }
        match &self.image {
            Some(image) => Some(image.handle()),
            None => None,
        }
    }

    /// Forgets the request and the image before another file is loaded. The
    /// generation still advances, so that a job still running for the old
    /// file is refused even if the new file's grid has the same id.
    pub fn invalidate_source(&mut self)
        ensures
            final(self)@ == state_after_clear(old(self)@),
    {
        self.advance_generation();
        self.requested_key = None;
    }

    /// Forgets the request and the image.
    pub fn clear(&mut self)
        ensures
            final(self)@ == state_after_clear(old(self)@),
    {
        self.advance_generation();
        self.requested_key = None;
    }
}

impl<H> Default for NfoBackdrop<H> {
    fn default() -> (backdrop: Self)
        ensures
            backdrop@.requested_key is None,
            backdrop@.requested_generation == 0,
            backdrop@.image is None,
    {
        NfoBackdrop::new()
    }
}

// ---------------------------------------------------------------------------
// Laws of the backdrop tracker
// ---------------------------------------------------------------------------

/// Asking again for the key already requested changes nothing.
pub proof fn law_repeated_request_is_idle<H>(state: BackdropState<H>, key: BackdropKey)
    ensures
        state_after_request(state_after_request(state, key), key) == state_after_request(state, key),
        state_after_request(state, key).requested_key == Some(key),
{
}

/// Once a job for `first` is followed by a request for another key, a result
/// of the first job is refused, a result of the second is accepted, and
/// nothing is shown in between.
pub proof fn law_newer_request_refuses_older_job<H>(
    state: BackdropState<H>,
    first: BackdropKey,
    second: BackdropKey,
)
    requires
        state.requested_key != Some(first),
        first != second,
    ensures
        ({
            let after_first = state_after_request(state, first);
            let after_second = state_after_request(after_first, second);
            &&& !accepts(after_second, first, after_first.requested_generation)
            &&& accepts(after_second, second, after_second.requested_generation)
            &&& after_second.image is None
        }),
{
}

/// A result that is refused leaves the state, and so the image shown, as it
/// was.
pub proof fn law_refused_result_changes_nothing<H>(
    state: BackdropState<H>,
    key: BackdropKey,
    generation: u64,
    image: Option<BackdropImage<H>>,
)
    requires
        !accepts(state, key, generation),
    ensures
        state_after_result(state, key, generation, image) == state,
{
}

/// After the source is invalidated, asking again for the very same key
/// issues a new job in another generation, and a late result of the job
/// issued before is refused.
pub proof fn law_invalidation_forces_regeneration<H>(state: BackdropState<H>, key: BackdropKey)
    ensures
        ({
            let before = state_after_request(state, key);
            let cleared = state_after_clear(before);
            let again = state_after_request(cleared, key);
            &&& cleared.requested_key != Some(key)
            &&& again.requested_key == Some(key)
            &&& again.requested_generation != before.requested_generation
            &&& !accepts(again, key, before.requested_generation)
            &&& again.image is None
        }),
{
}

/// Every painted cell below the start of the art lies inside the bounds
/// computed for it.
pub proof fn law_bounds_enclose_ink(grid: NfoRendererGrid, bounds: ContentBounds, col: int, row: int)
    requires
        bounds_around_ink(grid, bounds),
        grid_ink_at(grid, content_top_of(grid), col, row),
    ensures
        bounds.left <= col < bounds.right,
        bounds.top <= row < bounds.bottom,
        row >= bounds.content_top,
{
    let top = content_top_of(grid);
    let m = choose|m: int|
        0 <= m < grid.lines@.len() && #[trigger] grid.lines@[m].row == row && top <= row
            < grid.height && line_ink(grid.lines@[m], grid.width as int, col);
    let line = grid.lines@[m];
    if line_block_ink(line, grid.width as int, col) {
        let h = choose|h: int|
            0 <= h < line.block_groups@.len() && group_ink_at(
                #[trigger] line.block_groups@[h],
                grid.width as int,
                col,
            );
    } else {
        let h = choose|h: int|
            0 <= h < line.text_flights@.len() && flight_ink_at(
                #[trigger] line.text_flights@[h],
                grid.width as int,
                col,
            );
    }
    let c1 = choose|c: int| is_least_ink_col(grid, top, c) && bounds.left == shrink(c, 2);
    let c2 = choose|c: int|
        is_greatest_ink_col(grid, top, c) && bounds.right == grow_within(c, 2, grid.width as int);
    let r1 = choose|r: int| is_least_ink_row(grid, top, r) && bounds.top == shrink(r, 2);
    let r2 = choose|r: int|
        is_greatest_ink_row(grid, top, r) && bounds.bottom == grow_within(r, 2, grid.height as int);
    assert(c1 <= col <= c2 && r1 <= row <= r2);
}

/// Two backdrop keys are equal exactly when they were made for grids with
/// the same identity, the same three colours and the same character ratio:
/// nothing else about the grid or the renderer enters the key.
pub proof fn law_key_tracks_only_pixel_inputs(
    first: NfoRendererGrid,
    second: NfoRendererGrid,
    backgrounds: (Rgb8, Rgb8),
    texts: (Rgba8, Rgba8),
    arts: (Rgba8, Rgba8),
    ratios: (u16, u16),
)
    ensures
        (BackdropKey {
            algorithm_version: ALGORITHM_VERSION,
            grid_id: first.id,
            background_color: backgrounds.0,
            text_color: texts.0,
            art_color: arts.0,
            character_ratio_milli: ratios.0,
        } == BackdropKey {
            algorithm_version: ALGORITHM_VERSION,
            grid_id: second.id,
            background_color: backgrounds.1,
            text_color: texts.1,
            art_color: arts.1,
            character_ratio_milli: ratios.1,
        }) <==> (first.id == second.id && backgrounds.0 == backgrounds.1 && texts.0 == texts.1
            && arts.0 == arts.1 && ratios.0 == ratios.1),
{
}

} // verus!
