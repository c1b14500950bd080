//! The laid-out NFO as the renderers see it: a grid of block-art cells and
//! runs of text, line by line.

use vstd::prelude::*;

verus! {

/// The shape drawn in one block-art cell.
#[derive(Debug, Clone, Copy, PartialEq, Eq, Structural)]
pub enum NfoRendererBlockShape {
    NoBlock,
    Whitespace,
    WhitespaceInText,
    FullBlock,
    FullBlockLightShade,
    FullBlockMediumShade,
    FullBlockDarkShade,
    LowerHalf,
    UpperHalf,
    RightHalf,
    LeftHalf,
    BlackSquare,
    BlackSquareSmall,
}

/// Consecutive block cells of one line, starting at column `col`.
#[derive(Debug)]
pub struct NfoRendererBlockGroup {
    pub col: usize,
    pub blocks: Vec<NfoRendererBlockShape>,
}

/// A run of ordinary text of one line, starting at column `col`.
#[derive(Debug)]
pub struct NfoRendererTextFlight {
    pub col: usize,
    pub text: String,
}

/// A hyperlink of one line, starting at column `col`.
#[derive(Debug)]
pub struct NfoRendererLink {
    pub col: usize,
    pub text: String,
    pub url: String,
}

/// The content of one row of the grid.
#[derive(Debug)]
pub struct NfoRendererLine {
    pub row: usize,
    pub block_groups: Vec<NfoRendererBlockGroup>,
    pub text_flights: Vec<NfoRendererTextFlight>,
    pub links: Vec<NfoRendererLink>,
}

/// A laid-out NFO: `width` columns by `height` rows, identified by `id`.
#[derive(Debug)]
pub struct NfoRendererGrid {
    pub width: usize,
    pub height: usize,
    pub lines: Vec<NfoRendererLine>,
    pub has_blocks: bool,
    pub id: u64,
}

/// Two block groups with the same column and cells.
pub open spec fn same_group(a: NfoRendererBlockGroup, b: NfoRendererBlockGroup) -> bool {
    a.col == b.col && a.blocks@ == b.blocks@
}

/// Two text runs with the same column and text.
pub open spec fn same_flight(a: NfoRendererTextFlight, b: NfoRendererTextFlight) -> bool {
    a.col == b.col && a.text@ == b.text@
}

/// Two links with the same column, text and target.
pub open spec fn same_link(a: NfoRendererLink, b: NfoRendererLink) -> bool {
    a.col == b.col && a.text@ == b.text@ && a.url@ == b.url@
}

/// Two lines with the same row and the same contents, in the same order.
pub open spec fn same_line(a: NfoRendererLine, b: NfoRendererLine) -> bool {
    &&& a.row == b.row
    &&& a.block_groups@.len() == b.block_groups@.len()
    &&& forall|i: int|
        0 <= i < a.block_groups@.len() ==> same_group(
            #[trigger] a.block_groups@[i],
            b.block_groups@[i],
        )
    &&& a.text_flights@.len() == b.text_flights@.len()
    &&& forall|i: int|
        0 <= i < a.text_flights@.len() ==> same_flight(
            #[trigger] a.text_flights@[i],
            b.text_flights@[i],
        )
    &&& a.links@.len() == b.links@.len()
    &&& forall|i: int| 0 <= i < a.links@.len() ==> same_link(#[trigger] a.links@[i], b.links@[i])
}

/// Two grids with the same size, identity and lines.
pub open spec fn same_grid(a: NfoRendererGrid, b: NfoRendererGrid) -> bool {
    &&& a.width == b.width
    &&& a.height == b.height
    &&& a.has_blocks == b.has_blocks
    &&& a.id == b.id
    &&& a.lines@.len() == b.lines@.len()
    &&& forall|i: int| 0 <= i < a.lines@.len() ==> same_line(#[trigger] a.lines@[i], b.lines@[i])
}

impl Clone for NfoRendererBlockGroup {
    fn clone(&self) -> (copy: Self)
        ensures
            same_group(copy, *self),
    {
        let blocks = self.blocks.clone();
        assert(blocks@ =~= self.blocks@);
        NfoRendererBlockGroup { col: self.col, blocks }
    }
}

impl Clone for NfoRendererTextFlight {
    fn clone(&self) -> (copy: Self)
        ensures
            same_flight(copy, *self),
    {
        NfoRendererTextFlight { col: self.col, text: self.text.clone() }
    }
}

impl Clone for NfoRendererLink {
    fn clone(&self) -> (copy: Self)
        ensures
            same_link(copy, *self),
    {
        NfoRendererLink { col: self.col, text: self.text.clone(), url: self.url.clone() }
    }
}

impl Clone for NfoRendererLine {
    fn clone(&self) -> (copy: Self)
        ensures
            same_line(copy, *self),
    {
        let block_groups = self.block_groups.clone();
        let text_flights = self.text_flights.clone();
        let links = self.links.clone();
        let copy = NfoRendererLine { row: self.row, block_groups, text_flights, links };
        assert forall|i: int| 0 <= i < copy.block_groups@.len() implies same_group(
            #[trigger] copy.block_groups@[i],
            self.block_groups@[i],
        ) by {
            assert(cloned(self.block_groups@[i], copy.block_groups@[i]));
        }
        assert forall|i: int| 0 <= i < copy.text_flights@.len() implies same_flight(
            #[trigger] copy.text_flights@[i],
            self.text_flights@[i],
        ) by {
            assert(cloned(self.text_flights@[i], copy.text_flights@[i]));
        }
        assert forall|i: int| 0 <= i < copy.links@.len() implies same_link(
            #[trigger] copy.links@[i],
            self.links@[i],
        ) by {
            assert(cloned(self.links@[i], copy.links@[i]));
        }
        copy
    }
}

impl Clone for NfoRendererGrid {
    fn clone(&self) -> (copy: Self)
        ensures
            same_grid(copy, *self),
    {
        let lines = self.lines.clone();
        let copy = NfoRendererGrid {
            width: self.width,
            height: self.height,
            lines,
            has_blocks: self.has_blocks,
            id: self.id,
        };
        assert forall|i: int| 0 <= i < copy.lines@.len() implies same_line(
            #[trigger] copy.lines@[i],
            self.lines@[i],
        ) by {
            assert(cloned(self.lines@[i], copy.lines@[i]));
        }
        copy
    }
}

/// Whether a cell of this shape paints anything.
pub open spec fn spec_is_visible_block(shape: NfoRendererBlockShape) -> bool {
    !(shape is NoBlock || shape is Whitespace || shape is WhitespaceInText)
}

/// Whether a cell of this shape paints anything.
pub fn is_visible_block(shape: &NfoRendererBlockShape) -> (visible: bool)
    ensures
        visible == spec_is_visible_block(*shape),
{
    match shape {
        NfoRendererBlockShape::NoBlock => false,
        NfoRendererBlockShape::Whitespace => false,
        NfoRendererBlockShape::WhitespaceInText => false,
        _ => true,
    }
}

/// Whether a character has the Unicode White_Space property (the property
/// `char::is_whitespace` tests): the control characters tab to carriage
/// return, space, next line, no-break space, ogham space mark, the spaces
/// from en quad to hair space, line and paragraph separator, narrow no-break
/// space, medium mathematical space and ideographic space.
pub open spec fn spec_is_whitespace(character: char) -> bool {
    let code = character as u32;
    ||| 0x9 <= code <= 0xD
    ||| code == 0x20
    ||| code == 0x85
    ||| code == 0xA0
    ||| code == 0x1680
    ||| 0x2000 <= code <= 0x200A
    ||| code == 0x2028
    ||| code == 0x2029
    ||| code == 0x202F
    ||| code == 0x205F
    ||| code == 0x3000
}

/// Whether a character has the Unicode White_Space property.
pub fn is_whitespace(character: char) -> (whitespace: bool)
    ensures
        whitespace == spec_is_whitespace(character),
{
    let code = character as u32;
    (0x9 <= code && code <= 0xD) || code == 0x20 || code == 0x85 || code == 0xA0 || code == 0x1680
        || (0x2000 <= code && code <= 0x200A) || code == 0x2028 || code == 0x2029 || code == 0x202F
        || code == 0x205F || code == 0x3000
}

} // verus!
