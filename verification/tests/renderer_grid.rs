use infekt::renderer_grid::{is_visible_block, is_whitespace, NfoRendererBlockShape};

#[test]
fn whitespace_is_exactly_what_std_calls_whitespace() {
    for code in 0..=0x10FFFFu32 {
        if let Some(character) = char::from_u32(code) {
            assert_eq!(
                is_whitespace(character),
                character.is_whitespace(),
                "U+{code:04X}"
            );
        }
    }
}

#[test]
fn only_blank_shapes_are_invisible() {
    assert!(!is_visible_block(&NfoRendererBlockShape::NoBlock));
    assert!(!is_visible_block(&NfoRendererBlockShape::Whitespace));
    assert!(!is_visible_block(&NfoRendererBlockShape::WhitespaceInText));
    assert!(is_visible_block(&NfoRendererBlockShape::FullBlock));
    assert!(is_visible_block(&NfoRendererBlockShape::FullBlockLightShade));
    assert!(is_visible_block(&NfoRendererBlockShape::LowerHalf));
    assert!(is_visible_block(&NfoRendererBlockShape::BlackSquareSmall));
}
