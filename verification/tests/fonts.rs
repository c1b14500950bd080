use infekt::fonts::font_choices;

#[test]
fn offered_fonts_are_sorted_deduplicated_and_include_the_fallbacks() {
    let system = vec![
        "Menlo".to_owned(),
        ".Hidden Mono".to_owned(),
        String::new(),
        "DejaVu Sans Mono".to_owned(),
        "Fira Mono".to_owned(),
        "Menlo".to_owned(),
    ];

    assert_eq!(
        font_choices(&system),
        vec![
            "Andale Mono".to_owned(),
            "Cascadia Mono".to_owned(),
            "DejaVu Sans Mono".to_owned(),
            "Fira Mono".to_owned(),
            "Menlo".to_owned(),
            "Menlo Nerd Font Mono".to_owned(),
        ]
    );
}

#[test]
fn without_system_fonts_only_the_fallbacks_are_offered() {
    assert_eq!(
        font_choices(&Vec::new()),
        vec![
            "Andale Mono".to_owned(),
            "Cascadia Mono".to_owned(),
            "Fira Mono".to_owned(),
            "Menlo Nerd Font Mono".to_owned(),
        ]
    );
}

#[test]
fn byte_order_puts_capitals_before_lowercase() {
    let system = vec!["mono".to_owned(), "Zed Mono".to_owned()];
    let choices = font_choices(&system);
    let zed = choices.iter().position(|name| name == "Zed Mono").unwrap();
    let mono = choices.iter().position(|name| name == "mono").unwrap();
    assert!(zed < mono);
}
