use infekt::main_view::{InfektMainView, Message, TabId};

#[test]
fn tabs_have_distinct_places() {
    assert_eq!(TabId::Enhanced.index(), 0);
    assert_eq!(TabId::Classic.index(), 1);
    assert_eq!(TabId::TextOnly.index(), 2);
    assert_eq!(TabId::default(), TabId::Enhanced);
}

#[test]
fn each_tab_keeps_its_own_scroll_offset() {
    let mut view: InfektMainView<&str, (f32, f32)> = InfektMainView::new("settings", (0.0, 0.0));
    assert_eq!(view.active_tab(), TabId::Enhanced);

    view.update(Message::Scrolled(TabId::Enhanced, (100.0, 1_000.0)));
    assert_eq!(view.active_scroll_offset(), (100.0, 1_000.0));

    view.update(Message::TabSelected(TabId::Classic));
    assert_eq!(view.active_tab(), TabId::Classic);
    assert_eq!(view.active_scroll_offset(), (0.0, 0.0));
    view.update(Message::Scrolled(TabId::Classic, (500.0, 250.0)));
    assert_eq!(view.active_scroll_offset(), (500.0, 250.0));

    view.reset_scroll((0.0, 0.0));
    assert_eq!(view.active_scroll_offset(), (0.0, 0.0));
    view.update(Message::TabSelected(TabId::Enhanced));
    assert_eq!(view.active_scroll_offset(), (0.0, 0.0));
}

#[test]
fn new_settings_replace_the_old_ones() {
    let mut view: InfektMainView<u32, u8> = InfektMainView::new(1, 0);
    view.update(Message::RenderSettingsChanged(2));
    assert_eq!(*view.render_settings(), 2);
    assert_eq!(view.active_tab(), TabId::Enhanced);
}
