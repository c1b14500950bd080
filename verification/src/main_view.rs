//! The main NFO view: which of its tabs is shown, and where each tab was
//! scrolled to.

use vstd::prelude::*;

verus! {

/// The tabs of the main view.
#[derive(Clone, Copy, PartialEq, Eq, Debug, Structural)]
pub enum TabId {
    Enhanced,
    Classic,
    TextOnly,
}

impl Default for TabId {
    fn default() -> (tab: Self)
        ensures
            tab == TabId::Enhanced,
    {
        TabId::Enhanced
    }
}

impl TabId {
    /// The place of the tab among the three.
    pub open spec fn spec_index(self) -> int {
        match self {
            TabId::Enhanced => 0,
            TabId::Classic => 1,
            TabId::TextOnly => 2,
        }
    }

    /// The place of the tab among the three.
    pub fn index(self) -> (index: usize)
        ensures
            index == self.spec_index(),
    {
        match self {
            TabId::Enhanced => 0,
            TabId::Classic => 1,
            TabId::TextOnly => 2,
        }
    }
}

/// Each tab has its own place among the three.
pub proof fn law_tab_index_is_a_place(first: TabId, second: TabId)
    ensures
        0 <= first.spec_index() < 3,
        first.spec_index() == second.spec_index() ==> first == second,
{
}

/// A change to the main view: another tab picked, new renderer settings of
/// type `S`, or a tab scrolled to an offset of type `O`.
pub enum Message<S, O> {
    TabSelected(TabId),
    RenderSettingsChanged(S),
    Scrolled(TabId, O),
}

/// What the main view holds: the tab shown, the renderer settings in use,
/// and the scroll offset of each tab, by `TabId::spec_index`.
pub struct MainViewState<S, O> {
    pub active_tab: TabId,
    pub render_settings: S,
    pub scroll_offsets: Seq<O>,
}

/// The main view: the tab shown, the renderer settings, and one scroll
/// offset per tab.
pub struct InfektMainView<S, O> {
    active_tab: TabId,
    active_render_settings: S,
    scroll_offsets: Vec<O>,
}

impl<S, O> View for InfektMainView<S, O> {
    type V = MainViewState<S, O>;

    closed spec fn view(&self) -> MainViewState<S, O> {
        MainViewState {
            active_tab: self.active_tab,
            render_settings: self.active_render_settings,
            scroll_offsets: self.scroll_offsets@,
        }
    }
}

/// `offsets` with the one at `index` replaced by `offset`.
fn with_offset<O: Copy>(offsets: &Vec<O>, index: usize, offset: O) -> (replaced: Vec<O>)
    requires
        index < offsets.len(),
    ensures
        replaced@ == offsets@.update(index as int, offset),
{
    let mut replaced: Vec<O> = Vec::new();
    let mut i: usize = 0;
    while i < offsets.len()
        invariant
            i <= offsets.len(),
            index < offsets.len(),
            replaced@ == offsets@.update(index as int, offset).take(i as int),
        decreases offsets.len() - i,
    {
        if i == index {
            replaced.push(offset);
        } else {
            replaced.push(offsets[i]);
        }
        assert(offsets@.update(index as int, offset).take(i + 1) == offsets@.update(
            index as int,
            offset,
        ).take(i as int).push(offsets@.update(index as int, offset)[i as int]));
        i = i + 1;
    }
    assert(offsets@.update(index as int, offset).take(i as int) == offsets@.update(index as int, offset));
    replaced
}

impl<S, O> InfektMainView<S, O> {
    #[verifier::type_invariant]
    spec fn one_offset_per_tab(&self) -> bool {
        self.scroll_offsets@.len() == 3
    }
}

impl<S, O: Copy> InfektMainView<S, O> {
    /// The view on its first tab, with these settings and every tab at
    /// `origin`.
    pub fn new(settings: S, origin: O) -> (view: Self)
        ensures
            view@.active_tab == TabId::Enhanced,
            view@.render_settings == settings,
            view@.scroll_offsets == seq![origin, origin, origin],
    {
        let mut offsets: Vec<O> = Vec::new();
        offsets.push(origin);
        offsets.push(origin);
        offsets.push(origin);
        InfektMainView { active_tab: TabId::Enhanced, active_render_settings: settings, scroll_offsets: offsets }
    }

    /// The tab shown.
    pub fn active_tab(&self) -> (tab: TabId)
        ensures
            tab == self@.active_tab,
    {
        self.active_tab
    }

    /// The renderer settings in use.
    pub fn render_settings(&self) -> (settings: &S)
        ensures
            *settings == self@.render_settings,
    {
        &self.active_render_settings
    }

    /// Applies a change: a picked tab is shown, new settings replace the old,
    /// and a scrolled tab records its offset; nothing else changes.
    pub fn update(&mut self, message: Message<S, O>)
        ensures
            match message {
                Message::TabSelected(tab) => final(self)@ == (MainViewState {
                    active_tab: tab,
                    ..old(self)@
                }),
                Message::RenderSettingsChanged(settings) => final(self)@ == (MainViewState {
                    render_settings: settings,
                    ..old(self)@
                }),
                Message::Scrolled(tab, offset) => final(self)@ == (MainViewState {
                    scroll_offsets: old(self)@.scroll_offsets.update(tab.spec_index(), offset),
                    ..old(self)@
                }),
            },
    {
        proof {
            use_type_invariant(&*self);
        }
        match message {
            Message::TabSelected(selected) => self.active_tab = selected,
            Message::RenderSettingsChanged(settings) => self.active_render_settings = settings,
            Message::Scrolled(tab, offset) => {
                let offsets = with_offset(&self.scroll_offsets, tab.index(), offset);
                self.scroll_offsets = offsets;
            },
        }
    }

    /// Puts every tab back at `origin`, as when another file is shown.
    pub fn reset_scroll(&mut self, origin: O)
        ensures
            final(self)@ == (MainViewState {
                scroll_offsets: seq![origin, origin, origin],
                ..old(self)@
            }),
    {
        proof {
            use_type_invariant(&*self);
        }
        let mut offsets: Vec<O> = Vec::new();
        offsets.push(origin);
        offsets.push(origin);
        offsets.push(origin);
        self.scroll_offsets = offsets;
        assert(self.scroll_offsets@ =~= seq![origin, origin, origin]);
    }

    /// The scroll offset of the tab shown, which the backdrop follows.
    pub fn active_scroll_offset(&self) -> (offset: O)
        ensures
            offset == self@.scroll_offsets[self@.active_tab.spec_index()],
    {
        proof {
            use_type_invariant(self);
        }
        self.scroll_offsets[self.active_tab.index()]
    }
}

} // verus!
