//! Drag-and-drop of files onto the main window: exactly one file opens,
//! a drop of several files is rejected once as a whole.

use vstd::prelude::*;

verus! {

/// A drag-and-drop event of the window system.
#[derive(Debug, Clone)]
pub enum FileDropEvent {
    Hovered(String),
    Dropped(String),
    Left,
}

/// What the application should do after an event.
#[derive(Debug, PartialEq, Eq)]
pub enum FileDropOutcome {
    Nothing,
    Open(String),
    RejectMultiple,
}

/// What is being dragged over the window.
#[derive(Debug, Clone, PartialEq, Eq)]
pub enum FileDropHover {
    Single(String),
    Multiple(usize),
}

#[derive(Debug)]
enum Phase {
    Idle,
    Hovering(Vec<String>),
    /// A rejected multi-file drop delivers one `Dropped` event per file and
    /// no trailing `Left`; the remaining ones are swallowed by count.
    Rejecting { remaining: usize },
}

/// The drag-and-drop gesture in progress.
#[derive(Debug)]
pub struct FileDropState {
    phase: Phase,
}

/// The abstract phase of a drag-and-drop gesture.
pub enum DropPhase {
    Idle,
    Hovering(Seq<Seq<char>>),
    Rejecting(nat),
}

/// The text of an event.
pub enum DropEventView {
    Hovered(Seq<char>),
    Dropped(Seq<char>),
    Left,
}

/// The text of an outcome.
pub enum DropOutcomeView {
    Nothing,
    Open(Seq<char>),
    RejectMultiple,
}

impl View for FileDropEvent {
    type V = DropEventView;

    open spec fn view(&self) -> DropEventView {
        match self {
            FileDropEvent::Hovered(path) => DropEventView::Hovered(path@),
            FileDropEvent::Dropped(path) => DropEventView::Dropped(path@),
            FileDropEvent::Left => DropEventView::Left,
        }
    }
}

impl View for FileDropOutcome {
    type V = DropOutcomeView;

    open spec fn view(&self) -> DropOutcomeView {
        match self {
            FileDropOutcome::Nothing => DropOutcomeView::Nothing,
            FileDropOutcome::Open(path) => DropOutcomeView::Open(path@),
            FileDropOutcome::RejectMultiple => DropOutcomeView::RejectMultiple,
        }
    }
}

impl View for FileDropState {
    type V = DropPhase;

    closed spec fn view(&self) -> DropPhase {
        match self.phase {
            Phase::Idle => DropPhase::Idle,
            Phase::Hovering(paths) => DropPhase::Hovering(paths@.map_values(|path: String| path@)),
            Phase::Rejecting { remaining } => DropPhase::Rejecting(remaining as nat),
        }
    }
}

/// The phase after a `Dropped` event, and the outcome.
pub open spec fn dropped(phase: DropPhase, path: Seq<char>) -> (DropPhase, DropOutcomeView) {
    match phase {
        DropPhase::Idle => (DropPhase::Idle, DropOutcomeView::Open(path)),
        DropPhase::Hovering(paths) => if paths.len() <= 1 {
            (DropPhase::Idle, DropOutcomeView::Open(path))
        } else {
            (DropPhase::Rejecting((paths.len() - 1) as nat), DropOutcomeView::RejectMultiple)
        },
        DropPhase::Rejecting(remaining) => if remaining > 1 {
            (DropPhase::Rejecting((remaining - 1) as nat), DropOutcomeView::Nothing)
        } else {
            (DropPhase::Idle, DropOutcomeView::Nothing)
        },
    }
}

/// The phase after an event, and the outcome.
pub open spec fn handled(phase: DropPhase, event: DropEventView) -> (DropPhase, DropOutcomeView) {
    match event {
        DropEventView::Hovered(path) => match phase {
            DropPhase::Hovering(paths) => (DropPhase::Hovering(paths.push(path)), DropOutcomeView::Nothing),
            _ => (DropPhase::Hovering(seq![path]), DropOutcomeView::Nothing),
        },
        DropEventView::Dropped(path) => dropped(phase, path),
        DropEventView::Left => (DropPhase::Idle, DropOutcomeView::Nothing),
    }
}

/// The phase after a sequence of events, and the outcome of each.
pub open spec fn handled_all(phase: DropPhase, events: Seq<DropEventView>) -> (DropPhase, Seq<DropOutcomeView>)
    decreases events.len(),
{
    if events.len() == 0 {
        (phase, Seq::empty())
    } else {
        let (next, outcome) = handled(phase, events[0]);
        let (last, outcomes) = handled_all(next, events.drop_first());
        (last, seq![outcome] + outcomes)
    }
}

impl Default for FileDropState {
    fn default() -> (state: Self)
        ensures
            state@ is Idle,
    {
        FileDropState { phase: Phase::Idle }
    }
}

impl FileDropState {
    /// Advances the gesture by one event.
    pub fn handle(&mut self, event: FileDropEvent) -> (outcome: FileDropOutcome)
        ensures
            (final(self)@, outcome@) == handled(old(self)@, event@),
    {
        match event {
            FileDropEvent::Hovered(path) => {
                let mut phase = Phase::Idle;
                std::mem::swap(&mut phase, &mut self.phase);
                let ghost path_view = path@;
                self.phase = match phase {
                    Phase::Hovering(mut paths) => {
                        let ghost before = paths@;
                        paths.push(path);
                        assert(paths@.map_values(|p: String| p@) =~= before.map_values(|p: String| p@).push(path_view));
                        Phase::Hovering(paths)
                    },
                    _ => {
                        let mut paths = Vec::new();
                        paths.push(path);
                        assert(paths@.map_values(|p: String| p@) =~= seq![path_view]);
                        Phase::Hovering(paths)
                    },
                };
                FileDropOutcome::Nothing
            },
            FileDropEvent::Dropped(path) => self.handle_drop(path),
            FileDropEvent::Left => {
                self.phase = Phase::Idle;
                FileDropOutcome::Nothing
            },
        }
    }

    /// What is being dragged over the window, while a gesture hovers.
    pub fn hover(&self) -> (hover: Option<FileDropHover>)
        ensures
            match self@ {
                DropPhase::Hovering(paths) => if paths.len() == 1 {
                    hover matches Some(FileDropHover::Single(path)) && path@ == paths[0]
                } else if paths.len() > 1 {
                    hover == Some(FileDropHover::Multiple(paths.len() as usize))
                } else {
                    hover is None
                },
                _ => hover is None,
            },
    {
        match &self.phase {
            Phase::Hovering(paths) => {
                if paths.len() == 1 {
                    Some(FileDropHover::Single(paths[0].clone()))
                } else if paths.len() > 1 {
                    Some(FileDropHover::Multiple(paths.len()))
                } else {
                    None
                }
            },
            _ => None,
        }
    }

    /// Handles a `Dropped` event.
    pub fn handle_drop(&mut self, path: String) -> (outcome: FileDropOutcome)
        ensures
            (final(self)@, outcome@) == dropped(old(self)@, path@),
    {
        let mut phase = Phase::Idle;
        std::mem::swap(&mut phase, &mut self.phase);
        match phase {
            Phase::Idle => FileDropOutcome::Open(path),
            Phase::Hovering(paths) => {
                if paths.len() <= 1 {
                    FileDropOutcome::Open(path)
                } else {
                    self.phase = Phase::Rejecting { remaining: paths.len() - 1 };
                    FileDropOutcome::RejectMultiple
                }
            },
            Phase::Rejecting { remaining } => {
                if remaining > 1 {
                    self.phase = Phase::Rejecting { remaining: remaining - 1 };
                }
                FileDropOutcome::Nothing
            },
        }
    }
}

/// One `Hovered` event per path, in order.
pub open spec fn hover_events(paths: Seq<Seq<char>>) -> Seq<DropEventView> {
    paths.map_values(|path: Seq<char>| DropEventView::Hovered(path))
}

/// One `Dropped` event per path, in order.
pub open spec fn drop_events(paths: Seq<Seq<char>>) -> Seq<DropEventView> {
    paths.map_values(|path: Seq<char>| DropEventView::Dropped(path))
}

/// `count` outcomes that ask for nothing.
pub open spec fn nothing_outcomes(count: nat) -> Seq<DropOutcomeView> {
    Seq::new(count, |i: int| DropOutcomeView::Nothing)
}

/// Handling two runs of events one after the other is handling their
/// concatenation.
proof fn lemma_handled_all_concat(phase: DropPhase, first: Seq<DropEventView>, second: Seq<DropEventView>)
    ensures
        handled_all(phase, first + second) == ({
            let (middle, before) = handled_all(phase, first);
            let (last, after) = handled_all(middle, second);
            (last, before + after)
        }),
    decreases first.len(),
{
    if first.len() == 0 {
        assert(first + second =~= second);
        let (last, after) = handled_all(phase, second);
        assert(Seq::<DropOutcomeView>::empty() + after =~= after);
    } else {
        let (next, outcome) = handled(phase, first[0]);
        assert((first + second).drop_first() =~= first.drop_first() + second);
        lemma_handled_all_concat(next, first.drop_first(), second);
        let (middle, rest) = handled_all(next, first.drop_first());
        let (last, after) = handled_all(middle, second);
        assert(seq![outcome] + (rest + after) =~= (seq![outcome] + rest) + after);
    }
}

/// Further files dragged over the window join the hovering ones, and ask for
/// nothing.
proof fn lemma_hovering_collects(hovering: Seq<Seq<char>>, paths: Seq<Seq<char>>)
    ensures
        handled_all(DropPhase::Hovering(hovering), hover_events(paths)) == (
        DropPhase::Hovering(hovering + paths),
        nothing_outcomes(paths.len()),
        ),
    decreases paths.len(),
{
    if paths.len() == 0 {
        assert(hovering + paths =~= hovering);
        assert(nothing_outcomes(0) =~= Seq::<DropOutcomeView>::empty());
    } else {
        assert(hover_events(paths)[0] == DropEventView::Hovered(paths[0]));
        assert(hover_events(paths).drop_first() =~= hover_events(paths.drop_first()));
        lemma_hovering_collects(hovering.push(paths[0]), paths.drop_first());
        assert(hovering.push(paths[0]) + paths.drop_first() =~= hovering + paths);
        assert(seq![DropOutcomeView::Nothing] + nothing_outcomes((paths.len() - 1) as nat)
            =~= nothing_outcomes(paths.len()));
    }
}

/// While a rejected drop is being swallowed, each of its remaining drops
/// asks for nothing, and the last one ends the gesture.
proof fn lemma_rejecting_swallows(paths: Seq<Seq<char>>)
    requires
        paths.len() >= 1,
    ensures
        handled_all(DropPhase::Rejecting(paths.len()), drop_events(paths)) == (
        DropPhase::Idle,
        nothing_outcomes(paths.len()),
        ),
    decreases paths.len(),
{
    let events = drop_events(paths);
    assert(events[0] == DropEventView::Dropped(paths[0]));
    assert(events.drop_first() =~= drop_events(paths.drop_first()));
    let phase = DropPhase::Rejecting(paths.len());
    if paths.len() == 1 {
        assert(handled(phase, events[0]) == (DropPhase::Idle, DropOutcomeView::Nothing));
        assert(events.drop_first() =~= Seq::<DropEventView>::empty());
        assert(handled_all(DropPhase::Idle, events.drop_first()) == (
            DropPhase::Idle,
            Seq::<DropOutcomeView>::empty(),
        ));
        assert(seq![DropOutcomeView::Nothing] + Seq::<DropOutcomeView>::empty() =~= nothing_outcomes(1));
    } else {
        let rest = paths.drop_first();
        assert(handled(phase, events[0]) == (DropPhase::Rejecting(rest.len()), DropOutcomeView::Nothing));
        lemma_rejecting_swallows(rest);
        assert(seq![DropOutcomeView::Nothing] + nothing_outcomes(rest.len())
            =~= nothing_outcomes(paths.len()));
    }
}

/// Dragging several files over the window and dropping them is rejected
/// once, at the first drop; every other event asks for nothing, and the
/// gesture ends idle.
pub proof fn law_multi_file_drop_rejected_once(paths: Seq<Seq<char>>)
    requires
        paths.len() >= 2,
    ensures
        ({
            let (last, outcomes) = handled_all(DropPhase::Idle, hover_events(paths) + drop_events(paths));
            &&& last is Idle
            &&& outcomes.len() == 2 * paths.len()
            &&& outcomes[paths.len() as int] == DropOutcomeView::RejectMultiple
            &&& forall|i: int|
                0 <= i < outcomes.len() && i != paths.len() ==> #[trigger] outcomes[i]
                    == DropOutcomeView::Nothing
        }),
{
    let n = paths.len();
    let hovers = hover_events(paths);
    let drops = drop_events(paths);
    lemma_handled_all_concat(DropPhase::Idle, hovers, drops);
    // The first hover starts the gesture; the others join it.
    assert(hovers[0] == DropEventView::Hovered(paths[0]));
    assert(hovers.drop_first() =~= hover_events(paths.drop_first()));
    lemma_hovering_collects(seq![paths[0]], paths.drop_first());
    assert(seq![paths[0]] + paths.drop_first() =~= paths);
    assert(seq![DropOutcomeView::Nothing] + nothing_outcomes((n - 1) as nat) =~= nothing_outcomes(n));
    // The first drop is rejected; the others are swallowed.
    assert(drops[0] == DropEventView::Dropped(paths[0]));
    assert(drops.drop_first() =~= drop_events(paths.drop_first()));
    lemma_rejecting_swallows(paths.drop_first());
    let (last, outcomes) = handled_all(DropPhase::Idle, hovers + drops);
    assert(outcomes =~= nothing_outcomes(n) + (seq![DropOutcomeView::RejectMultiple] + nothing_outcomes(
        (n - 1) as nat,
    )));
}

/// Dragging one file over the window and dropping it opens that file.
pub proof fn law_single_file_drop_opens(path: Seq<char>)
    ensures
        handled_all(DropPhase::Idle, seq![DropEventView::Hovered(path), DropEventView::Dropped(path)])
            == (DropPhase::Idle, seq![DropOutcomeView::Nothing, DropOutcomeView::Open(path)]),
{
    let events = seq![DropEventView::Hovered(path), DropEventView::Dropped(path)];
    let hovering = DropPhase::Hovering(seq![path]);
    assert(handled(DropPhase::Idle, events[0]) == (hovering, DropOutcomeView::Nothing));
    assert(events.drop_first() =~= seq![DropEventView::Dropped(path)]);
    assert(handled(hovering, events.drop_first()[0]) == (DropPhase::Idle, DropOutcomeView::Open(path)));
    assert(events.drop_first().drop_first() =~= Seq::<DropEventView>::empty());
    assert(handled_all(DropPhase::Idle, events.drop_first().drop_first()) == (
        DropPhase::Idle,
        Seq::<DropOutcomeView>::empty(),
    ));
    assert(handled_all(hovering, events.drop_first()) == (
        DropPhase::Idle,
        seq![DropOutcomeView::Open(path)] + Seq::<DropOutcomeView>::empty(),
    ));
    assert(seq![DropOutcomeView::Open(path)] + Seq::<DropOutcomeView>::empty() =~= seq![
        DropOutcomeView::Open(path),
    ]);
    assert(seq![DropOutcomeView::Nothing] + seq![DropOutcomeView::Open(path)] =~= seq![
        DropOutcomeView::Nothing,
        DropOutcomeView::Open(path),
    ]);
}

/// Files dragged over an idle window are collected in order, each counted
/// (the same path twice counts twice), and ask for nothing; leaving the
/// window forgets them.
pub proof fn law_hovers_are_collected(paths: Seq<Seq<char>>)
    requires
        paths.len() >= 1,
    ensures
        handled_all(DropPhase::Idle, hover_events(paths)) == (
        DropPhase::Hovering(paths),
        nothing_outcomes(paths.len()),
        ),
        forall|phase: DropPhase| #[trigger] handled(phase, DropEventView::Left) == (
            DropPhase::Idle,
            DropOutcomeView::Nothing,
        ),
{
    let hovers = hover_events(paths);
    assert(hovers[0] == DropEventView::Hovered(paths[0]));
    assert(hovers.drop_first() =~= hover_events(paths.drop_first()));
    lemma_hovering_collects(seq![paths[0]], paths.drop_first());
    assert(seq![paths[0]] + paths.drop_first() =~= paths);
    assert(seq![DropOutcomeView::Nothing] + nothing_outcomes((paths.len() - 1) as nat)
        =~= nothing_outcomes(paths.len()));
}

} // verus!
