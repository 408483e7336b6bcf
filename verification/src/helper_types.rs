//! What is held (`Frame`) and what changed within one tick (`Diff`).

use vstd::prelude::*;
use crate::buttons::{ButtonSet, GameButton};
use crate::stick_position::StickPosition;

verus! {

/// Whether a button went down or came up.
#[derive(Clone, Copy, Debug, PartialEq, Eq, Structural)]
pub enum ButtonUpdate {
    Pressed,
    Released,
}

/// One change of the controller: a button or the stick.
#[derive(Clone, Copy, Debug, PartialEq, Eq, Structural)]
pub enum InputChange {
    Button(GameButton, ButtonUpdate),
    Stick(StickPosition),
}

/// The changes of one tick, as mathematical values.
pub struct DiffView {
    pub stick_move: Option<StickPosition>,
    pub pressed: Option<Set<GameButton>>,
    pub released: Option<Set<GameButton>>,
}

/// What is held, as mathematical values.
pub struct FrameView {
    pub stick_position: StickPosition,
    pub pressed: Set<GameButton>,
}

/// The set that an optional button set stands for, where there is one.
pub open spec fn option_view(s: Option<ButtonSet>) -> Option<Set<GameButton>> {
    match s {
        Some(set) => Some(set@),
        None => None,
    }
}

/// The buttons after `button` joined an optional set: an absent set counts as empty.
pub open spec fn with_button(base: Option<Set<GameButton>>, button: GameButton) -> Set<
    GameButton,
> {
    match base {
        Some(set) => set.insert(button),
        None => Set::<GameButton>::empty().insert(button),
    }
}

/// Two optional sets joined: absent only where both are.
pub open spec fn joined(first: Option<Set<GameButton>>, second: Option<Set<GameButton>>) -> Option<
    Set<GameButton>,
> {
    match (first, second) {
        (Some(a), Some(b)) => Some(a.union(b)),
        (Some(a), None) => Some(a),
        (None, Some(b)) => Some(b),
        (None, None) => None,
    }
}

impl DiffView {
    /// The diff in which nothing changed.
    pub open spec fn empty() -> DiffView {
        DiffView { stick_move: None, pressed: None, released: None }
    }

    /// The diff after one more change: a stick change replaces the stick move,
    /// a button joins the pressed or the released set.
    pub open spec fn apply(self, change: InputChange) -> DiffView {
        match change {
            InputChange::Button(button, ButtonUpdate::Pressed) => DiffView {
                pressed: Some(with_button(self.pressed, button)),
                ..self
            },
            InputChange::Button(button, ButtonUpdate::Released) => DiffView {
                released: Some(with_button(self.released, button)),
                ..self
            },
            InputChange::Stick(stick) => DiffView { stick_move: Some(stick), ..self },
        }
    }

    /// The diff after all of `changes`, applied in order.
    pub open spec fn apply_all(self, changes: Seq<InputChange>) -> DiffView
        decreases changes.len(),
    {
        if changes.len() == 0 {
            self
        } else {
            self.apply_all(changes.drop_last()).apply(changes.last())
        }
    }

    /// This diff followed by a later one: the later stick move wins where
    /// there is one, and the pressed and the released buttons of both are joined.
    pub open spec fn combine(self, later: DiffView) -> DiffView {
        DiffView {
            stick_move: match later.stick_move {
                Some(stick) => Some(stick),
                None => self.stick_move,
            },
            pressed: joined(self.pressed, later.pressed),
            released: joined(self.released, later.released),
        }
    }

    /// The diff with its stick move mirrored.
    pub open spec fn flip(self) -> DiffView {
        DiffView {
            stick_move: match self.stick_move {
                Some(stick) => Some(stick.flipped()),
                None => None,
            },
            ..self
        }
    }

    /// Whether the button was pressed in this tick.
    pub open spec fn pressed_contains(self, button: GameButton) -> bool {
        self.pressed.is_some() && self.pressed.unwrap().contains(button)
    }

    /// Whether the button was released in this tick.
    pub open spec fn released_contains(self, button: GameButton) -> bool {
        self.released.is_some() && self.released.unwrap().contains(button)
    }
}

impl FrameView {
    /// The frame at rest: stick neutral, nothing held.
    pub open spec fn neutral() -> FrameView {
        FrameView { stick_position: StickPosition::Neutral, pressed: Set::empty() }
    }

    /// The frame after a diff: a stick move replaces the position, the pressed
    /// buttons join the held ones, then the released ones leave.
    pub open spec fn apply(self, diff: DiffView) -> FrameView {
        let stick_position = match diff.stick_move {
            Some(stick) => stick,
            None => self.stick_position,
        };
        let joined = match diff.pressed {
            Some(pressed) => self.pressed.union(pressed),
            None => self.pressed,
        };
        let pressed = match diff.released {
            Some(released) => joined.difference(released),
            None => joined,
        };
        FrameView { stick_position, pressed }
    }

    /// The diff that leads from rest to this frame: the stick move unless the
    /// stick is neutral, the held buttons unless there are none, no release.
    pub open spec fn diff_from_neutral(self) -> DiffView {
        DiffView {
            stick_move: if self.stick_position == StickPosition::Neutral {
                None
            } else {
                Some(self.stick_position)
            },
            pressed: if self.pressed =~= Set::<GameButton>::empty() {
                None
            } else {
                Some(self.pressed)
            },
            released: None,
        }
    }

    /// Whether the frame is at rest.
    pub open spec fn is_neutral(self) -> bool {
        self.stick_position == StickPosition::Neutral && self.pressed =~= Set::<
            GameButton,
        >::empty()
    }
}

/// What is held at the moment: the stick position and the buttons down.
#[derive(Debug, PartialEq, Eq)]
pub struct Frame {
    pub stick_position: StickPosition,
    pub pressed: ButtonSet,
}

/// The changes of a single tick.
#[derive(Debug, PartialEq, Eq)]
pub struct Diff {
    pub stick_move: Option<StickPosition>,
    pub pressed: Option<ButtonSet>,
    pub released: Option<ButtonSet>,
}

impl View for Frame {
    type V = FrameView;

    open spec fn view(&self) -> FrameView {
        FrameView { stick_position: self.stick_position, pressed: self.pressed@ }
    }
}

impl View for Diff {
    type V = DiffView;

    open spec fn view(&self) -> DiffView {
        DiffView {
            stick_move: self.stick_move,
            pressed: option_view(self.pressed),
            released: option_view(self.released),
        }
    }
}

/// Adds the button to the set, or starts a set with it where there is none.
fn add_or_init(base: Option<ButtonSet>, button: GameButton) -> (r: ButtonSet)
    ensures
        r@ == with_button(option_view(base), button),
{
    match base {
        Some(mut pressed) => {
            pressed.insert(button);
            pressed
        },
        None => {
            let mut fresh = ButtonSet::new();
            fresh.insert(button);
            fresh
        },
    }
}

/// Joins two optional button sets.
fn join(first: Option<ButtonSet>, second: &Option<ButtonSet>) -> (r: Option<ButtonSet>)
    ensures
        option_view(r) == joined(option_view(first), option_view(*second)),
{
    match first {
        Some(mut a) => {
            if let Some(b) = second {
                a.extend(b);
            }
            Some(a)
        },
        None => clone_option(second),
    }
}

/// A copy of an optional button set.
fn clone_option(s: &Option<ButtonSet>) -> (r: Option<ButtonSet>)
    ensures
        option_view(r) == option_view(*s),
{
    match s {
        Some(set) => Some(set.clone()),
        None => None,
    }
}

impl Frame {
    /// The frame at rest.
    pub fn new() -> (frame: Frame)
        ensures
            frame@ == FrameView::neutral(),
    {
        Frame { stick_position: StickPosition::Neutral, pressed: ButtonSet::new() }
    }

    /// Takes the changes of one tick into the frame.
    pub fn apply(&mut self, diff: Diff)
        ensures
            final(self)@ == old(self)@.apply(diff@),
    {
        if let Some(stick) = diff.stick_move {
            self.stick_position = stick;
        }
        if let Some(pressed) = diff.pressed {
            self.pressed.extend(&pressed);
        }
        if let Some(released) = diff.released {
            self.pressed.remove_all(&released);
        }
    }

    /// The diff that would lead from rest to this frame.
    pub fn diff_from_neutral(&self) -> (diff: Diff)
        ensures
            diff@ == self@.diff_from_neutral(),
    {
        let stick_move = if self.stick_position == StickPosition::Neutral {
            None
        } else {
            Some(self.stick_position)
        };
        let pressed = if self.pressed.is_empty() {
            None
        } else {
            Some(self.pressed.clone())
        };
        Diff { stick_move, pressed, released: None }
    }

    /// Whether the stick is neutral and no button is held.
    pub fn is_neutral(&self) -> (r: bool)
        ensures
            r == self@.is_neutral(),
    {
        self.stick_position == StickPosition::Neutral && self.pressed.is_empty()
    }
}

impl Default for Frame {
    fn default() -> (frame: Frame)
        ensures
            frame@ == FrameView::neutral(),
    {
        Frame::new()
    }
}

impl Clone for Frame {
    fn clone(&self) -> (r: Frame)
        ensures
            r@ == self@,
    {
        Frame { stick_position: self.stick_position, pressed: self.pressed.clone() }
    }
}

impl Diff {
    /// The diff in which nothing changed.
    pub fn new() -> (diff: Diff)
        ensures
            diff@ == DiffView::empty(),
    {
        Diff { stick_move: None, pressed: None, released: None }
    }

    /// The diff with its stick move mirrored.
    pub fn flip(self) -> (r: Diff)
        ensures
            r@ == self@.flip(),
    {
        let mut flipped = self;
        if let Some(stick) = flipped.stick_move {
            flipped.stick_move = Some(stick.flip());
        }
        flipped
    }

    /// This diff followed by a later one of the same tick.
    pub fn combine(self, later: &Diff) -> (r: Diff)
        ensures
            r@ == self@.combine(later@),
    {
        Diff {
            stick_move: match later.stick_move {
                Some(stick) => Some(stick),
                None => self.stick_move,
            },
            pressed: join(self.pressed, &later.pressed),
            released: join(self.released, &later.released),
        }
    }

    /// The diff with one more change taken in.
    pub fn apply(self, change: &InputChange) -> (r: Diff)
        ensures
            r@ == self@.apply(*change),
    {
        let mut next = self;
        match change {
            InputChange::Button(button, update) => match update {
                ButtonUpdate::Pressed => {
                    let pressed = add_or_init(next.pressed, *button);
                    next.pressed = Some(pressed);
                },
                ButtonUpdate::Released => {
                    let released = add_or_init(next.released, *button);
                    next.released = Some(released);
                },
            },
            InputChange::Stick(stick) => {
                next.stick_move = Some(*stick);
            },
        }
        next
    }

    /// The diff of a tick in which the changes listed happened, in that order.
    pub fn from_changes(changes: &Vec<InputChange>) -> (r: Diff)
        ensures
            r@ == DiffView::empty().apply_all(changes@),
    {
        let mut diff = Diff::new();
        let mut i: usize = 0;
        while i < changes.len()
            invariant
                i <= changes.len(),
                diff@ == DiffView::empty().apply_all(changes@.take(i as int)),
            decreases changes.len() - i,
        {
            diff = diff.apply(&changes[i]);
            proof {
                let next = changes@.take(i as int + 1);
                assert(next.drop_last() == changes@.take(i as int));
                assert(next.last() == changes@[i as int]);
            }
            i += 1;
        }
        proof {
            assert(changes@.take(i as int) == changes@);
        }
        diff
    }

    /// Whether the button was pressed in this tick.
    pub fn pressed_contains(&self, button: &GameButton) -> (r: bool)
        ensures
            r == self@.pressed_contains(*button),
    {
        if let Some(pressed) = &self.pressed {
            pressed.contains(*button)
        } else {
            false
        }
    }

    /// Whether the button was released in this tick.
    pub fn released_contains(&self, button: &GameButton) -> (r: bool)
        ensures
            r == self@.released_contains(*button),
    {
        if let Some(released) = &self.released {
            released.contains(*button)
        } else {
            false
        }
    }
}

impl Default for Diff {
    fn default() -> (diff: Diff)
        ensures
            diff@ == DiffView::empty(),
    {
        Diff::new()
    }
}

impl Clone for Diff {
    fn clone(&self) -> (r: Diff)
        ensures
            r@ == self@,
    {
        Diff {
            stick_move: self.stick_move,
            pressed: clone_option(&self.pressed),
            released: clone_option(&self.released),
        }
    }
}

/// Applied to the frame at rest, the diff from neutral of a frame gives that frame.
pub proof fn lemma_diff_from_neutral_restores(frame: FrameView)
    ensures
        FrameView::neutral().apply(frame.diff_from_neutral()) == frame,
{
    let restored = FrameView::neutral().apply(frame.diff_from_neutral());
    assert(restored.pressed =~= frame.pressed);
}

/// Taking a change in is combining with the diff of that change alone.
pub proof fn lemma_apply_is_combine(diff: DiffView, change: InputChange)
    ensures
        diff.apply(change) == diff.combine(DiffView::empty().apply(change)),
{
    let single = DiffView::empty().apply(change);
    assert(diff.apply(change).pressed =~= diff.combine(single).pressed) by {
        if let Some(a) = diff.pressed {
            if let Some(b) = single.pressed {
                assert(a.union(b) =~= with_button(diff.pressed, change->Button_0));
            }
        }
    }
    assert(diff.apply(change).released =~= diff.combine(single).released) by {
        if let Some(a) = diff.released {
            if let Some(b) = single.released {
                assert(a.union(b) =~= with_button(diff.released, change->Button_0));
            }
        }
    }
}

/// Combining is associative, and the empty diff changes nothing on either side.
pub proof fn lemma_combine_associative(first: DiffView, second: DiffView, third: DiffView)
    ensures
        first.combine(second).combine(third) == first.combine(second.combine(third)),
        first.combine(DiffView::empty()) == first,
        DiffView::empty().combine(first) == first,
{
    let left = first.combine(second).combine(third);
    let right = first.combine(second.combine(third));
    assert(left.pressed =~= right.pressed) by {
        if let Some(a) = first.pressed {
            if let Some(b) = second.pressed {
                if let Some(c) = third.pressed {
                    assert(a.union(b).union(c) =~= a.union(b.union(c)));
                }
            }
        }
    }
    assert(left.released =~= right.released) by {
        if let Some(a) = first.released {
            if let Some(b) = second.released {
                if let Some(c) = third.released {
                    assert(a.union(b).union(c) =~= a.union(b.union(c)));
                }
            }
        }
    }
}

/// The diff of a list of changes is the diffs of its two parts combined.
pub proof fn lemma_changes_combine(first: Seq<InputChange>, second: Seq<InputChange>)
    ensures
        DiffView::empty().apply_all(first + second) == DiffView::empty().apply_all(
            first,
        ).combine(DiffView::empty().apply_all(second)),
    decreases second.len(),
{
    let start = DiffView::empty();
    if second.len() == 0 {
        assert(first + second == first);
        lemma_combine_associative(start.apply_all(first), start, start);
    } else {
        let earlier = second.drop_last();
        assert((first + second).drop_last() == first + earlier);
        assert((first + second).last() == second.last());
        lemma_changes_combine(first, earlier);
        let single = start.apply(second.last());
        lemma_apply_is_combine(start.apply_all(first + earlier), second.last());
        lemma_apply_is_combine(start.apply_all(earlier), second.last());
        lemma_combine_associative(start.apply_all(first), start.apply_all(earlier), single);
    }
}

/// Changes applied one after the other are the changes of their joined list.
pub proof fn lemma_apply_all_concat(
    diff: DiffView,
    first: Seq<InputChange>,
    second: Seq<InputChange>,
)
    ensures
        diff.apply_all(first + second) == diff.apply_all(first).apply_all(second),
    decreases second.len(),
{
    if second.len() == 0 {
        assert(first + second == first);
    } else {
        assert((first + second).drop_last() == first + second.drop_last());
        assert((first + second).last() == second.last());
        lemma_apply_all_concat(diff, first, second.drop_last());
    }
}

} // verus!
