//! One attempt at a motion: how far it has come, when it last moved on, and
//! how a tick's diff moves it further.

use vstd::prelude::*;
use crate::buttons::{ButtonSet, GameButton};
use crate::helper_types::{Diff, DiffView};
use crate::requirement::{requirement_views, well_formed, Requirement, RequirementView};
use crate::stick_position::StickPosition;

verus! {

/// The windows of the recognizer, in milliseconds of the clock that stamps the ticks.
#[derive(Clone, Copy, Debug, PartialEq, Eq, Structural)]
pub struct Timing {
    /// The longest pause between two steps of a motion.
    pub max_gap: u64,
    /// The shortest hold that counts as a charge.
    pub charge_time: u64,
}

/// The longest pause between two steps of a motion, in milliseconds.
pub const MAX_MILLIS_BETWEEN_SUBSEQUENT_MOTIONS: u64 = 300;

/// The shortest hold that counts as a charge, in milliseconds.
pub const CHARGE_MILLIS: u64 = 1000;

impl Timing {
    /// The windows that a parser has unless it is given others.
    pub open spec fn standard() -> Timing {
        Timing { max_gap: MAX_MILLIS_BETWEEN_SUBSEQUENT_MOTIONS, charge_time: CHARGE_MILLIS }
    }
}

impl Default for Timing {
    fn default() -> (timing: Timing)
        ensures
            timing == Timing::standard(),
    {
        Timing { max_gap: MAX_MILLIS_BETWEEN_SUBSEQUENT_MOTIONS, charge_time: CHARGE_MILLIS }
    }
}

/// The milliseconds from `then` to `now`; none if `then` is not in the past.
pub open spec fn elapsed(now: u64, then: u64) -> int {
    if now >= then {
        now - then
    } else {
        0
    }
}

/// An attempt as a mathematical value.
pub struct HeadView {
    /// The place in the requirement list that the attempt waits at.
    pub index: nat,
    /// When the attempt last moved on.
    pub last_update: Option<u64>,
    /// Since when a charge is held, while one is.
    pub charge_started: Option<u64>,
    /// The buttons gathered towards a multi-press.
    pub gathered: Set<GameButton>,
}

impl HeadView {
    /// An attempt that has seen nothing.
    pub open spec fn fresh() -> HeadView {
        HeadView { index: 0, last_update: None, charge_started: None, gathered: Set::empty() }
    }

    /// An attempt that has just arrived at `index`: stamped with the tick's
    /// time, with no charge held and nothing gathered.
    pub open spec fn arrived(index: nat, now: u64) -> HeadView {
        HeadView {
            index,
            last_update: Some(now),
            charge_started: None,
            gathered: Set::empty(),
        }
    }

    /// Whether the attempt has passed the last requirement.
    pub open spec fn is_done(self, requirements: Seq<RequirementView>) -> bool {
        self.index >= requirements.len()
    }

    /// Whether the attempt has waited too long: more than the longest pause
    /// has gone by since it last moved on, and it holds no charge. An attempt
    /// that never moved on has not waited at all.
    pub open spec fn expired(self, now: u64, timing: Timing) -> bool {
        self.charge_started.is_none() && match self.last_update {
            Some(then) => elapsed(now, then) > timing.max_gap,
            None => false,
        }
    }

    /// One look at the requirement that the attempt waits at.
    ///
    /// At a charge the attempt looks at the requirement behind it. While no
    /// charge is held, the charge starts now if that requirement is met. While
    /// one is held: once it has lasted the charge time, the attempt moves past
    /// both requirements; before that, the charge is dropped if the
    /// requirement is not met in this tick. At any other requirement the
    /// attempt moves past it if the requirement is met.
    pub open spec fn step(
        self,
        requirements: Seq<RequirementView>,
        diff: DiffView,
        now: u64,
        timing: Timing,
    ) -> HeadView
        recommends
            self.index < requirements.len(),
            well_formed(requirements),
    {
        let current = requirements[self.index as int];
        if current is Charge {
            let charged = requirements[self.index as int + 1];
            let met = charged.met(diff, self.gathered);
            let gathered = charged.gathers(diff, self.gathered);
            match self.charge_started {
                Some(start) => if elapsed(now, start) >= timing.charge_time {
                    HeadView::arrived(self.index + 2, now)
                } else if !met {
                    HeadView { charge_started: None, gathered, ..self }
                } else {
                    HeadView { gathered, ..self }
                },
                None => if met {
                    HeadView { charge_started: Some(now), gathered, ..self }
                } else {
                    HeadView { gathered, ..self }
                },
            }
        } else if current.met(diff, self.gathered) {
            HeadView::arrived(self.index + 1, now)
        } else {
            HeadView { gathered: current.gathers(diff, self.gathered), ..self }
        }
    }

    /// The attempt after a tick: it looks at its requirement, and again as
    /// long as the look before moved it on, so that one diff can carry it past
    /// several requirements. An attempt that is done stays as it is.
    pub open spec fn advance(
        self,
        requirements: Seq<RequirementView>,
        diff: DiffView,
        now: u64,
        timing: Timing,
    ) -> HeadView
        recommends
            well_formed(requirements),
        decreases requirements.len() - self.index,
    {
        if self.index >= requirements.len() {
            self
        } else {
            let next = self.step(requirements, diff, now, timing);
            if self.index < next.index <= requirements.len() {
                next.advance(requirements, diff, now, timing)
            } else {
                next
            }
        }
    }
}

/// An attempt at a motion.
#[derive(Debug, PartialEq, Eq)]
pub struct ParserHead {
    pub index: usize,
    pub last_update: Option<u64>,
    pub charge_started: Option<u64>,
    pub multipresses_received: ButtonSet,
}

impl View for ParserHead {
    type V = HeadView;

    open spec fn view(&self) -> HeadView {
        HeadView {
            index: self.index as nat,
            last_update: self.last_update,
            charge_started: self.charge_started,
            gathered: self.multipresses_received@,
        }
    }
}

/// The milliseconds from `then` to `now`; none if `then` is not in the past.
pub fn elapsed_since(now: u64, then: u64) -> (r: u64)
    ensures
        r == elapsed(now, then),
{
    if now >= then {
        now - then
    } else {
        0
    }
}

/// Whether the stick is among the sticks listed.
fn contains_stick(sticks: &Vec<StickPosition>, stick: StickPosition) -> (r: bool)
    ensures
        r == sticks@.contains(stick),
{
    let mut i: usize = 0;
    while i < sticks.len()
        invariant
            i <= sticks.len(),
            forall|j: int| 0 <= j < i ==> sticks@[j] != stick,
        decreases sticks.len() - i,
    {
        if sticks[i] == stick {
            return true;
        }
        i += 1;
    }
    false
}

impl ParserHead {
    /// An attempt that has seen nothing.
    pub fn new() -> (head: ParserHead)
        ensures
            head@ == HeadView::fresh(),
    {
        ParserHead {
            index: 0,
            last_update: None,
            charge_started: None,
            multipresses_received: ButtonSet::new(),
        }
    }

    /// A new attempt, moved on by `diff` as far as it goes.
    pub fn new_from_diff(
        requirements: &Vec<Requirement>,
        diff: &Diff,
        now: u64,
        timing: &Timing,
    ) -> (head: ParserHead)
        requires
            well_formed(requirement_views(requirements@)),
        ensures
            head@ == HeadView::fresh().advance(
                requirement_views(requirements@),
                diff@,
                now,
                *timing,
            ),
            head.index <= requirements.len(),
    {
        let mut head = ParserHead::new();
        head.advance(requirements, diff, now, timing);
        head
    }

    /// Whether the attempt has passed the last requirement.
    pub fn is_done(&self, requirements: &Vec<Requirement>) -> (r: bool)
        ensures
            r == self@.is_done(requirement_views(requirements@)),
    {
        self.index >= requirements.len()
    }

    /// Whether the attempt has waited longer than the longest pause without
    /// holding a charge.
    pub fn expired(&self, now: u64, timing: &Timing) -> (r: bool)
        ensures
            r == self@.expired(now, *timing),
    {
        match self.last_update {
            Some(then) => elapsed_since(now, then) > timing.max_gap
                && self.charge_started.is_none(),
            None => false,
        }
    }

    /// Moves the attempt past one requirement.
    fn bump(&mut self, now: u64)
        requires
            old(self).index < usize::MAX,
        ensures
            final(self)@ == HeadView::arrived((old(self).index + 1) as nat, now),
    {
        *self = ParserHead {
            index: self.index + 1,
            last_update: Some(now),
            charge_started: None,
            multipresses_received: ButtonSet::new(),
        };
    }

    /// Moves the attempt past a charge and the requirement behind it.
    fn double_bump(&mut self, now: u64)
        requires
            old(self).index < usize::MAX - 1,
        ensures
            final(self)@ == HeadView::arrived((old(self).index + 2) as nat, now),
    {
        *self = ParserHead {
            index: self.index + 2,
            last_update: Some(now),
            charge_started: None,
            multipresses_received: ButtonSet::new(),
        };
    }

    /// The requirement that stands `offset` places behind the one that the
    /// attempt waits at, if the list reaches that far.
    pub fn get_requirement_with_offset<'a>(
        &self,
        requirements: &'a Vec<Requirement>,
        offset: usize,
    ) -> (r: Option<&'a Requirement>)
        ensures
            self.index + offset < requirements.len() ==> r == Some(
                &requirements@[self.index + offset],
            ),
            self.index + offset >= requirements.len() ==> r.is_none(),
    {
        if offset < requirements.len() && self.index < requirements.len() - offset {
            Some(&requirements[self.index + offset])
        } else {
            None
        }
    }

    /// The requirement behind the one that the attempt waits at, if there is one.
    pub fn get_next_requirement<'a>(&self, requirements: &'a Vec<Requirement>) -> (r: Option<
        &'a Requirement,
    >)
        ensures
            self.index + 1 < requirements.len() ==> r == Some(&requirements@[self.index + 1]),
            self.index + 1 >= requirements.len() ==> r.is_none(),
    {
        self.get_requirement_with_offset(requirements, 1)
    }

    /// Whether the diff meets the requirement. For a multi-press the buttons
    /// that went down are gathered first.
    pub fn requirement_met(&mut self, requirement: &Requirement, diff: &Diff) -> (met: bool)
        ensures
            met == requirement@.met(diff@, old(self)@.gathered),
            final(self)@ == (HeadView {
                gathered: requirement@.gathers(diff@, old(self)@.gathered),
                ..old(self)@
            }),
    {
        match requirement {
            Requirement::Charge => false,
            Requirement::Point(required_stick) => match diff.stick_move {
                Some(stick) => stick == *required_stick,
                None => false,
            },
            Requirement::Range(required_sticks) => match diff.stick_move {
                Some(stick) => contains_stick(required_sticks, stick),
                None => false,
            },
            Requirement::Press(required_button) => diff.pressed_contains(required_button),
            Requirement::MultiPress(required_buttons) => match &diff.pressed {
                Some(pressed) => {
                    self.multipresses_received.extend(pressed);
                    self.multipresses_received.holds_all(required_buttons)
                },
                None => false,
            },
            Requirement::Release(required_button) => diff.released_contains(required_button),
        }
    }

    /// One look at the requirement that the attempt waits at.
    fn step(&mut self, requirements: &Vec<Requirement>, diff: &Diff, now: u64, timing: &Timing)
        requires
            well_formed(requirement_views(requirements@)),
            old(self).index < requirements.len(),
        ensures
            final(self)@ == old(self)@.step(requirement_views(requirements@), diff@, now, *timing),
            old(self).index <= final(self).index <= requirements.len(),
    {
        let ghost views = requirement_views(requirements@);
        proof {
            assert(views[self.index as int] == requirements@[self.index as int]@);
        }
        match &requirements[self.index] {
            Requirement::Charge => {
                proof {
                    assert(views[self.index as int] is Charge);
                    assert(views[self.index + 1] == requirements@[self.index + 1]@);
                }
                let charged = &requirements[self.index + 1];
                let met = self.requirement_met(charged, diff);
                match self.charge_started {
                    Some(start) => {
                        if elapsed_since(now, start) >= timing.charge_time {
                            self.double_bump(now);
                        } else if !met {
                            self.charge_started = None;
                        }
                    },
                    None => {
                        if met {
                            self.charge_started = Some(now);
                        }
                    },
                }
            },
            current => {
                if self.requirement_met(current, diff) {
                    self.bump(now);
                }
            },
        }
    }

    /// Moves the attempt on by the diff of one tick, past every requirement
    /// that the diff meets in a row.
    pub fn advance(
        &mut self,
        requirements: &Vec<Requirement>,
        diff: &Diff,
        now: u64,
        timing: &Timing,
    )
        requires
            well_formed(requirement_views(requirements@)),
            old(self).index <= requirements.len(),
        ensures
            final(self)@ == old(self)@.advance(
                requirement_views(requirements@),
                diff@,
                now,
                *timing,
            ),
            old(self).index <= final(self).index <= requirements.len(),
    {
        let ghost views = requirement_views(requirements@);
        let mut settled = self.index >= requirements.len();
        while !settled
            invariant
                views == requirement_views(requirements@),
                well_formed(views),
                old(self).index <= self.index <= requirements.len(),
                settled ==> self@ == old(self)@.advance(views, diff@, now, *timing),
                !settled ==> self.index < requirements.len() && self@.advance(
                    views,
                    diff@,
                    now,
                    *timing,
                ) == old(self)@.advance(views, diff@, now, *timing),
            decreases requirements.len() - self.index + if settled { 0int } else { 1int },
        {
            let start = self.index;
            self.step(requirements, diff, now, timing);
            settled = self.index == start || self.index >= requirements.len();
        }
    }
}

impl Default for ParserHead {
    fn default() -> (head: ParserHead)
        ensures
            head@ == HeadView::fresh(),
    {
        ParserHead::new()
    }
}

impl Clone for ParserHead {
    fn clone(&self) -> (r: ParserHead)
        ensures
            r@ == self@,
    {
        ParserHead {
            index: self.index,
            last_update: self.last_update,
            charge_started: self.charge_started,
            multipresses_received: self.multipresses_received.clone(),
        }
    }
}

/// An attempt that holds a charge does not expire, however long it waits.
pub proof fn lemma_charge_suppresses_expiry(head: HeadView, now: u64, timing: Timing)
    requires
        head.charge_started.is_some(),
    ensures
        !head.expired(now, timing),
{
}

/// A look moves an attempt by no more than two places, never back, and never
/// past the end of a well-formed list.
pub proof fn lemma_step_moves_forward(
    head: HeadView,
    requirements: Seq<RequirementView>,
    diff: DiffView,
    now: u64,
    timing: Timing,
)
    requires
        well_formed(requirements),
        head.index < requirements.len(),
    ensures
        head.index <= head.step(requirements, diff, now, timing).index <= head.index + 2,
        head.step(requirements, diff, now, timing).index <= requirements.len(),
{
    assert(requirements[head.index as int] is Charge ==> head.index + 1 < requirements.len());
}

/// A tick never moves an attempt back, nor past the end of a well-formed list.
pub proof fn lemma_advance_moves_forward(
    head: HeadView,
    requirements: Seq<RequirementView>,
    diff: DiffView,
    now: u64,
    timing: Timing,
)
    requires
        well_formed(requirements),
        head.index <= requirements.len(),
    ensures
        head.index <= head.advance(requirements, diff, now, timing).index <= requirements.len(),
    decreases requirements.len() - head.index,
{
    if head.index < requirements.len() {
        lemma_step_moves_forward(head, requirements, diff, now, timing);
        let next = head.step(requirements, diff, now, timing);
        if head.index < next.index {
            lemma_advance_moves_forward(next, requirements, diff, now, timing);
        }
    }
}

/// Once a charge has lasted the charge time, the attempt moves past the
/// charge and what it charged, whatever the diff of the tick holds.
pub proof fn lemma_full_charge_passes(
    head: HeadView,
    requirements: Seq<RequirementView>,
    diff: DiffView,
    now: u64,
    timing: Timing,
)
    requires
        head.index < requirements.len(),
        requirements[head.index as int] is Charge,
        head.charge_started matches Some(start) && elapsed(now, start) >= timing.charge_time,
    ensures
        head.step(requirements, diff, now, timing) == HeadView::arrived(head.index + 2, now),
{
}

/// A multi-press asks for a set of buttons: two lists of the same buttons are
/// met by the same diffs, in whatever order they name them.
pub proof fn lemma_multi_press_ignores_order(
    first: Seq<GameButton>,
    second: Seq<GameButton>,
    diff: DiffView,
    gathered: Set<GameButton>,
)
    requires
        forall|b: GameButton| first.contains(b) <==> second.contains(b),
    ensures
        RequirementView::MultiPress(first).met(diff, gathered) == RequirementView::MultiPress(
            second,
        ).met(diff, gathered),
{
    assert(crate::buttons::buttons_of(first) =~= crate::buttons::buttons_of(second));
}

/// The buttons gathered over two ticks do not depend on which tick came first.
pub proof fn lemma_gathering_ignores_order(
    requirement: RequirementView,
    first: DiffView,
    second: DiffView,
    gathered: Set<GameButton>,
)
    ensures
        requirement.gathers(second, requirement.gathers(first, gathered)) == requirement.gathers(
            first,
            requirement.gathers(second, gathered),
        ),
{
    assert(requirement.gathers(second, requirement.gathers(first, gathered))
        =~= requirement.gathers(first, requirement.gathers(second, gathered)));
}

} // verus!
