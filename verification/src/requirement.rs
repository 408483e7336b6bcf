//! The atomic conditions that a motion is made of, and the notation that
//! names them character by character.

use vstd::prelude::*;
use crate::buttons::{buttons_of, GameButton};
use crate::helper_types::DiffView;
use crate::stick_position::{numpad_position, StickPosition};

verus! {

/// One condition of a compiled motion.
#[derive(Debug, PartialEq, Eq)]
pub enum Requirement {
    /// Prefix: the next requirement must be held for some time.
    Charge,
    /// The stick must move to a point.
    Point(StickPosition),
    /// The stick must move to one of these points.
    Range(Vec<StickPosition>),
    /// A button must be pressed.
    Press(GameButton),
    /// All of these buttons must be pressed, in any order.
    MultiPress(Vec<GameButton>),
    /// A button must be released.
    Release(GameButton),
}

/// A requirement as a mathematical value. A range and a multi-press list
/// their members in the order in which the definition names them.
pub enum RequirementView {
    Charge,
    Point(StickPosition),
    Range(Seq<StickPosition>),
    Press(GameButton),
    MultiPress(Seq<GameButton>),
    Release(GameButton),
}

impl View for Requirement {
    type V = RequirementView;

    open spec fn view(&self) -> RequirementView {
        match self {
            Requirement::Charge => RequirementView::Charge,
            Requirement::Point(stick) => RequirementView::Point(*stick),
            Requirement::Range(sticks) => RequirementView::Range(sticks@),
            Requirement::Press(button) => RequirementView::Press(*button),
            Requirement::MultiPress(buttons) => RequirementView::MultiPress(buttons@),
            Requirement::Release(button) => RequirementView::Release(*button),
        }
    }
}

impl Clone for Requirement {
    fn clone(&self) -> (r: Requirement)
        ensures
            r@ == self@,
    {
        match self {
            Requirement::Charge => Requirement::Charge,
            Requirement::Point(stick) => Requirement::Point(*stick),
            Requirement::Range(sticks) => {
                let mut copied: Vec<StickPosition> = Vec::new();
                let mut i: usize = 0;
                while i < sticks.len()
                    invariant
                        i <= sticks.len(),
                        copied@ == sticks@.take(i as int),
                    decreases sticks.len() - i,
                {
                    copied.push(sticks[i]);
                    proof {
                        assert(copied@ =~= sticks@.take(i as int + 1));
                    }
                    i += 1;
                }
                proof {
                    assert(sticks@.take(i as int) == sticks@);
                }
                Requirement::Range(copied)
            },
            Requirement::Press(button) => Requirement::Press(*button),
            Requirement::MultiPress(buttons) => {
                let mut copied: Vec<GameButton> = Vec::new();
                let mut i: usize = 0;
                while i < buttons.len()
                    invariant
                        i <= buttons.len(),
                        copied@ == buttons@.take(i as int),
                    decreases buttons.len() - i,
                {
                    copied.push(buttons[i]);
                    proof {
                        assert(copied@ =~= buttons@.take(i as int + 1));
                    }
                    i += 1;
                }
                proof {
                    assert(buttons@.take(i as int) == buttons@);
                }
                Requirement::MultiPress(copied)
            },
            Requirement::Release(button) => Requirement::Release(*button),
        }
    }
}

/// The requirements of a list, as mathematical values.
pub open spec fn requirement_views(requirements: Seq<Requirement>) -> Seq<RequirementView> {
    requirements.map_values(|r: Requirement| r@)
}

/// The button that a lowercase letter of the notation names, if any.
pub open spec fn letter_button(ch: char) -> Option<GameButton> {
    if ch == 'f' {
        Some(GameButton::Fast)
    } else if ch == 's' {
        Some(GameButton::Strong)
    } else if ch == 'g' {
        Some(GameButton::Grab)
    } else if ch == 'e' {
        Some(GameButton::Equipment)
    } else if ch == 't' {
        Some(GameButton::Taunt)
    } else if ch == 'l' {
        Some(GameButton::Light)
    } else if ch == 'h' {
        Some(GameButton::Heavy)
    } else {
        None
    }
}

/// The button that an uppercase letter of the notation names, if any.
pub open spec fn capital_button(ch: char) -> Option<GameButton> {
    if ch == 'F' {
        Some(GameButton::Fast)
    } else if ch == 'S' {
        Some(GameButton::Strong)
    } else if ch == 'G' {
        Some(GameButton::Grab)
    } else if ch == 'E' {
        Some(GameButton::Equipment)
    } else if ch == 'T' {
        Some(GameButton::Taunt)
    } else if ch == 'L' {
        Some(GameButton::Light)
    } else if ch == 'H' {
        Some(GameButton::Heavy)
    } else {
        None
    }
}

/// The key of the numeric pad that a digit `1 ..= 9` names, if the character is one.
pub open spec fn digit_key(ch: char) -> Option<int> {
    if ch == '1' {
        Some(1)
    } else if ch == '2' {
        Some(2)
    } else if ch == '3' {
        Some(3)
    } else if ch == '4' {
        Some(4)
    } else if ch == '5' {
        Some(5)
    } else if ch == '6' {
        Some(6)
    } else if ch == '7' {
        Some(7)
    } else if ch == '8' {
        Some(8)
    } else if ch == '9' {
        Some(9)
    } else {
        None
    }
}

/// The requirement that one character of the notation stands for: a digit
/// `1 ..= 9` is a point of the numeric pad, `c` is a charge, a lowercase button
/// letter a press and its capital a release. No other character stands for one.
pub open spec fn char_requirement(ch: char) -> Option<RequirementView> {
    if digit_key(ch).is_some() {
        Some(RequirementView::Point(numpad_position(digit_key(ch).unwrap())))
    } else if ch == 'c' {
        Some(RequirementView::Charge)
    } else if letter_button(ch).is_some() {
        Some(RequirementView::Press(letter_button(ch).unwrap()))
    } else if capital_button(ch).is_some() {
        Some(RequirementView::Release(capital_button(ch).unwrap()))
    } else {
        None
    }
}

impl RequirementView {
    /// Whether the diff of this tick satisfies the requirement, given the
    /// buttons that a multi-press has gathered before this tick. A point or a
    /// range looks at the stick move, a press or a release at the buttons that
    /// went down or up, and a multi-press at what was gathered together with
    /// what went down now. A charge is a prefix and is met by nothing.
    pub open spec fn met(self, diff: DiffView, gathered: Set<GameButton>) -> bool {
        match self {
            RequirementView::Charge => false,
            RequirementView::Point(stick) => diff.stick_move == Some(stick),
            RequirementView::Range(sticks) => diff.stick_move.is_some() && sticks.contains(
                diff.stick_move.unwrap(),
            ),
            RequirementView::Press(button) => diff.pressed_contains(button),
            RequirementView::MultiPress(buttons) => diff.pressed.is_some() && buttons_of(
                buttons,
            ).subset_of(gathered.union(diff.pressed.unwrap())),
            RequirementView::Release(button) => diff.released_contains(button),
        }
    }

    /// The buttons gathered after this tick: a multi-press keeps what went
    /// down now, every other requirement gathers nothing.
    pub open spec fn gathers(self, diff: DiffView, gathered: Set<GameButton>) -> Set<
        GameButton,
    > {
        match self {
            RequirementView::MultiPress(_) => match diff.pressed {
                Some(pressed) => gathered.union(pressed),
                None => gathered,
            },
            _ => gathered,
        }
    }
}

/// No requirement list ends in a charge, and no charge follows a charge: a
/// charge always has something to charge into.
pub open spec fn well_formed(requirements: Seq<RequirementView>) -> bool {
    forall|i: int|
        0 <= i < requirements.len() && #[trigger] requirements[i] is Charge ==> i + 1
            < requirements.len() && !(requirements[i + 1] is Charge)
}

/// The requirement that a character of the notation stands for, or `None`
/// where it stands for none.
pub fn char_to_requirement(ch: char) -> (r: Option<Requirement>)
    ensures
        r.is_some() == char_requirement(ch).is_some(),
        r.is_some() ==> r.unwrap()@ == char_requirement(ch).unwrap(),
{
    if ch == '1' {
        Some(Requirement::Point(StickPosition::from_numpad(1)))
    } else if ch == '2' {
        Some(Requirement::Point(StickPosition::from_numpad(2)))
    } else if ch == '3' {
        Some(Requirement::Point(StickPosition::from_numpad(3)))
    } else if ch == '4' {
        Some(Requirement::Point(StickPosition::from_numpad(4)))
    } else if ch == '5' {
        Some(Requirement::Point(StickPosition::from_numpad(5)))
    } else if ch == '6' {
        Some(Requirement::Point(StickPosition::from_numpad(6)))
    } else if ch == '7' {
        Some(Requirement::Point(StickPosition::from_numpad(7)))
    } else if ch == '8' {
        Some(Requirement::Point(StickPosition::from_numpad(8)))
    } else if ch == '9' {
        Some(Requirement::Point(StickPosition::from_numpad(9)))
    } else if ch == 'c' {
        Some(Requirement::Charge)
    } else if ch == 'f' {
        Some(Requirement::Press(GameButton::Fast))
    } else if ch == 's' {
        Some(Requirement::Press(GameButton::Strong))
    } else if ch == 'g' {
        Some(Requirement::Press(GameButton::Grab))
    } else if ch == 'e' {
        Some(Requirement::Press(GameButton::Equipment))
    } else if ch == 't' {
        Some(Requirement::Press(GameButton::Taunt))
    } else if ch == 'l' {
        Some(Requirement::Press(GameButton::Light))
    } else if ch == 'h' {
        Some(Requirement::Press(GameButton::Heavy))
    } else if ch == 'F' {
        Some(Requirement::Release(GameButton::Fast))
    } else if ch == 'S' {
        Some(Requirement::Release(GameButton::Strong))
    } else if ch == 'G' {
        Some(Requirement::Release(GameButton::Grab))
    } else if ch == 'E' {
        Some(Requirement::Release(GameButton::Equipment))
    } else if ch == 'T' {
        Some(Requirement::Release(GameButton::Taunt))
    } else if ch == 'L' {
        Some(Requirement::Release(GameButton::Light))
    } else if ch == 'H' {
        Some(Requirement::Release(GameButton::Heavy))
    } else {
        None
    }
}

} // verus!
