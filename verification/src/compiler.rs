//! The compiler of the motion notation: from a definition such as `236f` or
//! `c[741][63]f` to the list of requirements that it names.

use vstd::prelude::*;
use vstd::string::*;
use crate::buttons::GameButton;
use crate::requirement::{
    char_requirement, char_to_requirement, requirement_views, well_formed, Requirement,
    RequirementView,
};
use crate::stick_position::StickPosition;

verus! {

/// Why a definition does not compile.
#[derive(Clone, Copy, Debug, PartialEq, Eq, Structural)]
pub enum CompileError {
    /// The definition names no requirement at all.
    Empty,
    /// A `[` stands inside a group.
    NestedGroup,
    /// A `]` stands outside any group.
    UnopenedGroup,
    /// The definition ends inside a group.
    UnclosedGroup,
    /// A group holds nothing.
    EmptyGroup,
    /// The character stands for no requirement.
    UnknownCharacter(char),
    /// A group of points holds something else, or a group of presses does.
    MixedGroup,
    /// A group of several members starts with a charge or a release.
    Ungroupable,
    /// The last requirement is a charge.
    TrailingCharge,
    /// A charge follows a charge.
    DoubleCharge,
}

/// What the compiler has read so far: the requirements that are complete, and
/// the members of the group that is open, if one is.
pub struct Scan {
    pub requirements: Seq<RequirementView>,
    pub group: Option<Seq<RequirementView>>,
}

/// The sticks of a list of points.
pub open spec fn point_sticks(members: Seq<RequirementView>) -> Seq<StickPosition> {
    members.map_values(|r: RequirementView| r->Point_0)
}

/// The buttons of a list of presses.
pub open spec fn press_buttons(members: Seq<RequirementView>) -> Seq<GameButton> {
    members.map_values(|r: RequirementView| r->Press_0)
}

/// The requirement that a closed group stands for. A single member stands for
/// itself. Several points are a range and several presses a multi-press, each
/// with the members in their order. Nothing else can be grouped.
pub open spec fn group_requirement(members: Seq<RequirementView>) -> Result<
    RequirementView,
    CompileError,
> {
    if members.len() == 0 {
        Err(CompileError::EmptyGroup)
    } else if members.len() == 1 {
        Ok(members[0])
    } else {
        match members[0] {
            RequirementView::Point(_) => if forall|i: int|
                0 <= i < members.len() ==> #[trigger] members[i] is Point {
                Ok(RequirementView::Range(point_sticks(members)))
            } else {
                Err(CompileError::MixedGroup)
            },
            RequirementView::Press(_) => if forall|i: int|
                0 <= i < members.len() ==> #[trigger] members[i] is Press {
                Ok(RequirementView::MultiPress(press_buttons(members)))
            } else {
                Err(CompileError::MixedGroup)
            },
            _ => Err(CompileError::Ungroupable),
        }
    }
}

impl Scan {
    /// Nothing read yet.
    pub open spec fn start() -> Scan {
        Scan { requirements: Seq::empty(), group: None }
    }

    /// The state after one more character: `[` opens a group and `]` closes
    /// it; any other character must stand for a requirement, which joins the
    /// open group or, outside a group, the requirements.
    pub open spec fn step(self, ch: char) -> Result<Scan, CompileError> {
        if ch == '[' {
            if self.group.is_some() {
                Err(CompileError::NestedGroup)
            } else {
                Ok(Scan { group: Some(Seq::empty()), ..self })
            }
        } else if ch == ']' {
            match self.group {
                None => Err(CompileError::UnopenedGroup),
                Some(members) => match group_requirement(members) {
                    Ok(requirement) => Ok(
                        Scan { requirements: self.requirements.push(requirement), group: None },
                    ),
                    Err(e) => Err(e),
                },
            }
        } else {
            match char_requirement(ch) {
                None => Err(CompileError::UnknownCharacter(ch)),
                Some(requirement) => match self.group {
                    Some(members) => Ok(Scan { group: Some(members.push(requirement)), ..self }),
                    None => Ok(
                        Scan { requirements: self.requirements.push(requirement), ..self },
                    ),
                },
            }
        }
    }
}

/// The state after reading all of `input`, or the first error on the way.
pub open spec fn scan(input: Seq<char>) -> Result<Scan, CompileError>
    decreases input.len(),
{
    if input.len() == 0 {
        Ok(Scan::start())
    } else {
        match scan(input.drop_last()) {
            Ok(state) => state.step(input.last()),
            Err(e) => Err(e),
        }
    }
}

/// Whether a charge directly follows a charge somewhere in the list.
pub open spec fn has_double_charge(requirements: Seq<RequirementView>) -> bool {
    exists|i: int|
        0 <= i && i + 1 < requirements.len() && #[trigger] requirements[i] is Charge
            && requirements[i + 1] is Charge
}

/// What a definition compiles to. The characters are read from left to right
/// and the first error ends the reading. After it, the definition must not
/// end inside a group, must name a requirement, must not end in a charge and
/// must not hold two charges in a row.
pub open spec fn compiled(input: Seq<char>) -> Result<Seq<RequirementView>, CompileError> {
    match scan(input) {
        Err(e) => Err(e),
        Ok(state) => if state.group.is_some() {
            Err(CompileError::UnclosedGroup)
        } else if state.requirements.len() == 0 {
            Err(CompileError::Empty)
        } else if state.requirements.last() is Charge {
            Err(CompileError::TrailingCharge)
        } else if has_double_charge(state.requirements) {
            Err(CompileError::DoubleCharge)
        } else {
            Ok(state.requirements)
        },
    }
}

/// The members of the open group, if one is open, as mathematical values.
pub open spec fn group_views(group: Option<Vec<Requirement>>) -> Option<Seq<RequirementView>> {
    match group {
        Some(members) => Some(requirement_views(members@)),
        None => None,
    }
}

/// The sticks of a group whose first member is a point.
fn range_of(members: &Vec<Requirement>) -> (r: Result<Requirement, CompileError>)
    requires
        members.len() >= 2,
        members@[0]@ is Point,
    ensures
        r matches Ok(requirement) ==> group_requirement(requirement_views(members@)) is Ok
            && group_requirement(requirement_views(members@))->Ok_0 == requirement@,
        r matches Err(e) ==> group_requirement(requirement_views(members@)) is Err
            && group_requirement(requirement_views(members@))->Err_0 == e,
{
    let ghost views = requirement_views(members@);
    let mut sticks: Vec<StickPosition> = Vec::new();
    let mut i: usize = 0;
    while i < members.len()
        invariant
            i <= members.len(),
            views == requirement_views(members@),
            members.len() >= 2,
            members@[0]@ is Point,
            forall|j: int| 0 <= j < i ==> #[trigger] views[j] is Point,
            sticks@ == point_sticks(views.take(i as int)),
        decreases members.len() - i,
    {
        match &members[i] {
            Requirement::Point(stick) => {
                sticks.push(*stick);
                proof {
                    assert(views[i as int] == members@[i as int]@);
                    assert(sticks@ =~= point_sticks(views.take(i as int + 1)));
                }
            },
            _ => {
                proof {
                    assert(views[i as int] == members@[i as int]@);
                    assert(!(views[i as int] is Point));
                    assert(views[0] == members@[0]@);
                    assert(views.len() == members@.len());
                }
                return Err(CompileError::MixedGroup);
            },
        }
        i += 1;
    }
    proof {
        assert(views.take(i as int) == views);
        assert(views[0] == members@[0]@);
    }
    Ok(Requirement::Range(sticks))
}

/// The buttons of a group whose first member is a press.
fn multi_press_of(members: &Vec<Requirement>) -> (r: Result<Requirement, CompileError>)
    requires
        members.len() >= 2,
        members@[0]@ is Press,
    ensures
        r matches Ok(requirement) ==> group_requirement(requirement_views(members@)) is Ok
            && group_requirement(requirement_views(members@))->Ok_0 == requirement@,
        r matches Err(e) ==> group_requirement(requirement_views(members@)) is Err
            && group_requirement(requirement_views(members@))->Err_0 == e,
{
    let ghost views = requirement_views(members@);
    let mut buttons: Vec<GameButton> = Vec::new();
    let mut i: usize = 0;
    while i < members.len()
        invariant
            i <= members.len(),
            views == requirement_views(members@),
            members.len() >= 2,
            members@[0]@ is Press,
            forall|j: int| 0 <= j < i ==> #[trigger] views[j] is Press,
            buttons@ == press_buttons(views.take(i as int)),
        decreases members.len() - i,
    {
        match &members[i] {
            Requirement::Press(button) => {
                buttons.push(*button);
                proof {
                    assert(views[i as int] == members@[i as int]@);
                    assert(buttons@ =~= press_buttons(views.take(i as int + 1)));
                }
            },
            _ => {
                proof {
                    assert(views[i as int] == members@[i as int]@);
                    assert(!(views[i as int] is Press));
                    assert(views[0] == members@[0]@);
                    assert(views.len() == members@.len());
                }
                return Err(CompileError::MixedGroup);
            },
        }
        i += 1;
    }
    proof {
        assert(views.take(i as int) == views);
        assert(views[0] == members@[0]@);
    }
    Ok(Requirement::MultiPress(buttons))
}

/// The requirement that the members of a closed group stand for.
fn close_group(members: Vec<Requirement>) -> (r: Result<Requirement, CompileError>)
    ensures
        r matches Ok(requirement) ==> group_requirement(requirement_views(members@)) is Ok
            && group_requirement(requirement_views(members@))->Ok_0 == requirement@,
        r matches Err(e) ==> group_requirement(requirement_views(members@)) is Err
            && group_requirement(requirement_views(members@))->Err_0 == e,
{
    let mut members = members;
    let ghost views = requirement_views(members@);
    if members.len() == 0 {
        Err(CompileError::EmptyGroup)
    } else if members.len() == 1 {
        proof {
            assert(views[0] == members@[0]@);
        }
        let only = members.pop();
        Ok(only.unwrap())
    } else {
        proof {
            assert(views[0] == members@[0]@);
        }
        match &members[0] {
            Requirement::Point(_) => range_of(&members),
            Requirement::Press(_) => multi_press_of(&members),
            _ => Err(CompileError::Ungroupable),
        }
    }
}

/// Whether a charge directly follows a charge.
fn double_charge(requirements: &Vec<Requirement>) -> (r: bool)
    ensures
        r == has_double_charge(requirement_views(requirements@)),
{
    let ghost views = requirement_views(requirements@);
    let mut i: usize = 1;
    while i < requirements.len()
        invariant
            1 <= i,
            views == requirement_views(requirements@),
            forall|j: int|
                0 <= j && j + 1 < i ==> !(#[trigger] views[j] is Charge && views[j + 1] is Charge),
        decreases requirements.len() - i,
    {
        proof {
            assert(views[i as int] == requirements@[i as int]@);
            assert(views[i as int - 1] == requirements@[i as int - 1]@);
        }
        if matches!(requirements[i - 1], Requirement::Charge) && matches!(
            requirements[i],
            Requirement::Charge
        ) {
            proof {
                assert(views[i as int - 1] is Charge && views[i as int - 1 + 1] is Charge);
            }
            return true;
        }
        i += 1;
    }
    false
}

/// A list that does not end in a charge and holds no two charges in a row
/// gives every charge something to charge into.
pub proof fn lemma_checked_is_well_formed(requirements: Seq<RequirementView>)
    requires
        requirements.len() > 0,
        !(requirements.last() is Charge),
        !has_double_charge(requirements),
    ensures
        well_formed(requirements),
{
    assert forall|i: int|
        0 <= i < requirements.len() && #[trigger] requirements[i] is Charge implies i + 1
        < requirements.len() && !(requirements[i + 1] is Charge) by {
        if i + 1 < requirements.len() && requirements[i + 1] is Charge {
            assert(requirements[i] is Charge && requirements[i + 1] is Charge);
        }
    }
}

/// Compiles a definition into its requirements, or says why it does not compile.
pub fn compile(input: &str) -> (r: Result<Vec<Requirement>, CompileError>)
    ensures
        r matches Ok(requirements) ==> compiled(input@) is Ok && compiled(input@)->Ok_0
            == requirement_views(requirements@),
        r matches Ok(requirements) ==> well_formed(requirement_views(requirements@))
            && requirements@.len() > 0,
        r matches Err(e) ==> compiled(input@) is Err && compiled(input@)->Err_0 == e,
{
    let length = input.unicode_len();
    let mut requirements: Vec<Requirement> = Vec::new();
    let mut group: Option<Vec<Requirement>> = None;
    let mut i: usize = 0;
    proof {
        assert(input@.take(0).len() == 0);
        assert(requirement_views(requirements@) =~= Seq::<RequirementView>::empty());
    }
    while i < length
        invariant
            i <= length,
            length == input@.len(),
            scan(input@.take(i as int)) == Ok::<Scan, CompileError>(
                Scan {
                    requirements: requirement_views(requirements@),
                    group: group_views(group),
                },
            ),
        decreases length - i,
    {
        let ch = input.get_char(i);
        let ghost before = Scan {
            requirements: requirement_views(requirements@),
            group: group_views(group),
        };
        proof {
            let next = input@.take(i as int + 1);
            assert(next.drop_last() == input@.take(i as int));
            assert(next.last() == ch);
            assert(scan(next) == before.step(ch));
            assert(input@ == input@.take(length as int));
            if before.step(ch) is Err {
                lemma_scan_error_stays(input@, i as int + 1);
            }
        }
        if ch == '[' {
            if group.is_some() {
                return Err(CompileError::NestedGroup);
            }
            group = Some(Vec::new());
            proof {
                assert(requirement_views(Seq::<Requirement>::empty()) =~= Seq::<
                    RequirementView,
                >::empty());
            }
        } else if ch == ']' {
            match group {
                None => {
                    return Err(CompileError::UnopenedGroup);
                },
                Some(members) => {
                    let closed = close_group(members);
                    match closed {
                        Ok(requirement) => {
                            let ghost old_requirements = requirements@;
                            requirements.push(requirement);
                            proof {
                                assert(requirement_views(requirements@) =~= requirement_views(
                                    old_requirements,
                                ).push(requirement@));
                            }
                            group = None;
                        },
                        Err(e) => {
                            return Err(e);
                        },
                    }
                },
            }
        } else {
            match char_to_requirement(ch) {
                None => {
                    return Err(CompileError::UnknownCharacter(ch));
                },
                Some(requirement) => {
                    match group {
                        Some(mut members) => {
                            let ghost old_members = members@;
                            members.push(requirement);
                            proof {
                                assert(requirement_views(members@) =~= requirement_views(
                                    old_members,
                                ).push(requirement@));
                            }
                            group = Some(members);
                        },
                        None => {
                            let ghost old_requirements = requirements@;
                            requirements.push(requirement);
                            proof {
                                assert(requirement_views(requirements@) =~= requirement_views(
                                    old_requirements,
                                ).push(requirement@));
                            }
                            group = None;
                        },
                    }
                },
            }
        }
        i += 1;
    }
    proof {
        assert(input@.take(i as int) == input@);
    }
    if group.is_some() {
        return Err(CompileError::UnclosedGroup);
    }
    if requirements.len() == 0 {
        return Err(CompileError::Empty);
    }
    proof {
        let views = requirement_views(requirements@);
        assert(views.last() == requirements@[requirements@.len() - 1]@);
    }
    if matches!(requirements[requirements.len() - 1], Requirement::Charge) {
        return Err(CompileError::TrailingCharge);
    }
    if double_charge(&requirements) {
        return Err(CompileError::DoubleCharge);
    }
    proof {
        lemma_checked_is_well_formed(requirement_views(requirements@));
    }
    Ok(requirements)
}

/// Once the reading of a prefix has failed, the reading of the whole input
/// fails with the same error.
pub proof fn lemma_scan_error_stays(input: Seq<char>, n: int)
    requires
        0 <= n <= input.len(),
        scan(input.take(n)) is Err,
    ensures
        scan(input) == scan(input.take(n)),
    decreases input.len() - n,
{
    if n == input.len() {
        assert(input.take(n) == input);
    } else {
        let longer = input.take(n + 1);
        assert(longer.drop_last() == input.take(n));
        assert(scan(longer) == scan(input.take(n)));
        lemma_scan_error_stays(input, n + 1);
    }
}

/// What compiles names a requirement, does not end in a charge, and gives
/// every charge something to charge into.
pub proof fn lemma_compiled_is_well_formed(input: Seq<char>)
    requires
        compiled(input) is Ok,
    ensures
        compiled(input)->Ok_0.len() > 0,
        !(compiled(input)->Ok_0.last() is Charge),
        !has_double_charge(compiled(input)->Ok_0),
        well_formed(compiled(input)->Ok_0),
{
    lemma_checked_is_well_formed(compiled(input)->Ok_0);
}

/// The empty definition does not compile.
pub proof fn lemma_empty_does_not_compile(input: Seq<char>)
    requires
        input.len() == 0,
    ensures
        compiled(input) is Err,
        compiled(input)->Err_0 == CompileError::Empty,
{
}

/// A definition that ends in `c` does not compile.
pub proof fn lemma_trailing_charge_does_not_compile(input: Seq<char>)
    requires
        input.len() > 0,
        input.last() == 'c',
    ensures
        compiled(input) is Err,
{
    match scan(input.drop_last()) {
        Ok(state) => {
            let next = state.step('c');
            assert(char_requirement('c') == Some(RequirementView::Charge));
            assert(next is Ok);
            if state.group.is_none() {
                assert(next->Ok_0.requirements.last() is Charge);
            }
        },
        Err(_) => {},
    }
}

/// While a definition holds a `[` and no `]`, its reading has failed or a
/// group is open.
pub proof fn lemma_open_group_stays_open(input: Seq<char>)
    requires
        input.contains('['),
        !input.contains(']'),
    ensures
        scan(input) matches Ok(state) ==> state.group.is_some(),
    decreases input.len(),
{
    let earlier = input.drop_last();
    let k = choose|k: int| 0 <= k < input.len() && input[k] == '[';
    assert(input.last() != ']') by {
        assert(input.contains(input[input.len() - 1]));
    }
    assert(!earlier.contains(']')) by {
        if earlier.contains(']') {
            let j = choose|j: int| 0 <= j < earlier.len() && earlier[j] == ']';
            assert(input[j] == ']');
        }
    }
    if k < earlier.len() {
        assert(earlier[k] == '[');
        lemma_open_group_stays_open(earlier);
    } else {
        assert(input.last() == '[');
    }
}

/// A definition that holds a `[` and no `]` does not compile.
pub proof fn lemma_unclosed_group_does_not_compile(input: Seq<char>)
    requires
        input.contains('['),
        !input.contains(']'),
    ensures
        compiled(input) is Err,
{
    lemma_open_group_stays_open(input);
}

} // verus!
