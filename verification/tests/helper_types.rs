use input_parsing::buttons::{ButtonSet, GameButton};
use input_parsing::direction::LRDirection;
use input_parsing::helper_types::{ButtonUpdate, Diff, Frame, InputChange};
use input_parsing::motion_input::MotionInput;
use input_parsing::move_id::MoveId;
use input_parsing::player_state::{GroundActivity, JumpDirection, StateEvent};
use input_parsing::registry::Registry;
use input_parsing::stick_position::StickPosition;

fn sorted(set: &ButtonSet) -> Vec<String> {
    let mut names: Vec<String> = set.to_vec().iter().map(|b| format!("{:?}", b)).collect();
    names.sort();
    names
}

#[test]
fn button_set_insert_and_contains() {
    let mut set = ButtonSet::new();
    assert!(set.is_empty());
    assert!(!set.contains(GameButton::Fast));
    set.insert(GameButton::Fast);
    set.insert(GameButton::Fast);
    assert!(set.contains(GameButton::Fast));
    assert!(!set.contains(GameButton::Strong));
    assert!(!set.is_empty());
    assert_eq!(set.to_vec(), vec![GameButton::Fast]);
}

#[test]
fn button_set_remove() {
    let mut set = ButtonSet::from_buttons(&vec![GameButton::Fast, GameButton::Strong]);
    set.remove(GameButton::Fast);
    assert!(!set.contains(GameButton::Fast));
    assert_eq!(set.to_vec(), vec![GameButton::Strong]);
    set.remove(GameButton::Grab);
    assert_eq!(set.to_vec(), vec![GameButton::Strong]);
    set.remove(GameButton::Strong);
    assert!(set.is_empty());
}

#[test]
fn button_set_from_buttons_holds_each_once() {
    let set = ButtonSet::from_buttons(&vec![
        GameButton::Grab,
        GameButton::Fast,
        GameButton::Grab,
    ]);
    assert_eq!(sorted(&set), vec!["Fast", "Grab"]);
}

#[test]
fn button_set_extend_and_remove_all() {
    let mut set = ButtonSet::from_buttons(&vec![GameButton::Fast, GameButton::Strong]);
    let other = ButtonSet::from_buttons(&vec![GameButton::Strong, GameButton::Taunt]);
    set.extend(&other);
    assert_eq!(sorted(&set), vec!["Fast", "Strong", "Taunt"]);
    assert_eq!(sorted(&other), vec!["Strong", "Taunt"]);
    set.remove_all(&other);
    assert_eq!(sorted(&set), vec!["Fast"]);
}

#[test]
fn button_set_holds_all() {
    let set = ButtonSet::from_buttons(&vec![GameButton::Fast, GameButton::Strong]);
    assert!(set.holds_all(&vec![]));
    assert!(set.holds_all(&vec![GameButton::Strong, GameButton::Fast, GameButton::Strong]));
    assert!(!set.holds_all(&vec![GameButton::Strong, GameButton::Grab]));
}

#[test]
fn button_set_clone_is_independent() {
    let mut set = ButtonSet::from_buttons(&vec![GameButton::Fast]);
    let copy = set.clone();
    set.insert(GameButton::Strong);
    assert_eq!(sorted(&copy), vec!["Fast"]);
    assert_eq!(sorted(&set), vec!["Fast", "Strong"]);
    assert!(ButtonSet::default().is_empty());
}

#[test]
fn diff_apply_takes_changes_in() {
    let diff = Diff::new();
    assert!(diff.stick_move.is_none() && diff.pressed.is_none() && diff.released.is_none());
    let diff = diff
        .apply(&InputChange::Stick(StickPosition::S))
        .apply(&InputChange::Button(GameButton::Fast, ButtonUpdate::Pressed))
        .apply(&InputChange::Stick(StickPosition::SE))
        .apply(&InputChange::Button(GameButton::Strong, ButtonUpdate::Pressed))
        .apply(&InputChange::Button(GameButton::Grab, ButtonUpdate::Released));
    assert_eq!(diff.stick_move, Some(StickPosition::SE));
    assert!(diff.pressed_contains(&GameButton::Fast));
    assert!(diff.pressed_contains(&GameButton::Strong));
    assert!(!diff.pressed_contains(&GameButton::Grab));
    assert!(diff.released_contains(&GameButton::Grab));
    assert!(!diff.released_contains(&GameButton::Fast));
    assert!(!Diff::default().pressed_contains(&GameButton::Fast));
    assert!(!Diff::default().released_contains(&GameButton::Fast));
}

#[test]
fn diff_from_changes_folds_in_order() {
    let diff = Diff::from_changes(&vec![
        InputChange::Stick(StickPosition::W),
        InputChange::Button(GameButton::Fast, ButtonUpdate::Pressed),
        InputChange::Stick(StickPosition::E),
        InputChange::Button(GameButton::Fast, ButtonUpdate::Released),
    ]);
    assert_eq!(diff.stick_move, Some(StickPosition::E));
    assert_eq!(diff.pressed.unwrap().to_vec(), vec![GameButton::Fast]);
    assert_eq!(diff.released.unwrap().to_vec(), vec![GameButton::Fast]);
    let nothing = Diff::from_changes(&vec![]);
    assert!(nothing.stick_move.is_none() && nothing.pressed.is_none());
}

#[test]
fn diff_flip_mirrors_the_stick_only() {
    let diff = Diff::new()
        .apply(&InputChange::Stick(StickPosition::NE))
        .apply(&InputChange::Button(GameButton::Fast, ButtonUpdate::Pressed))
        .flip();
    assert_eq!(diff.stick_move, Some(StickPosition::NW));
    assert!(diff.pressed_contains(&GameButton::Fast));
    assert!(Diff::new().flip().stick_move.is_none());
}

#[test]
fn diff_clone_keeps_everything() {
    let diff = Diff::new()
        .apply(&InputChange::Stick(StickPosition::N))
        .apply(&InputChange::Button(GameButton::Taunt, ButtonUpdate::Released));
    let copy = diff.clone();
    assert_eq!(copy.stick_move, Some(StickPosition::N));
    assert!(copy.pressed.is_none());
    assert!(copy.released_contains(&GameButton::Taunt));
}

#[test]
fn frame_apply_presses_then_releases() {
    let mut frame = Frame::new();
    assert!(frame.is_neutral());
    frame.apply(
        Diff::new()
            .apply(&InputChange::Stick(StickPosition::S))
            .apply(&InputChange::Button(GameButton::Fast, ButtonUpdate::Pressed))
            .apply(&InputChange::Button(GameButton::Strong, ButtonUpdate::Pressed)),
    );
    assert_eq!(frame.stick_position, StickPosition::S);
    assert_eq!(sorted(&frame.pressed), vec!["Fast", "Strong"]);
    assert!(!frame.is_neutral());
    // No stick move: the position stays. Pressed and released at once: released.
    frame.apply(
        Diff::new()
            .apply(&InputChange::Button(GameButton::Grab, ButtonUpdate::Pressed))
            .apply(&InputChange::Button(GameButton::Grab, ButtonUpdate::Released))
            .apply(&InputChange::Button(GameButton::Fast, ButtonUpdate::Released)),
    );
    assert_eq!(frame.stick_position, StickPosition::S);
    assert_eq!(sorted(&frame.pressed), vec!["Strong"]);
    let copy = frame.clone();
    assert_eq!(copy.stick_position, StickPosition::S);
    assert_eq!(sorted(&copy.pressed), vec!["Strong"]);
}

#[test]
fn frame_diff_from_neutral() {
    let frame = Frame::default();
    let diff = frame.diff_from_neutral();
    assert!(diff.stick_move.is_none() && diff.pressed.is_none() && diff.released.is_none());

    let mut frame = Frame::new();
    frame.apply(
        Diff::new()
            .apply(&InputChange::Stick(StickPosition::SE))
            .apply(&InputChange::Button(GameButton::Fast, ButtonUpdate::Pressed)),
    );
    let diff = frame.diff_from_neutral();
    assert_eq!(diff.stick_move, Some(StickPosition::SE));
    assert_eq!(diff.pressed.unwrap().to_vec(), vec![GameButton::Fast]);
    assert!(diff.released.is_none());
}

#[test]
fn registry_keeps_the_last_motion_of_a_move() {
    let mut registry = Registry::new();
    assert!(registry.ids().is_empty());
    registry.insert(MoveId::Hadouken, MotionInput::compile("236f").unwrap());
    registry.insert(MoveId::Punch, MotionInput::compile("f").unwrap());
    registry.insert(MoveId::Hadouken, MotionInput::compile("236s").unwrap());
    let mut ids = registry.ids();
    ids.sort();
    assert_eq!(ids, vec![MoveId::Hadouken, MoveId::Punch]);
    let taken = registry.remove(MoveId::Hadouken).unwrap();
    assert_eq!(taken.requirements(), MotionInput::compile("236s").unwrap().requirements());
    assert!(registry.remove(MoveId::Hadouken).is_none());
    assert_eq!(registry.ids(), vec![MoveId::Punch]);
}

#[test]
fn facing_mirrors_the_stick() {
    assert_eq!(LRDirection::Right.mirror_stick(StickPosition::NE), StickPosition::NE);
    assert_eq!(LRDirection::Left.mirror_stick(StickPosition::NE), StickPosition::NW);
    assert_eq!(LRDirection::Left.mirror_stick(StickPosition::S), StickPosition::S);
    let mut facing = LRDirection::default();
    assert_eq!(facing, LRDirection::Right);
    facing.set_flipped(true);
    assert_eq!(facing, LRDirection::Left);
    facing.set_flipped(false);
    assert_eq!(facing, LRDirection::Right);
}

#[test]
fn defaults_of_the_state_types() {
    assert_eq!(MoveId::default(), MoveId::Default);
    assert_eq!(GameButton::default(), GameButton::Default);
    assert_eq!(JumpDirection::default(), JumpDirection::Null);
    assert_eq!(StateEvent::default(), StateEvent::Null);
    assert_eq!(GroundActivity::default(), GroundActivity::Standing);
    assert_eq!(StickPosition::default(), StickPosition::Neutral);
}

#[test]
fn diff_combine_joins_the_fields() {
    let earlier = Diff::new()
        .apply(&InputChange::Stick(StickPosition::W))
        .apply(&InputChange::Button(GameButton::Fast, ButtonUpdate::Pressed));
    let later = Diff::new()
        .apply(&InputChange::Button(GameButton::Strong, ButtonUpdate::Pressed))
        .apply(&InputChange::Button(GameButton::Fast, ButtonUpdate::Released));
    let both = earlier.clone().combine(&later);
    // No later stick move: the earlier one stays.
    assert_eq!(both.stick_move, Some(StickPosition::W));
    assert_eq!(sorted(&both.pressed.unwrap()), vec!["Fast", "Strong"]);
    assert_eq!(sorted(&both.released.unwrap()), vec!["Fast"]);

    let moved = earlier.clone().combine(&Diff::new().apply(&InputChange::Stick(StickPosition::E)));
    assert_eq!(moved.stick_move, Some(StickPosition::E));
    assert_eq!(sorted(&moved.pressed.unwrap()), vec!["Fast"]);
    assert!(moved.released.is_none());

    assert_eq!(earlier.clone().combine(&Diff::new()), earlier);
    assert_eq!(Diff::new().combine(&earlier), earlier);
    assert_eq!(Diff::new().combine(&Diff::new()), Diff::new());
}

#[test]
fn diff_of_joined_changes_is_the_combined_diff() {
    let first = vec![
        InputChange::Stick(StickPosition::S),
        InputChange::Button(GameButton::Grab, ButtonUpdate::Pressed),
    ];
    let second = vec![
        InputChange::Button(GameButton::Grab, ButtonUpdate::Released),
        InputChange::Stick(StickPosition::SE),
        InputChange::Button(GameButton::Taunt, ButtonUpdate::Pressed),
    ];
    let mut all = first.clone();
    all.extend(second.iter().copied());
    assert_eq!(
        Diff::from_changes(&all),
        Diff::from_changes(&first).combine(&Diff::from_changes(&second))
    );
}
