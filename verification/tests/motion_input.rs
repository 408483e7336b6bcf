use input_parsing::buttons::GameButton;
use input_parsing::compiler::{compile, CompileError};
use input_parsing::helper_types::{Diff, Frame, InputChange, ButtonUpdate};
use input_parsing::motion_input::MotionInput;
use input_parsing::parser_head::{ParserHead, Timing};
use input_parsing::requirement::Requirement;
use input_parsing::stick_position::StickPosition;

const TIMING: Timing = Timing { max_gap: 300, charge_time: 1000 };

fn motion(definition: &str) -> MotionInput {
    match MotionInput::compile(definition) {
        Ok(motion) => motion,
        Err(e) => panic!("{:?} does not compile: {:?}", definition, e),
    }
}

fn stick(position: StickPosition) -> Diff {
    Diff::new().apply(&InputChange::Stick(position))
}

fn press(button: GameButton) -> Diff {
    Diff::new().apply(&InputChange::Button(button, ButtonUpdate::Pressed))
}

fn release(button: GameButton) -> Diff {
    Diff::new().apply(&InputChange::Button(button, ButtonUpdate::Released))
}

/// Feeds one diff to the motion and to the frame that goes with it.
fn tick(motion: &mut MotionInput, frame: &mut Frame, diff: Diff, now: u64) {
    frame.apply(diff.clone());
    motion.advance(&diff, frame, now, &TIMING);
}

#[test]
fn hadouken() {
    let parsed = motion("236l");
    assert_eq!(
        *parsed.requirements(),
        vec![
            Requirement::Point(StickPosition::S),
            Requirement::Point(StickPosition::SE),
            Requirement::Point(StickPosition::E),
            Requirement::Press(GameButton::Light),
        ]
    )
}

#[test]
fn simple_sonic_boom() {
    let parsed = motion("c46l");
    assert_eq!(
        *parsed.requirements(),
        vec![
            Requirement::Charge,
            Requirement::Point(StickPosition::W),
            Requirement::Point(StickPosition::E),
            Requirement::Press(GameButton::Light),
        ]
    )
}

#[test]
fn real_sonic_boom() {
    let parsed = motion("c[741][63]l");
    assert_eq!(
        *parsed.requirements(),
        vec![
            Requirement::Charge,
            Requirement::Range(vec![StickPosition::NW, StickPosition::W, StickPosition::SW,]),
            Requirement::Range(vec![StickPosition::E, StickPosition::SE]),
            Requirement::Press(GameButton::Light),
        ]
    )
}

#[test]
fn zonk() {
    let parsed = motion("clL");
    assert_eq!(
        *parsed.requirements(),
        vec![
            Requirement::Charge,
            Requirement::Press(GameButton::Light),
            Requirement::Release(GameButton::Light),
        ]
    )
}

#[test]
fn compiles_quarter_circle_with_fast() {
    assert_eq!(
        compile("236f"),
        Ok(vec![
            Requirement::Point(StickPosition::S),
            Requirement::Point(StickPosition::SE),
            Requirement::Point(StickPosition::E),
            Requirement::Press(GameButton::Fast),
        ])
    );
}

#[test]
fn compiles_charge_back_forward_with_fast() {
    assert_eq!(
        compile("c46f"),
        Ok(vec![
            Requirement::Charge,
            Requirement::Point(StickPosition::W),
            Requirement::Point(StickPosition::E),
            Requirement::Press(GameButton::Fast),
        ])
    );
}

#[test]
fn compiles_ranges_with_fast() {
    assert_eq!(
        compile("c[741][63]f"),
        Ok(vec![
            Requirement::Charge,
            Requirement::Range(vec![StickPosition::NW, StickPosition::W, StickPosition::SW]),
            Requirement::Range(vec![StickPosition::E, StickPosition::SE]),
            Requirement::Press(GameButton::Fast),
        ])
    );
}

#[test]
fn compiles_multi_press() {
    assert_eq!(
        compile("[fs]"),
        Ok(vec![Requirement::MultiPress(vec![GameButton::Fast, GameButton::Strong])])
    );
}

#[test]
fn compiles_every_digit() {
    assert_eq!(
        compile("123456789"),
        Ok(vec![
            Requirement::Point(StickPosition::SW),
            Requirement::Point(StickPosition::S),
            Requirement::Point(StickPosition::SE),
            Requirement::Point(StickPosition::W),
            Requirement::Point(StickPosition::Neutral),
            Requirement::Point(StickPosition::E),
            Requirement::Point(StickPosition::NW),
            Requirement::Point(StickPosition::N),
            Requirement::Point(StickPosition::NE),
        ])
    );
}

#[test]
fn compiles_every_button_letter() {
    assert_eq!(
        compile("fsgetlh"),
        Ok(vec![
            Requirement::Press(GameButton::Fast),
            Requirement::Press(GameButton::Strong),
            Requirement::Press(GameButton::Grab),
            Requirement::Press(GameButton::Equipment),
            Requirement::Press(GameButton::Taunt),
            Requirement::Press(GameButton::Light),
            Requirement::Press(GameButton::Heavy),
        ])
    );
    assert_eq!(
        compile("FSGETLH"),
        Ok(vec![
            Requirement::Release(GameButton::Fast),
            Requirement::Release(GameButton::Strong),
            Requirement::Release(GameButton::Grab),
            Requirement::Release(GameButton::Equipment),
            Requirement::Release(GameButton::Taunt),
            Requirement::Release(GameButton::Light),
            Requirement::Release(GameButton::Heavy),
        ])
    );
}

#[test]
fn group_of_one_is_its_member() {
    assert_eq!(compile("[6]f"), compile("6f"));
    assert_eq!(compile("[c]6"), Ok(vec![Requirement::Charge, Requirement::Point(StickPosition::E)]));
}

#[test]
fn fresh_motion_has_no_heads() {
    let parsed = motion("236f");
    assert!(parsed.heads().is_empty());
    assert!(!parsed.is_done());
}

#[test]
fn trailing_charge_does_not_compile() {
    assert_eq!(compile("c"), Err(CompileError::TrailingCharge));
    assert_eq!(compile("46c"), Err(CompileError::TrailingCharge));
    assert!(MotionInput::compile("236c").is_err());
}

#[test]
fn unclosed_group_does_not_compile() {
    assert_eq!(compile("["), Err(CompileError::UnclosedGroup));
    assert_eq!(compile("c[74"), Err(CompileError::UnclosedGroup));
    assert_eq!(compile("2[36"), Err(CompileError::UnclosedGroup));
}

#[test]
fn empty_definition_does_not_compile() {
    assert_eq!(compile(""), Err(CompileError::Empty));
    assert!(MotionInput::compile("").is_err());
}

#[test]
fn nested_group_does_not_compile() {
    assert_eq!(compile("[7[4]1]"), Err(CompileError::NestedGroup));
    assert_eq!(compile("[["), Err(CompileError::NestedGroup));
}

#[test]
fn unopened_group_does_not_compile() {
    assert_eq!(compile("]"), Err(CompileError::UnopenedGroup));
    assert_eq!(compile("23]6"), Err(CompileError::UnopenedGroup));
    assert_eq!(compile("[23]]"), Err(CompileError::UnopenedGroup));
}

#[test]
fn empty_group_does_not_compile() {
    assert_eq!(compile("[]"), Err(CompileError::EmptyGroup));
    assert_eq!(compile("2[]f"), Err(CompileError::EmptyGroup));
}

#[test]
fn unknown_character_does_not_compile() {
    assert_eq!(compile("23x"), Err(CompileError::UnknownCharacter('x')));
    assert_eq!(compile("0"), Err(CompileError::UnknownCharacter('0')));
    assert_eq!(compile("[2 3]"), Err(CompileError::UnknownCharacter(' ')));
    assert_eq!(compile("2é"), Err(CompileError::UnknownCharacter('é')));
}

#[test]
fn mixed_group_does_not_compile() {
    assert_eq!(compile("[2f]"), Err(CompileError::MixedGroup));
    assert_eq!(compile("[f2]"), Err(CompileError::MixedGroup));
    assert_eq!(compile("[fsF]"), Err(CompileError::MixedGroup));
    assert_eq!(compile("[23c]"), Err(CompileError::MixedGroup));
}

#[test]
fn ungroupable_members_do_not_compile() {
    assert_eq!(compile("[FS]"), Err(CompileError::Ungroupable));
    assert_eq!(compile("[c6]"), Err(CompileError::Ungroupable));
}

#[test]
fn double_charge_does_not_compile() {
    assert_eq!(compile("cc6"), Err(CompileError::DoubleCharge));
    assert_eq!(compile("2cc6f"), Err(CompileError::DoubleCharge));
}

#[test]
fn first_error_is_reported() {
    // The unknown character is read before the group is found unclosed.
    assert_eq!(compile("[2x"), Err(CompileError::UnknownCharacter('x')));
    // The stray bracket is read before the trailing charge is seen.
    assert_eq!(compile("]c"), Err(CompileError::UnopenedGroup));
}

#[test]
fn motion_completes_and_stays_done_until_cleared() {
    let mut parsed = motion("236f");
    let mut frame = Frame::new();
    tick(&mut parsed, &mut frame, stick(StickPosition::S), 0);
    tick(&mut parsed, &mut frame, stick(StickPosition::SE), 10);
    tick(&mut parsed, &mut frame, stick(StickPosition::E), 20);
    assert!(!parsed.is_done());
    tick(&mut parsed, &mut frame, press(GameButton::Fast), 30);
    assert!(parsed.is_done());
    let heads = parsed.heads().len();
    // A done motion does not change, whatever comes.
    tick(&mut parsed, &mut frame, stick(StickPosition::W), 5000);
    assert!(parsed.is_done());
    assert_eq!(parsed.heads().len(), heads);
    parsed.clear();
    assert!(!parsed.is_done());
    assert!(parsed.heads().is_empty());
    assert_eq!(parsed.requirements().len(), 4);
}

#[test]
fn one_diff_can_pass_several_requirements() {
    let mut parsed = motion("fs");
    let mut frame = Frame::new();
    let both = press(GameButton::Fast)
        .apply(&InputChange::Button(GameButton::Strong, ButtonUpdate::Pressed));
    tick(&mut parsed, &mut frame, both, 0);
    assert!(parsed.is_done());
}

#[test]
fn held_input_starts_a_motion() {
    // The first requirement is already true when the motion first looks.
    let mut parsed = motion("3f");
    let mut frame = Frame::new();
    frame.apply(stick(StickPosition::SE));
    assert!(!parsed.is_done());
    tick(&mut parsed, &mut frame, press(GameButton::Fast), 0);
    assert!(parsed.is_done());
    assert_eq!(parsed.heads().len(), 1);
    assert_eq!(parsed.heads()[0].index, 2);
}

#[test]
fn no_second_head_at_the_same_index() {
    let mut parsed = motion("236f");
    let mut frame = Frame::new();
    tick(&mut parsed, &mut frame, stick(StickPosition::N), 0);
    assert_eq!(parsed.heads().len(), 1);
    assert_eq!(parsed.heads()[0].index, 0);
    tick(&mut parsed, &mut frame, stick(StickPosition::NE), 10);
    assert_eq!(parsed.heads().len(), 1);
    tick(&mut parsed, &mut frame, stick(StickPosition::S), 20);
    // The candidate went to index 1; the waiting head took the same step.
    assert_eq!(parsed.heads().len(), 2);
    assert_eq!(parsed.heads()[0].index, 1);
    assert_eq!(parsed.heads()[1].index, 1);
}

#[test]
fn head_expires_after_the_gap() {
    let mut parsed = motion("26");
    let mut frame = Frame::new();
    tick(&mut parsed, &mut frame, stick(StickPosition::S), 1000);
    assert_eq!(parsed.heads().len(), 1);
    assert_eq!(parsed.heads()[0].last_update, Some(1000));
    // Exactly the gap: still alive.
    tick(&mut parsed, &mut frame, stick(StickPosition::N), 1300);
    assert_eq!(parsed.heads().iter().filter(|head| head.index == 1).count(), 1);
    // One millisecond more: dropped before it can move.
    tick(&mut parsed, &mut frame, stick(StickPosition::E), 1301);
    assert!(!parsed.is_done());
    assert_eq!(parsed.heads().iter().filter(|head| head.index == 1).count(), 0);
}

#[test]
fn head_expiry_formula() {
    let mut head = ParserHead::new();
    assert!(!head.expired(u64::MAX, &TIMING));
    head.last_update = Some(100);
    assert!(!head.expired(400, &TIMING));
    assert!(head.expired(401, &TIMING));
    assert!(!head.expired(50, &TIMING));
    head.charge_started = Some(100);
    assert!(!head.expired(401, &TIMING));
    assert!(!head.expired(u64::MAX, &TIMING));
}

#[test]
fn charge_needs_the_charge_time() {
    let requirements = compile("c46").unwrap();
    let mut head = ParserHead::new();
    head.advance(&requirements, &stick(StickPosition::W), 0, &TIMING);
    assert_eq!(head.index, 0);
    assert_eq!(head.charge_started, Some(0));
    // One millisecond short: the charge is dropped when the stick leaves.
    let mut early = head.clone();
    early.advance(&requirements, &stick(StickPosition::E), 999, &TIMING);
    assert_eq!(early.index, 0);
    assert_eq!(early.charge_started, None);
    // Exactly the charge time: the charge and what it charged are passed,
    // and the same diff passes the next requirement.
    head.advance(&requirements, &stick(StickPosition::E), 1000, &TIMING);
    assert_eq!(head.index, 3);
    assert_eq!(head.charge_started, None);
    assert_eq!(head.last_update, Some(1000));
    assert!(head.is_done(&requirements));
}

#[test]
fn charge_is_dropped_by_a_diff_that_does_not_meet_it() {
    let requirements = compile("c4f").unwrap();
    let mut head = ParserHead::new();
    head.advance(&requirements, &stick(StickPosition::W), 0, &TIMING);
    assert_eq!(head.charge_started, Some(0));
    head.advance(&requirements, &press(GameButton::Strong), 10, &TIMING);
    assert_eq!(head.charge_started, None);
    head.advance(&requirements, &stick(StickPosition::W), 20, &TIMING);
    assert_eq!(head.charge_started, Some(20));
}

#[test]
fn release_is_recognized() {
    let mut parsed = motion("fF");
    let mut frame = Frame::new();
    tick(&mut parsed, &mut frame, press(GameButton::Fast), 0);
    assert!(!parsed.is_done());
    tick(&mut parsed, &mut frame, release(GameButton::Strong), 10);
    assert!(!parsed.is_done());
    tick(&mut parsed, &mut frame, release(GameButton::Fast), 20);
    assert!(parsed.is_done());
}

#[test]
fn range_accepts_each_member() {
    for position in [StickPosition::NW, StickPosition::W, StickPosition::SW] {
        let mut parsed = motion("[741]f");
        let mut frame = Frame::new();
        tick(&mut parsed, &mut frame, stick(position), 0);
        tick(&mut parsed, &mut frame, press(GameButton::Fast), 10);
        assert!(parsed.is_done());
    }
    let mut parsed = motion("[741]f");
    let mut frame = Frame::new();
    tick(&mut parsed, &mut frame, stick(StickPosition::E), 0);
    tick(&mut parsed, &mut frame, press(GameButton::Fast), 10);
    assert!(!parsed.is_done());
}

#[test]
fn multi_press_gathers_over_ticks() {
    let requirements = compile("[fs]").unwrap();
    let mut head = ParserHead::new();
    let met = head.requirement_met(&requirements[0], &press(GameButton::Fast));
    assert!(!met);
    assert!(head.multipresses_received.contains(GameButton::Fast));
    let met = head.requirement_met(&requirements[0], &stick(StickPosition::S));
    assert!(!met);
    let met = head.requirement_met(&requirements[0], &press(GameButton::Strong));
    assert!(met);
}

#[test]
fn requirement_lookup_by_offset() {
    let requirements = compile("c46f").unwrap();
    let head = ParserHead::new();
    assert_eq!(head.get_next_requirement(&requirements), Some(&requirements[1]));
    assert_eq!(head.get_requirement_with_offset(&requirements, 3), Some(&requirements[3]));
    assert_eq!(head.get_requirement_with_offset(&requirements, 4), None);
    assert_eq!(head.get_requirement_with_offset(&requirements, usize::MAX), None);
}

#[test]
fn clone_keeps_requirements_and_heads() {
    let mut parsed = motion("c[741][63][fs]F");
    let mut frame = Frame::new();
    tick(&mut parsed, &mut frame, stick(StickPosition::W), 0);
    let copy = parsed.clone();
    assert_eq!(copy.requirements(), parsed.requirements());
    assert_eq!(copy.heads(), parsed.heads());
    assert_eq!(copy.heads().len(), 1);
    assert_eq!(copy.heads()[0].charge_started, Some(0));
    assert_eq!(copy.requirements()[3].clone(), Requirement::MultiPress(vec![GameButton::Fast, GameButton::Strong]));
}

#[test]
fn standard_timing() {
    assert_eq!(Timing::default(), Timing { max_gap: 300, charge_time: 1000 });
}
