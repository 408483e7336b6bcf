use input_parsing::stick_position::{GridVector, StickPosition};

const ALL: [StickPosition; 9] = [
    StickPosition::NW,
    StickPosition::N,
    StickPosition::NE,
    StickPosition::W,
    StickPosition::Neutral,
    StickPosition::E,
    StickPosition::SW,
    StickPosition::S,
    StickPosition::SE,
];

#[test]
fn test_ivec_stickposition_conversions() {
    for sp1 in ALL {
        let sp2 = StickPosition::from_grid(sp1.to_grid());
        assert!(sp1 == sp2)
    }
}

#[test]
fn test_flip_idempotence() {
    for sp1 in ALL {
        assert!(sp1 == sp1.flip().flip())
    }
}

#[test]
fn test_flip() {
    assert!(StickPosition::NW.flip() == StickPosition::NE);
    assert!(StickPosition::N.flip() == StickPosition::N);
    assert!(StickPosition::NE.flip() == StickPosition::NW);
    assert!(StickPosition::W.flip() == StickPosition::E);
    assert!(StickPosition::Neutral.flip() == StickPosition::Neutral);
    assert!(StickPosition::E.flip() == StickPosition::W);
    assert!(StickPosition::SW.flip() == StickPosition::SE);
    assert!(StickPosition::S.flip() == StickPosition::S);
    assert!(StickPosition::SE.flip() == StickPosition::SW);
}

#[test]
fn grid_coordinates() {
    assert_eq!(StickPosition::NW.to_grid(), GridVector { x: -1, y: 1 });
    assert_eq!(StickPosition::E.to_grid(), GridVector { x: 1, y: 0 });
    assert_eq!(StickPosition::S.to_grid(), GridVector { x: 0, y: -1 });
    assert_eq!(StickPosition::Neutral.to_grid(), GridVector { x: 0, y: 0 });
    assert_eq!(StickPosition::from_grid(GridVector { x: 1, y: -1 }), StickPosition::SE);
    assert_eq!(StickPosition::try_from_grid(GridVector { x: -1, y: 0 }), Some(StickPosition::W));
    assert_eq!(StickPosition::try_from_grid(GridVector { x: 2, y: 0 }), None);
    assert_eq!(StickPosition::try_from_grid(GridVector { x: 0, y: -2 }), None);
    assert_eq!(StickPosition::try_from_grid(GridVector { x: i32::MIN, y: i32::MAX }), None);
}

#[test]
fn numpad_keys() {
    let keys = [
        (1, StickPosition::SW),
        (2, StickPosition::S),
        (3, StickPosition::SE),
        (4, StickPosition::W),
        (5, StickPosition::Neutral),
        (6, StickPosition::E),
        (7, StickPosition::NW),
        (8, StickPosition::N),
        (9, StickPosition::NE),
    ];
    for (key, position) in keys {
        assert_eq!(StickPosition::from_numpad(key), position);
        assert_eq!(position.to_numpad(), key);
    }
}

#[test]
fn dpad_moves_one_axis() {
    // Up goes down while the stick rests: north.
    assert_eq!(StickPosition::Neutral.dpad_position(1, None, Some(1)), Some(StickPosition::N));
    // Left goes down while north is held: north-west.
    assert_eq!(StickPosition::N.dpad_position(1, Some(-1), None), Some(StickPosition::NW));
    // Up comes up again: west.
    assert_eq!(StickPosition::NW.dpad_position(0, None, Some(1)), Some(StickPosition::W));
    // Right replaces what the horizontal axis held.
    assert_eq!(StickPosition::SW.dpad_position(1, Some(1), None), Some(StickPosition::SE));
    // No axis named: the stick stays.
    assert_eq!(StickPosition::E.dpad_position(1, None, None), Some(StickPosition::E));
    // Both axes at once.
    assert_eq!(StickPosition::Neutral.dpad_position(1, Some(1), Some(-1)), Some(StickPosition::SE));
    // A product that leaves the stick.
    assert_eq!(StickPosition::Neutral.dpad_position(2, Some(1), None), None);
    assert_eq!(StickPosition::Neutral.dpad_position(i32::MAX, None, Some(i32::MAX)), None);
}
