//! Recognition of motion inputs: timed sequences of stick directions and button
//! events, read from a per-tick stream of controller changes.

pub mod buttons;
pub mod clock;
pub mod compiler;
pub mod direction;
pub mod helper_types;
pub mod input_parser;
pub mod motion_input;
pub mod move_id;
pub mod parser_head;
pub mod player_state;
pub mod registry;
pub mod requirement;
pub mod stick_position;
