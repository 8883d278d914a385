use tetris_bot::input::{AiMove, InputConfig, InputSender, InputStep, MoveInput};

fn keys() -> InputConfig {
    InputConfig {
        vk_left: 1,
        vk_right: 2,
        vk_rotate_cw: 3,
        vk_rotate_ccw: 4,
        vk_rotate_180: 5,
        vk_soft_drop: 6,
        vk_hard_drop: 7,
        vk_hold: 8,
    }
}

const ALL: [MoveInput; 8] = [
    MoveInput::Left,
    MoveInput::Right,
    MoveInput::RotateCW,
    MoveInput::RotateCCW,
    MoveInput::Rotate180,
    MoveInput::SoftDrop,
    MoveInput::HardDrop,
    MoveInput::Hold,
];

fn plan(inputs: &[MoveInput]) -> Vec<InputStep> {
    InputSender::new(&keys()).execute_move(&AiMove { inputs: inputs.to_vec() })
}

#[test]
fn every_input_has_its_key() {
    let sender = InputSender::new(&keys());
    for (i, input) in ALL.iter().enumerate() {
        assert_eq!(sender.input_to_vk(*input) as usize, i + 1);
    }
}

#[test]
fn an_empty_move_presses_nothing() {
    assert_eq!(
        plan(&[]),
        vec![InputStep::LimitRate, InputStep::MayThink, InputStep::MarkPlaced]
    );
}

#[test]
fn a_single_input() {
    assert_eq!(
        plan(&[MoveInput::HardDrop]),
        vec![
            InputStep::LimitRate,
            InputStep::MayThink,
            InputStep::KeyDown(7),
            InputStep::HoldDelay,
            InputStep::KeyUp(7),
            InputStep::MarkPlaced,
        ]
    );
}

#[test]
fn repeated_and_reversed_directions() {
    assert_eq!(
        plan(&[MoveInput::Left, MoveInput::Left, MoveInput::Right, MoveInput::RotateCW]),
        vec![
            InputStep::LimitRate,
            InputStep::MayThink,
            InputStep::KeyDown(1),
            InputStep::HoldDelay,
            InputStep::KeyUp(1),
            InputStep::KeyDelay,
            InputStep::RepeatDelay,
            InputStep::KeyDown(1),
            InputStep::HoldDelay,
            InputStep::KeyUp(1),
            InputStep::KeyDelay,
            InputStep::SwitchDelay,
            InputStep::KeyDown(2),
            InputStep::HoldDelay,
            InputStep::KeyUp(2),
            InputStep::KeyDelay,
            InputStep::KeyDown(3),
            InputStep::HoldDelay,
            InputStep::KeyUp(3),
            InputStep::MarkPlaced,
        ]
    );
}

#[test]
fn repeated_rotations_have_no_extra_pause() {
    let steps = plan(&[MoveInput::RotateCW, MoveInput::RotateCW, MoveInput::Left]);
    assert!(!steps.contains(&InputStep::RepeatDelay));
    assert!(!steps.contains(&InputStep::SwitchDelay));
}

#[test]
fn keys_are_pressed_and_released_in_order() {
    let steps = plan(&ALL);
    let down: Vec<u16> = steps
        .iter()
        .filter_map(|s| if let InputStep::KeyDown(vk) = s { Some(*vk) } else { None })
        .collect();
    let up: Vec<u16> = steps
        .iter()
        .filter_map(|s| if let InputStep::KeyUp(vk) = s { Some(*vk) } else { None })
        .collect();
    assert_eq!(down, vec![1, 2, 3, 4, 5, 6, 7, 8]);
    assert_eq!(up, down);
}
