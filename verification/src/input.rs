//! Turning a move into a sequence of key presses and pauses.
//!
//! How long each pause lasts is drawn when it is made; the sequence says only
//! which kind of pause it is.
use vstd::prelude::*;

verus! {

/// A single input of a move.
#[derive(Debug, Clone, Copy, PartialEq, Eq, Structural)]
pub enum MoveInput {
    Left,
    Right,
    RotateCW,
    RotateCCW,
    Rotate180,
    SoftDrop,
    HardDrop,
    Hold,
}

/// A move: its inputs in order.
#[derive(Debug)]
pub struct AiMove {
    pub inputs: Vec<MoveInput>,
}

/// The virtual key codes of the inputs.
#[derive(Debug, Clone, Copy)]
pub struct InputConfig {
    pub vk_left: u16,
    pub vk_right: u16,
    pub vk_rotate_cw: u16,
    pub vk_rotate_ccw: u16,
    pub vk_rotate_180: u16,
    pub vk_soft_drop: u16,
    pub vk_hard_drop: u16,
    pub vk_hold: u16,
}

/// A step of carrying out a move.
#[derive(Debug, Clone, Copy, PartialEq, Eq, Structural)]
pub enum InputStep {
    /// Wait until the last piece is long enough ago.
    LimitRate,
    /// Pause to think, with the configured chance.
    MayThink,
    /// Pause as when a key repeats.
    RepeatDelay,
    /// Pause as when the direction changes.
    SwitchDelay,
    /// Press a key.
    KeyDown(u16),
    /// Keep the key pressed for a while.
    HoldDelay,
    /// Release a key.
    KeyUp(u16),
    /// Pause between two keys.
    KeyDelay,
    /// Take note of the time at which the piece was placed.
    MarkPlaced,
}

/// Whether an input moves the piece sideways.
pub open spec fn is_lateral(input: MoveInput) -> bool {
    input == MoveInput::Left || input == MoveInput::Right
}

/// The pause before the `i`-th input: repeated sideways inputs come at the
/// repeat rate, and a change of direction takes a little longer.
pub open spec fn lead_in(inputs: Seq<MoveInput>, i: int) -> Seq<InputStep> {
    if i > 0 && is_lateral(inputs[i]) && inputs[i - 1] == inputs[i] {
        seq![InputStep::RepeatDelay]
    } else if i > 0 && is_lateral(inputs[i]) && is_lateral(inputs[i - 1]) {
        seq![InputStep::SwitchDelay]
    } else {
        seq![]
    }
}

/// The pause after the `i`-th input, if another one follows.
pub open spec fn lead_out(inputs: Seq<MoveInput>, i: int) -> Seq<InputStep> {
    if i + 1 < inputs.len() {
        seq![InputStep::KeyDelay]
    } else {
        seq![]
    }
}

/// Sends moves with the configured keys.
#[derive(Debug, Clone, Copy)]
pub struct InputSender {
    pub keys: InputConfig,
}

impl InputSender {
    /// The key of an input.
    pub open spec fn key(self, input: MoveInput) -> u16 {
        match input {
            MoveInput::Left => self.keys.vk_left,
            MoveInput::Right => self.keys.vk_right,
            MoveInput::RotateCW => self.keys.vk_rotate_cw,
            MoveInput::RotateCCW => self.keys.vk_rotate_ccw,
            MoveInput::Rotate180 => self.keys.vk_rotate_180,
            MoveInput::SoftDrop => self.keys.vk_soft_drop,
            MoveInput::HardDrop => self.keys.vk_hard_drop,
            MoveInput::Hold => self.keys.vk_hold,
        }
    }

    /// The steps of the `i`-th input.
    pub open spec fn input_steps(self, inputs: Seq<MoveInput>, i: int) -> Seq<InputStep> {
        lead_in(inputs, i) + seq![
            InputStep::KeyDown(self.key(inputs[i])),
            InputStep::HoldDelay,
            InputStep::KeyUp(self.key(inputs[i])),
        ] + lead_out(inputs, i)
    }

    /// The steps of the first `n` inputs.
    pub open spec fn steps(self, inputs: Seq<MoveInput>, n: int) -> Seq<InputStep>
        decreases n,
    {
        if n <= 0 {
            seq![InputStep::LimitRate, InputStep::MayThink]
        } else {
            self.steps(inputs, n - 1) + self.input_steps(inputs, n - 1)
        }
    }

    /// A sender for the configured keys.
    pub fn new(cfg: &InputConfig) -> (sender: Self)
        ensures
            sender.keys == *cfg,
    {
        InputSender { keys: *cfg }
    }

    /// The key of an input.
    pub fn input_to_vk(&self, input: MoveInput) -> (vk: u16)
        ensures
            vk == self.key(input),
    {
        match input {
            MoveInput::Left => self.keys.vk_left,
            MoveInput::Right => self.keys.vk_right,
            MoveInput::RotateCW => self.keys.vk_rotate_cw,
            MoveInput::RotateCCW => self.keys.vk_rotate_ccw,
            MoveInput::Rotate180 => self.keys.vk_rotate_180,
            MoveInput::SoftDrop => self.keys.vk_soft_drop,
            MoveInput::HardDrop => self.keys.vk_hard_drop,
            MoveInput::Hold => self.keys.vk_hold,
        }
    }

    /// The steps that carry out a move, in order. They are to be given up at the
    /// first key that cannot be sent.
    pub fn execute_move(&self, ai_move: &AiMove) -> (steps: Vec<InputStep>)
        ensures
            steps@ == self.steps(ai_move.inputs@, ai_move.inputs@.len() as int).push(
                InputStep::MarkPlaced,
            ),
    {
        let inputs = &ai_move.inputs;
        let mut steps: Vec<InputStep> = Vec::new();
        steps.push(InputStep::LimitRate);
        steps.push(InputStep::MayThink);
        assert(steps@ =~= self.steps(inputs@, 0));
        for i in 0..inputs.len()
            invariant
                steps@ == self.steps(inputs@, i as int),
        {
            let ghost before = steps@;
            let input = inputs[i];
            let vk = self.input_to_vk(input);
            let lateral = input == MoveInput::Left || input == MoveInput::Right;
            if lateral && i > 0 {
                let last = inputs[i - 1];
                if last == input {
                    steps.push(InputStep::RepeatDelay);
                } else if last == MoveInput::Left || last == MoveInput::Right {
                    steps.push(InputStep::SwitchDelay);
                }
            }
            assert(steps@ =~= before + lead_in(inputs@, i as int));
            steps.push(InputStep::KeyDown(vk));
            steps.push(InputStep::HoldDelay);
            steps.push(InputStep::KeyUp(vk));
            if i + 1 < inputs.len() {
                steps.push(InputStep::KeyDelay);
            }
            assert(steps@ =~= before + self.input_steps(inputs@, i as int));
        }
        steps.push(InputStep::MarkPlaced);
        steps
    }
}

// ---- what a plan guarantees ----

/// The keys that a plan presses, in order.
pub open spec fn presses(steps: Seq<InputStep>) -> Seq<u16>
    decreases steps.len(),
{
    if steps.len() == 0 {
        seq![]
    } else {
        match steps.last() {
            InputStep::KeyDown(vk) => presses(steps.drop_last()).push(vk),
            _ => presses(steps.drop_last()),
        }
    }
}

/// The keys that a plan releases, in order.
pub open spec fn releases(steps: Seq<InputStep>) -> Seq<u16>
    decreases steps.len(),
{
    if steps.len() == 0 {
        seq![]
    } else {
        match steps.last() {
            InputStep::KeyUp(vk) => releases(steps.drop_last()).push(vk),
            _ => releases(steps.drop_last()),
        }
    }
}

proof fn lemma_keys_concat(a: Seq<InputStep>, b: Seq<InputStep>)
    ensures
        presses(a + b) == presses(a) + presses(b),
        releases(a + b) == releases(a) + releases(b),
    decreases b.len(),
{
    if b.len() == 0 {
        assert(a + b =~= a);
    } else {
        assert((a + b).drop_last() =~= a + b.drop_last());
        lemma_keys_concat(a, b.drop_last());
        assert(presses(a + b) =~= presses(a) + presses(b));
        assert(releases(a + b) =~= releases(a) + releases(b));
    }
}

/// The keys of one input: pressed once, released once.
proof fn lemma_input_keys(sender: InputSender, inputs: Seq<MoveInput>, i: int)
    ensures
        presses(sender.input_steps(inputs, i)) == seq![sender.key(inputs[i])],
        releases(sender.input_steps(inputs, i)) == seq![sender.key(inputs[i])],
{
    reveal_with_fuel(presses, 5);
    reveal_with_fuel(releases, 5);
    let vk = sender.key(inputs[i]);
    let keys = seq![InputStep::KeyDown(vk), InputStep::HoldDelay, InputStep::KeyUp(vk)];
    lemma_keys_concat(lead_in(inputs, i) + keys, lead_out(inputs, i));
    lemma_keys_concat(lead_in(inputs, i), keys);
    assert(keys.drop_last() =~= seq![InputStep::KeyDown(vk), InputStep::HoldDelay]);
    assert(keys.drop_last().drop_last() =~= seq![InputStep::KeyDown(vk)]);
    assert(presses(keys) =~= seq![vk]);
    assert(releases(keys) =~= seq![vk]);
    assert(presses(lead_in(inputs, i)) =~= seq![] && presses(lead_out(inputs, i)) =~= seq![]);
    assert(releases(lead_in(inputs, i)) =~= seq![] && releases(lead_out(inputs, i)) =~= seq![]);
    assert(presses(sender.input_steps(inputs, i)) =~= seq![vk]);
    assert(releases(sender.input_steps(inputs, i)) =~= seq![vk]);
}

/// Every input of a move is pressed and released exactly once, in the order of
/// the move.
pub proof fn law_inputs_are_pressed_in_order(sender: InputSender, inputs: Seq<MoveInput>, n: int)
    requires
        0 <= n <= inputs.len(),
    ensures
        presses(sender.steps(inputs, n)) == Seq::new(n as nat, |i: int| sender.key(inputs[i])),
        releases(sender.steps(inputs, n)) == Seq::new(n as nat, |i: int| sender.key(inputs[i])),
        presses(sender.steps(inputs, n).push(InputStep::MarkPlaced)) == presses(
            sender.steps(inputs, n),
        ),
        releases(sender.steps(inputs, n).push(InputStep::MarkPlaced)) == releases(
            sender.steps(inputs, n),
        ),
    decreases n,
{
    let steps = sender.steps(inputs, n);
    assert(steps.push(InputStep::MarkPlaced).drop_last() =~= steps);
    if n == 0 {
        reveal_with_fuel(presses, 3);
        reveal_with_fuel(releases, 3);
        assert(steps.drop_last() =~= seq![InputStep::LimitRate]);
        assert(presses(steps) =~= Seq::new(0, |i: int| sender.key(inputs[i])));
        assert(releases(steps) =~= Seq::new(0, |i: int| sender.key(inputs[i])));
    } else {
        law_inputs_are_pressed_in_order(sender, inputs, n - 1);
        lemma_input_keys(sender, inputs, n - 1);
        lemma_keys_concat(sender.steps(inputs, n - 1), sender.input_steps(inputs, n - 1));
        assert(presses(steps) =~= Seq::new(n as nat, |i: int| sender.key(inputs[i])));
        assert(releases(steps) =~= Seq::new(n as nat, |i: int| sender.key(inputs[i])));
    }
}

/// Every input has the key that is configured for it.
pub proof fn law_every_input_has_its_key(sender: InputSender, input: MoveInput)
    ensures
        input == MoveInput::Left ==> sender.key(input) == sender.keys.vk_left,
        input == MoveInput::Right ==> sender.key(input) == sender.keys.vk_right,
        input == MoveInput::RotateCW ==> sender.key(input) == sender.keys.vk_rotate_cw,
        input == MoveInput::RotateCCW ==> sender.key(input) == sender.keys.vk_rotate_ccw,
        input == MoveInput::Rotate180 ==> sender.key(input) == sender.keys.vk_rotate_180,
        input == MoveInput::SoftDrop ==> sender.key(input) == sender.keys.vk_soft_drop,
        input == MoveInput::HardDrop ==> sender.key(input) == sender.keys.vk_hard_drop,
        input == MoveInput::Hold ==> sender.key(input) == sender.keys.vk_hold,
{
}

/// Only a sideways input right after another has a pause before its key: that of a
/// repeated key if both go the same way, that of a changed direction if not. After its
/// key there is a pause if and only if another input follows.
pub proof fn law_pauses_fit_the_inputs(inputs: Seq<MoveInput>, i: int)
    requires
        0 <= i < inputs.len(),
    ensures
        ({
            let sideways = |k: int| inputs[k] == MoveInput::Left || inputs[k] == MoveInput::Right;
            &&& i == 0 || !sideways(i) || !sideways(i - 1) ==> lead_in(inputs, i) == Seq::<
                InputStep,
            >::empty()
            &&& i > 0 && sideways(i) && inputs[i - 1] == inputs[i] ==> lead_in(inputs, i)
                == seq![InputStep::RepeatDelay]
            &&& i > 0 && sideways(i) && sideways(i - 1) && inputs[i - 1] != inputs[i] ==> lead_in(
                inputs,
                i,
            ) == seq![InputStep::SwitchDelay]
            &&& lead_out(inputs, i).contains(InputStep::KeyDelay) <==> i + 1 < inputs.len()
            &&& lead_out(inputs, i).len() <= 1
        }),
{
    if i + 1 < inputs.len() {
        assert(lead_out(inputs, i)[0] == InputStep::KeyDelay);
    }
}

/// A key is released right after it has been held: in the steps of an input its key
/// goes down, is held for a while and comes up, with nothing in between, and the pauses
/// stand before and after.
pub proof fn law_key_is_held_and_released(sender: InputSender, inputs: Seq<MoveInput>, i: int)
    ensures
        ({
            let steps = sender.input_steps(inputs, i);
            let k = lead_in(inputs, i).len() as int;
            &&& steps.len() == k + 3 + lead_out(inputs, i).len()
            &&& steps.take(k) == lead_in(inputs, i)
            &&& steps[k] == InputStep::KeyDown(sender.key(inputs[i]))
            &&& steps[k + 1] == InputStep::HoldDelay
            &&& steps[k + 2] == InputStep::KeyUp(sender.key(inputs[i]))
            &&& steps.skip(k + 3) == lead_out(inputs, i)
        }),
{
    let steps = sender.input_steps(inputs, i);
    let k = lead_in(inputs, i).len() as int;
    assert(steps.take(k) =~= lead_in(inputs, i));
    assert(steps.skip(k + 3) =~= lead_out(inputs, i));
}

/// A move starts with the limit on the rate of pieces and the chance to think, and each
/// further input only adds its steps at the end.
pub proof fn law_steps_grow_with_the_inputs(sender: InputSender, inputs: Seq<MoveInput>, n: int)
    requires
        0 <= n,
    ensures
        sender.steps(inputs, 0) == seq![InputStep::LimitRate, InputStep::MayThink],
        sender.steps(inputs, n + 1) == sender.steps(inputs, n) + sender.input_steps(inputs, n),
{
}

} // verus!
