//! Players: their identifiers, their input state and the input commands that change it.

use vstd::prelude::*;

verus! {

/// Identifies a player; a player's id is the id of the client that controls it.
#[derive(Clone, Copy, Debug, PartialEq, Eq, Structural, Hash)]
pub struct PlayerId(pub usize);

/// Which movement keys a player holds down.
#[derive(Clone, Copy, Debug, PartialEq, Eq, Structural)]
pub struct PlayerInputState {
    pub left: bool,
    pub right: bool,
    pub jump: bool,
    pub roll: bool,
}

/// A change of one movement key.
#[derive(Clone, Copy, Debug, PartialEq, Eq, Structural)]
pub enum PlayerInputCommand {
    Left(bool),
    Right(bool),
    Jump(bool),
    Roll(bool),
}

impl PlayerInputState {
    /// The state in which no key is held.
    pub open spec fn released() -> PlayerInputState {
        PlayerInputState { left: false, right: false, jump: false, roll: false }
    }

    /// The state after one command: the command's key takes the command's value.
    pub open spec fn with_command(self, command: PlayerInputCommand) -> PlayerInputState {
        match command {
            PlayerInputCommand::Left(b) => PlayerInputState { left: b, ..self },
            PlayerInputCommand::Right(b) => PlayerInputState { right: b, ..self },
            PlayerInputCommand::Jump(b) => PlayerInputState { jump: b, ..self },
            PlayerInputCommand::Roll(b) => PlayerInputState { roll: b, ..self },
        }
    }

    /// Applies a command to the input state.
    pub fn apply_command(&mut self, command: &PlayerInputCommand)
        ensures
            *final(self) == old(self).with_command(*command),
    {
        match command {
            PlayerInputCommand::Left(state) => self.left = *state,
            PlayerInputCommand::Right(state) => self.right = *state,
            PlayerInputCommand::Jump(state) => self.jump = *state,
            PlayerInputCommand::Roll(state) => self.roll = *state,
        }
    }
}

impl Default for PlayerInputState {
    fn default() -> (s: Self)
        ensures
            s == PlayerInputState::released(),
    {
        PlayerInputState { left: false, right: false, jump: false, roll: false }
    }
}


/// A player of the physics world: the keys it holds and its body in the simulation.
pub struct Player<B> {
    pub input: PlayerInputState,
    pub body: B,
}

impl<B> Player<B> {
    /// A newly spawned player with the given body, holding no key.
    pub fn new(body: B) -> (player: Self)
        ensures
            player.input == PlayerInputState::released(),
            player.body == body,
    {
        Player { input: PlayerInputState::default(), body }
    }

    /// Applies an input command to the player: the command's key takes the command's value.
    pub fn apply_command(&mut self, command: &PlayerInputCommand)
        ensures
            final(self).input == old(self).input.with_command(*command),
            final(self).body == old(self).body,
    {
        self.input.apply_command(command);
    }
}

/// A key that moves a player.
#[derive(Clone, Copy, Debug, PartialEq, Eq, Structural)]
pub enum MovementKey {
    A,
    D,
    W,
    Left,
    Right,
    Up,
    Space,
    LShift,
    RShift,
}

fn key_pressed(pressed: &Vec<MovementKey>, key: MovementKey) -> (found: bool)
    ensures
        found == pressed@.contains(key),
{
    let mut i: usize = 0;
    while i < pressed.len()
        invariant
            i <= pressed.len(),
            forall|j: int| 0 <= j < i ==> pressed@[j] != key,
        decreases pressed.len() - i,
    {
        if pressed[i] == key {
            assert(pressed@[i as int] == key);
            return true;
        }
        i = i + 1;
    }
    false
}

/// The input state that the pressed keys give: left with A or the left arrow, right with D
/// or the right arrow, jump with W, space or the up arrow, and roll with either shift key.
pub fn input_state_from_keys(pressed: &Vec<MovementKey>) -> (input: PlayerInputState)
    ensures
        input.left == (pressed@.contains(MovementKey::A) || pressed@.contains(MovementKey::Left)),
        input.right == (pressed@.contains(MovementKey::D) || pressed@.contains(MovementKey::Right)),
        input.jump == (pressed@.contains(MovementKey::W) || pressed@.contains(MovementKey::Space)
            || pressed@.contains(MovementKey::Up)),
        input.roll == (pressed@.contains(MovementKey::LShift) || pressed@.contains(MovementKey::RShift)),
{
    let left = key_pressed(pressed, MovementKey::A) || key_pressed(pressed, MovementKey::Left);
    let right = key_pressed(pressed, MovementKey::D) || key_pressed(pressed, MovementKey::Right);
    let jump = key_pressed(pressed, MovementKey::W) || key_pressed(pressed, MovementKey::Space)
        || key_pressed(pressed, MovementKey::Up);
    let roll = key_pressed(pressed, MovementKey::LShift) || key_pressed(pressed, MovementKey::RShift);
    PlayerInputState { left, right, jump, roll }
}

/// The commands that bring a previously reported input state up to date: one for each key
/// whose state changed, or for every key when a resync is due, in the order left, right,
/// jump, roll.
pub open spec fn input_commands_spec(
    previous: PlayerInputState,
    current: PlayerInputState,
    resync: bool,
) -> Seq<PlayerInputCommand> {
    let c1 = if resync || current.left != previous.left {
        seq![PlayerInputCommand::Left(current.left)]
    } else {
        seq![]
    };
    let c2 = if resync || current.right != previous.right {
        c1.push(PlayerInputCommand::Right(current.right))
    } else {
        c1
    };
    let c3 = if resync || current.jump != previous.jump {
        c2.push(PlayerInputCommand::Jump(current.jump))
    } else {
        c2
    };
    if resync || current.roll != previous.roll {
        c3.push(PlayerInputCommand::Roll(current.roll))
    } else {
        c3
    }
}

/// The input state after applying a sequence of commands in order.
pub open spec fn apply_commands(state: PlayerInputState, commands: Seq<PlayerInputCommand>) -> PlayerInputState
    decreases commands.len(),
{
    if commands.len() == 0 {
        state
    } else {
        apply_commands(state, commands.drop_last()).with_command(commands.last())
    }
}

/// Computes the commands that a client issues for a new input state, given the state it
/// reported before and whether a periodic resync of every key is due.
pub fn input_commands(previous: &PlayerInputState, current: &PlayerInputState, resync: bool) -> (commands: Vec<PlayerInputCommand>)
    ensures
        commands@ == input_commands_spec(*previous, *current, resync),
        !resync ==> forall|i: int| 0 <= i < commands.len() ==> command_reports_change(#[trigger] commands@[i], *previous, *current),
        !resync && *previous == *current ==> commands.len() == 0,
        resync ==> commands@ == seq![
            PlayerInputCommand::Left(current.left),
            PlayerInputCommand::Right(current.right),
            PlayerInputCommand::Jump(current.jump),
            PlayerInputCommand::Roll(current.roll),
        ],
{
    proof {
        lemma_input_commands_report_changes(*previous, *current);
        lemma_input_commands_resync(*previous, *current);
    }
    let mut commands: Vec<PlayerInputCommand> = Vec::new();
    if resync || current.left != previous.left {
        commands.push(PlayerInputCommand::Left(current.left));
    }
    if resync || current.right != previous.right {
        commands.push(PlayerInputCommand::Right(current.right));
    }
    if resync || current.jump != previous.jump {
        commands.push(PlayerInputCommand::Jump(current.jump));
    }
    if resync || current.roll != previous.roll {
        commands.push(PlayerInputCommand::Roll(current.roll));
    }
    proof {
        assert(commands@ =~= input_commands_spec(*previous, *current, resync));
    }
    commands
}

/// Whether a command reports a key whose state differs between the two input states, with
/// the key's new state.
pub open spec fn command_reports_change(command: PlayerInputCommand, previous: PlayerInputState, current: PlayerInputState) -> bool {
    match command {
        PlayerInputCommand::Left(b) => b == current.left && current.left != previous.left,
        PlayerInputCommand::Right(b) => b == current.right && current.right != previous.right,
        PlayerInputCommand::Jump(b) => b == current.jump && current.jump != previous.jump,
        PlayerInputCommand::Roll(b) => b == current.roll && current.roll != previous.roll,
    }
}

/// Law: without a resync a client only reports keys whose state changed, each with its new
/// state and at most once; every changed key is reported; and an unchanged input state is
/// not reported at all.
pub proof fn lemma_input_commands_report_changes(previous: PlayerInputState, current: PlayerInputState)
    ensures
        ({
            let commands = input_commands_spec(previous, current, false);
            &&& forall|i: int| 0 <= i < commands.len() ==> command_reports_change(#[trigger] commands[i], previous, current)
            &&& commands.no_duplicates()
            &&& current.left != previous.left ==> commands.contains(PlayerInputCommand::Left(current.left))
            &&& current.right != previous.right ==> commands.contains(PlayerInputCommand::Right(current.right))
            &&& current.jump != previous.jump ==> commands.contains(PlayerInputCommand::Jump(current.jump))
            &&& current.roll != previous.roll ==> commands.contains(PlayerInputCommand::Roll(current.roll))
            &&& previous == current ==> commands.len() == 0
        }),
{
    let commands = input_commands_spec(previous, current, false);
    let l = current.left != previous.left;
    let r = current.right != previous.right;
    let j = current.jump != previous.jump;
    let o = current.roll != previous.roll;
    let c1: Seq<PlayerInputCommand> = if l { seq![PlayerInputCommand::Left(current.left)] } else { seq![] };
    let c2 = if r { c1.push(PlayerInputCommand::Right(current.right)) } else { c1 };
    let c3 = if j { c2.push(PlayerInputCommand::Jump(current.jump)) } else { c2 };
    assert(commands == if o { c3.push(PlayerInputCommand::Roll(current.roll)) } else { c3 });
    if l {
        assert(commands[0] == PlayerInputCommand::Left(current.left));
    }
    if r {
        assert(c2[c1.len() as int] == PlayerInputCommand::Right(current.right));
        assert(commands[c1.len() as int] == PlayerInputCommand::Right(current.right));
    }
    if j {
        assert(c3[c2.len() as int] == PlayerInputCommand::Jump(current.jump));
        assert(commands[c2.len() as int] == PlayerInputCommand::Jump(current.jump));
    }
    if o {
        assert(commands[c3.len() as int] == PlayerInputCommand::Roll(current.roll));
    }
}

/// Law: with a resync due, a client reports every key, in the order left, right, jump, roll,
/// each with its current state.
pub proof fn lemma_input_commands_resync(previous: PlayerInputState, current: PlayerInputState)
    ensures
        input_commands_spec(previous, current, true) == seq![
            PlayerInputCommand::Left(current.left),
            PlayerInputCommand::Right(current.right),
            PlayerInputCommand::Jump(current.jump),
            PlayerInputCommand::Roll(current.roll),
        ],
{
    assert(input_commands_spec(previous, current, true) =~= seq![
        PlayerInputCommand::Left(current.left),
        PlayerInputCommand::Right(current.right),
        PlayerInputCommand::Jump(current.jump),
        PlayerInputCommand::Roll(current.roll),
    ]);
}

/// Law: a receiver that held the previously reported input state and applies the issued
/// commands in order ends up with the current input state, whether or not a resync is due.
pub proof fn lemma_input_commands_reconstruct(
    previous: PlayerInputState,
    current: PlayerInputState,
    resync: bool,
)
    ensures
        apply_commands(previous, input_commands_spec(previous, current, resync)) == current,
{
    reveal_with_fuel(apply_commands, 5);
    let c = input_commands_spec(previous, current, resync);
    assert(c.len() <= 4);
    if c.len() >= 1 {
        assert(c.drop_last().len() == c.len() - 1);
    }
}


/// What a player's physics pre-step does, decided from its input and whether its feet
/// touch the ground.
#[derive(Clone, Copy, Debug, PartialEq, Eq, Structural)]
pub struct PlayerStepPlan {
    /// Whether angular momentum is damped and the body is turned upright.
    pub lock_rotation: bool,
    /// Whether the horizontal force is spread as a crawling wave over the body.
    pub crawl: bool,
    /// Whether ground drag is applied.
    pub apply_drag: bool,
}

/// Decides the pre-step plan: rotation is locked unless rolling, a player crawls when it
/// does not roll and its feet touch the ground, and drag applies whenever its feet touch
/// the ground.
pub fn step_plan(input: &PlayerInputState, has_feet_contact: bool) -> (plan: PlayerStepPlan)
    ensures
        plan.lock_rotation == !input.roll,
        plan.crawl == (!input.roll && has_feet_contact),
        plan.apply_drag == has_feet_contact,
{
    PlayerStepPlan {
        lock_rotation: !input.roll,
        crawl: !input.roll && has_feet_contact,
        apply_drag: has_feet_contact,
    }
}

/// The horizontal direction of the held keys: 1 for right, -1 for left, 0 for both or none.
pub fn horizontal_direction(input: &PlayerInputState) -> (direction: i32)
    ensures
        direction == (if input.right { 1int } else { 0int }) - (if input.left { 1int } else { 0int }),
{
    let r: i32 = if input.right { 1 } else { 0 };
    let l: i32 = if input.left { 1 } else { 0 };
    r - l
}

/// Which of the configured horizontal movement forces a player uses.
#[derive(Clone, Copy, Debug, PartialEq, Eq, Structural)]
pub enum HorizontalForceKind {
    Air,
    Rolling,
    Crawling,
}

/// Chooses the horizontal movement force: the air force while the feet touch the ground,
/// otherwise the rolling force when rolling and the crawling force when not.
pub fn horizontal_force_kind(input: &PlayerInputState, has_feet_contact: bool) -> (kind: HorizontalForceKind)
    ensures
        has_feet_contact ==> kind == HorizontalForceKind::Air,
        !has_feet_contact && input.roll ==> kind == HorizontalForceKind::Rolling,
        !has_feet_contact && !input.roll ==> kind == HorizontalForceKind::Crawling,
{
    if has_feet_contact {
        HorizontalForceKind::Air
    } else if input.roll {
        HorizontalForceKind::Rolling
    } else {
        HorizontalForceKind::Crawling
    }
}

/// The sign of a force value.
#[derive(Clone, Copy, Debug, PartialEq, Eq, Structural)]
pub enum ForceSign {
    Negative,
    Zero,
    Positive,
}

/// What the variable jump force becomes after it has decayed for one step.
#[derive(Clone, Copy, Debug, PartialEq, Eq, Structural)]
pub enum JumpForceUpdate {
    /// The force is set to zero.
    Zero,
    /// The force restarts at its initial value.
    Initial,
    /// The decayed force is kept.
    Decayed,
}

/// Decides the variable jump force from the jump key, ground contact and the sign of the
/// decayed force: released jump clears it, a non-positive force restarts with ground
/// contact, a negative force is clamped to zero, and otherwise the decayed force stays.
pub fn jump_force_update(jump: bool, has_feet_contact: bool, decayed: ForceSign) -> (update: JumpForceUpdate)
    ensures
        !jump ==> update == JumpForceUpdate::Zero,
        jump && decayed != ForceSign::Positive && has_feet_contact ==> update == JumpForceUpdate::Initial,
        jump && decayed == ForceSign::Negative && !has_feet_contact ==> update == JumpForceUpdate::Zero,
        jump && (decayed == ForceSign::Positive || (decayed == ForceSign::Zero && !has_feet_contact))
            ==> update == JumpForceUpdate::Decayed,
{
    if !jump {
        JumpForceUpdate::Zero
    } else if decayed != ForceSign::Positive && has_feet_contact {
        JumpForceUpdate::Initial
    } else if decayed == ForceSign::Negative {
        JumpForceUpdate::Zero
    } else {
        JumpForceUpdate::Decayed
    }
}

/// The colour that a newly connected client's player is spawned with.
#[derive(Clone, Copy, Debug, PartialEq, Eq, Structural)]
pub enum PlayerColor {
    Red,
    Green,
    Yellow,
    Blue,
}

/// The colour of a client's player, by the client id modulo four.
pub fn spawn_color(client_id: usize) -> (color: PlayerColor)
    ensures
        client_id % 4 == 0 ==> color == PlayerColor::Red,
        client_id % 4 == 1 ==> color == PlayerColor::Green,
        client_id % 4 == 2 ==> color == PlayerColor::Yellow,
        client_id % 4 == 3 ==> color == PlayerColor::Blue,
{
    let r = client_id % 4;
    if r == 0 {
        PlayerColor::Red
    } else if r == 1 {
        PlayerColor::Green
    } else if r == 2 {
        PlayerColor::Yellow
    } else {
        PlayerColor::Blue
    }
}

} // verus!
