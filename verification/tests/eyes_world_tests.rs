use dango::eyes::{EyeState, EyeStateDuration};
use dango::player::{PlayerId, PlayerInputCommand};
use dango::world::{interpolation_plan, player_input_command, spawn_and_despawn, PhysicsCommand};

#[test]
fn eyes_start_closing_and_open_at_once() {
    let s = EyeState::initial();
    assert_eq!(s, EyeState::BlinkClosedSecond);
    assert_eq!(s.next(true), (EyeState::Open, EyeStateDuration::RandomOpen));
}

#[test]
fn eyes_blink_once_or_twice() {
    assert_eq!(EyeState::Open.next(false), (EyeState::BlinkClosedSecond, EyeStateDuration::Blink));
    assert_eq!(EyeState::Open.next(true), (EyeState::BlinkClosedFirst, EyeStateDuration::Blink));
    assert_eq!(EyeState::BlinkClosedFirst.next(false), (EyeState::BlinkOpen, EyeStateDuration::Blink));
    assert_eq!(EyeState::BlinkOpen.next(true), (EyeState::BlinkClosedSecond, EyeStateDuration::Blink));
}

#[test]
fn eyes_look_open_only_when_open() {
    assert!(EyeState::Open.looks_open());
    assert!(EyeState::BlinkOpen.looks_open());
    assert!(!EyeState::BlinkClosedFirst.looks_open());
    assert!(!EyeState::BlinkClosedSecond.looks_open());
}

#[test]
fn closed_eyes_reopen_within_three_changes() {
    for start in [EyeState::BlinkClosedFirst, EyeState::BlinkOpen, EyeState::BlinkClosedSecond] {
        for coins in 0..8u8 {
            let mut s = start;
            let mut opened = false;
            for step in 0..3 {
                s = s.next(coins & (1 << step) != 0).0;
                if s == EyeState::Open {
                    opened = true;
                    break;
                }
            }
            assert!(opened);
        }
    }
}

#[test]
fn command_player_ids() {
    let input: PhysicsCommand<()> = player_input_command(3, PlayerInputCommand::Jump(true));
    assert_eq!(input.player_id(), PlayerId(3));
    assert!(matches!(input, PhysicsCommand::PlayerInput { player_id: PlayerId(3), command: PlayerInputCommand::Jump(true) }));
    let spawn: PhysicsCommand<u8> = PhysicsCommand::SpawnPlayer { player_id: PlayerId(5), spawn: 7 };
    assert_eq!(spawn.player_id(), PlayerId(5));
    let despawn: PhysicsCommand<u8> = PhysicsCommand::DespawnPlayer(PlayerId(8));
    assert_eq!(despawn.player_id(), PlayerId(8));
}

#[test]
fn spawn_and_despawn_plan() {
    let new_ids = vec![PlayerId(1), PlayerId(3), PlayerId(4)];
    let shown = vec![PlayerId(2), PlayerId(3), PlayerId(5)];
    let (spawn, despawn) = spawn_and_despawn(&new_ids, &shown);
    assert_eq!(spawn, vec![PlayerId(1), PlayerId(4)]);
    assert_eq!(despawn, vec![PlayerId(2), PlayerId(5)]);
}

#[test]
fn shown_players_follow_the_state_after_the_plan() {
    let new_ids = vec![PlayerId(7), PlayerId(1), PlayerId(2)];
    let shown = vec![PlayerId(1), PlayerId(9)];
    let (spawn, despawn) = spawn_and_despawn(&new_ids, &shown);
    let mut result: Vec<PlayerId> = shown.into_iter().filter(|id| !despawn.contains(id)).collect();
    result.extend(spawn);
    let mut sorted: Vec<usize> = result.iter().map(|id| id.0).collect();
    sorted.sort();
    assert_eq!(sorted, vec![1, 2, 7]);
}

#[test]
fn nothing_to_do_when_already_in_sync() {
    let ids = vec![PlayerId(1), PlayerId(2)];
    let (spawn, despawn) = spawn_and_despawn(&ids, &ids);
    assert!(spawn.is_empty() && despawn.is_empty());
}

#[test]
fn interpolation_follows_the_new_state() {
    let old_ids = vec![PlayerId(1), PlayerId(2)];
    let new_ids = vec![PlayerId(2), PlayerId(3)];
    assert_eq!(interpolation_plan(&old_ids, &new_ids), vec![(PlayerId(2), true), (PlayerId(3), false)]);
    assert!(interpolation_plan(&old_ids, &vec![]).is_empty());
}
