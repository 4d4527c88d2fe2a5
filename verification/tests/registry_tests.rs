use dango::client::ClientConnectionEvent;
use dango::player::{input_commands, input_state_from_keys, MovementKey, Player, PlayerId, PlayerInputCommand, PlayerInputState};
use dango::world::{despawn_command, player_input_command, spawn_command, PhysicsCommand, PhysicsWorld};

fn released() -> PlayerInputState {
    PlayerInputState::default()
}

fn spawn<B>(world: &mut PhysicsWorld<B>, id: usize, body: B) -> Option<B> {
    world.apply_command(PhysicsCommand::SpawnPlayer { player_id: PlayerId(id), spawn: body }, |b: B| b)
}

fn input<B>(world: &mut PhysicsWorld<B>, id: usize, command: PlayerInputCommand) -> Option<B> {
    let issued: PhysicsCommand<B> = player_input_command(id, command);
    world.apply_command(issued, |b: B| b)
}

fn ids<B>(world: &PhysicsWorld<B>) -> Vec<usize> {
    let mut keys: Vec<usize> = world.players().keys().iter().map(|k| k.0).collect();
    keys.sort();
    keys
}

#[test]
fn new_player_holds_no_key() {
    let p = Player::new(3u8);
    assert_eq!(p.input, released());
    assert_eq!(p.body, 3);
}

#[test]
fn player_apply_command_keeps_body() {
    let mut p = Player::new("body");
    p.apply_command(&PlayerInputCommand::Right(true));
    assert!(p.input.right && !p.input.left);
    assert_eq!(p.body, "body");
}

#[test]
fn spawn_input_and_despawn_a_player() {
    let mut world: PhysicsWorld<String> = PhysicsWorld::new();
    let command: PhysicsCommand<u32> = PhysicsCommand::SpawnPlayer { player_id: PlayerId(1), spawn: 7 };
    let mut bodies: PhysicsWorld<String> = PhysicsWorld::new();
    assert_eq!(bodies.apply_command(command, |s: u32| format!("body-{}", s)), None);
    assert_eq!(bodies.players().get(&PlayerId(1)).map(|p| p.body.clone()), Some("body-7".to_string()));
    assert_eq!(bodies.players().get(&PlayerId(1)).map(|p| p.input), Some(released()));

    assert_eq!(spawn(&mut world, 1, "b".to_string()), None);
    assert_eq!(input(&mut world, 1, PlayerInputCommand::Jump(true)), None);
    let player = world.players().get(&PlayerId(1)).unwrap();
    assert!(player.input.jump && !player.input.left);
    assert_eq!(player.body, "b");

    let despawn: PhysicsCommand<String> = PhysicsCommand::DespawnPlayer(PlayerId(1));
    assert_eq!(world.apply_command(despawn, |b: String| b), Some("b".to_string()));
    assert!(world.players().get(&PlayerId(1)).is_none());
}

#[test]
fn input_for_unknown_player_is_ignored() {
    let mut world: PhysicsWorld<u8> = PhysicsWorld::new();
    assert_eq!(input(&mut world, 4, PlayerInputCommand::Left(true)), None);
    assert_eq!(world.players().len(), 0);
    let despawn: PhysicsCommand<u8> = PhysicsCommand::DespawnPlayer(PlayerId(4));
    assert_eq!(world.apply_command(despawn, |s: u8| s), None);
}

#[test]
fn respawn_replaces_the_body_and_releases_keys() {
    let mut world: PhysicsWorld<u8> = PhysicsWorld::new();
    spawn(&mut world, 2, 1);
    input(&mut world, 2, PlayerInputCommand::Roll(true));
    assert_eq!(spawn(&mut world, 2, 9), Some(1));
    let player = world.players().get(&PlayerId(2)).unwrap();
    assert_eq!(player.body, 9);
    assert_eq!(player.input, released());
}

#[test]
fn clients_may_only_command_their_own_player() {
    let command: PhysicsCommand<()> = player_input_command(2, PlayerInputCommand::Left(true));
    assert!(PhysicsWorld::<u8>::command_is_valid(&command, 2));
    assert!(!PhysicsWorld::<u8>::command_is_valid(&command, 1));
    let despawn: PhysicsCommand<()> = PhysicsCommand::DespawnPlayer(PlayerId(4));
    assert!(!PhysicsWorld::<u8>::command_is_valid(&despawn, 2));
    let spawn: PhysicsCommand<()> = PhysicsCommand::SpawnPlayer { player_id: PlayerId(2), spawn: () };
    assert!(PhysicsWorld::<u8>::command_is_valid(&spawn, 2));
}

#[test]
fn players_follow_the_snapshot() {
    let mut world: PhysicsWorld<usize> = PhysicsWorld::new();
    for id in [1usize, 2, 3] {
        spawn(&mut world, id, id * 10);
        input(&mut world, id, PlayerInputCommand::Left(true));
    }
    let jumping = PlayerInputState { jump: true, ..released() };
    let snapshot = vec![(PlayerId(3), jumping, 7usize), (PlayerId(5), released(), 8), (PlayerId(1), released(), 9)];
    let mut retired = world.apply_snapshot(&snapshot, |previous: Option<usize>, state: &usize| {
        previous.unwrap_or(0) * 1000 + *state
    });
    retired.sort_by_key(|e| e.0 .0);
    let retired_ids: Vec<usize> = retired.iter().map(|e| e.0 .0).collect();
    assert_eq!(retired_ids, vec![2]);
    assert_eq!(retired[0].1.body, 20);
    assert_eq!(ids(&world), vec![1, 3, 5]);
    assert_eq!(world.players().get(&PlayerId(1)).unwrap().body, 10_009);
    assert_eq!(world.players().get(&PlayerId(1)).unwrap().input, released());
    assert_eq!(world.players().get(&PlayerId(3)).unwrap().input, jumping);
    assert_eq!(world.players().get(&PlayerId(3)).unwrap().body, 30_007);
    assert_eq!(world.players().get(&PlayerId(5)).unwrap().body, 8);
    assert_eq!(world.players().get(&PlayerId(5)).unwrap().input, released());
}

#[test]
fn empty_snapshot_retires_everyone() {
    let mut world: PhysicsWorld<u8> = PhysicsWorld::new();
    spawn(&mut world, 1, 1);
    let snapshot: Vec<(PlayerId, PlayerInputState, u8)> = vec![];
    let retired = world.apply_snapshot(&snapshot, |_previous: Option<u8>, state: &u8| *state);
    assert_eq!(retired.len(), 1);
    assert_eq!(world.players().len(), 0);
}

#[test]
fn client_spawns_its_player_once_connected() {
    let issued: Option<PhysicsCommand<u8>> = spawn_command(ClientConnectionEvent::Connected(3), true, 42);
    assert!(matches!(issued, Some(PhysicsCommand::SpawnPlayer { player_id: PlayerId(3), spawn: 42 })));
    assert!(spawn_command(ClientConnectionEvent::Connected(3), false, 42u8).is_none());
    assert!(spawn_command(ClientConnectionEvent::Disconnected(3), true, 42u8).is_none());
}

#[test]
fn server_despawns_disconnected_players() {
    let issued: Option<PhysicsCommand<u8>> = despawn_command(ClientConnectionEvent::Disconnected(6));
    assert!(matches!(issued, Some(PhysicsCommand::DespawnPlayer(PlayerId(6)))));
    assert!(despawn_command::<u8>(ClientConnectionEvent::Connected(6)).is_none());
}

#[test]
fn keys_map_to_input_state() {
    assert_eq!(input_state_from_keys(&vec![]), released());
    let s = input_state_from_keys(&vec![MovementKey::Left, MovementKey::Space, MovementKey::RShift]);
    assert_eq!(s, PlayerInputState { left: true, right: false, jump: true, roll: true });
    let s = input_state_from_keys(&vec![MovementKey::D, MovementKey::A, MovementKey::W]);
    assert_eq!(s, PlayerInputState { left: true, right: true, jump: true, roll: false });
    let s = input_state_from_keys(&vec![MovementKey::Right, MovementKey::Up, MovementKey::LShift]);
    assert_eq!(s, PlayerInputState { left: false, right: true, jump: true, roll: true });
}

#[test]
fn world_follows_the_client_keys() {
    let previous = PlayerInputState { left: true, right: false, jump: false, roll: true };
    let current = PlayerInputState { left: false, right: true, jump: false, roll: true };
    for resync in [false, true] {
        let mut world: PhysicsWorld<u8> = PhysicsWorld::new();
        spawn(&mut world, 1, 5);
        spawn(&mut world, 2, 6);
        for command in input_commands(&released(), &previous, true) {
            input(&mut world, 1, command);
        }
        assert_eq!(world.players().get(&PlayerId(1)).unwrap().input, previous);
        for command in input_commands(&previous, &current, resync) {
            assert_eq!(input(&mut world, 1, command), None);
        }
        assert_eq!(world.players().get(&PlayerId(1)).unwrap().input, current);
        assert_eq!(world.players().get(&PlayerId(1)).unwrap().body, 5);
        assert_eq!(world.players().get(&PlayerId(2)).unwrap().input, released());
    }
}

#[test]
fn spawn_then_despawn_leaves_others() {
    let mut world: PhysicsWorld<u8> = PhysicsWorld::new();
    spawn(&mut world, 2, 6);
    spawn(&mut world, 1, 3);
    world.apply_command(PhysicsCommand::<u8>::DespawnPlayer(PlayerId(1)), |s: u8| s);
    assert_eq!(ids(&world), vec![2]);
    assert_eq!(world.players().get(&PlayerId(2)).unwrap().body, 6);
}
