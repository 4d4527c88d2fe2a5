use dango::player::{
    horizontal_direction, horizontal_force_kind, input_commands, jump_force_update, spawn_color, step_plan,
    ForceSign, HorizontalForceKind, JumpForceUpdate, PlayerColor, PlayerInputCommand, PlayerInputState,
};

fn state(left: bool, right: bool, jump: bool, roll: bool) -> PlayerInputState {
    PlayerInputState { left, right, jump, roll }
}

#[test]
fn default_input_state_holds_no_key() {
    assert_eq!(PlayerInputState::default(), state(false, false, false, false));
}

#[test]
fn apply_command_sets_only_its_key() {
    let mut s = PlayerInputState::default();
    s.apply_command(&PlayerInputCommand::Left(true));
    assert_eq!(s, state(true, false, false, false));
    s.apply_command(&PlayerInputCommand::Right(true));
    assert_eq!(s, state(true, true, false, false));
    s.apply_command(&PlayerInputCommand::Jump(true));
    assert_eq!(s, state(true, true, true, false));
    s.apply_command(&PlayerInputCommand::Roll(true));
    assert_eq!(s, state(true, true, true, true));
    s.apply_command(&PlayerInputCommand::Left(false));
    assert_eq!(s, state(false, true, true, true));
}

#[test]
fn input_commands_report_only_changes() {
    let previous = state(false, true, false, false);
    assert!(input_commands(&previous, &previous, false).is_empty());
    let current = state(true, true, false, true);
    assert_eq!(
        input_commands(&previous, &current, false),
        vec![PlayerInputCommand::Left(true), PlayerInputCommand::Roll(true)]
    );
}

#[test]
fn input_commands_resync_reports_every_key_in_order() {
    let previous = state(false, false, false, false);
    let current = state(true, false, true, false);
    assert_eq!(
        input_commands(&previous, &current, true),
        vec![
            PlayerInputCommand::Left(true),
            PlayerInputCommand::Right(false),
            PlayerInputCommand::Jump(true),
            PlayerInputCommand::Roll(false),
        ]
    );
}

#[test]
fn applying_issued_commands_reconstructs_current_state() {
    let all = [false, true];
    for &a in &all {
        for &b in &all {
            for &c in &all {
                for &d in &all {
                    for &resync in &all {
                        let previous = state(a, !b, c, d);
                        let current = state(b, c, !d, a);
                        let mut receiver = previous;
                        for command in input_commands(&previous, &current, resync) {
                            receiver.apply_command(&command);
                        }
                        assert_eq!(receiver, current);
                    }
                }
            }
        }
    }
}

#[test]
fn step_plan_follows_roll_and_contact() {
    let p = step_plan(&state(false, false, false, false), true);
    assert!(p.lock_rotation && p.crawl && p.apply_drag);
    let p = step_plan(&state(false, false, false, true), true);
    assert!(!p.lock_rotation && !p.crawl && p.apply_drag);
    let p = step_plan(&state(false, false, false, false), false);
    assert!(p.lock_rotation && !p.crawl && !p.apply_drag);
}

#[test]
fn horizontal_direction_of_keys() {
    assert_eq!(horizontal_direction(&state(false, false, false, false)), 0);
    assert_eq!(horizontal_direction(&state(true, false, false, false)), -1);
    assert_eq!(horizontal_direction(&state(false, true, false, false)), 1);
    assert_eq!(horizontal_direction(&state(true, true, false, false)), 0);
}

#[test]
fn horizontal_force_kind_choice() {
    assert_eq!(horizontal_force_kind(&state(false, true, false, true), true), HorizontalForceKind::Air);
    assert_eq!(horizontal_force_kind(&state(false, true, false, true), false), HorizontalForceKind::Rolling);
    assert_eq!(horizontal_force_kind(&state(false, true, false, false), false), HorizontalForceKind::Crawling);
}

#[test]
fn jump_force_update_cases() {
    assert_eq!(jump_force_update(false, true, ForceSign::Positive), JumpForceUpdate::Zero);
    assert_eq!(jump_force_update(true, true, ForceSign::Zero), JumpForceUpdate::Initial);
    assert_eq!(jump_force_update(true, true, ForceSign::Negative), JumpForceUpdate::Initial);
    assert_eq!(jump_force_update(true, false, ForceSign::Negative), JumpForceUpdate::Zero);
    assert_eq!(jump_force_update(true, false, ForceSign::Zero), JumpForceUpdate::Decayed);
    assert_eq!(jump_force_update(true, true, ForceSign::Positive), JumpForceUpdate::Decayed);
}

#[test]
fn spawn_color_cycles_by_client_id() {
    assert_eq!(spawn_color(0), PlayerColor::Red);
    assert_eq!(spawn_color(1), PlayerColor::Green);
    assert_eq!(spawn_color(2), PlayerColor::Yellow);
    assert_eq!(spawn_color(3), PlayerColor::Blue);
    assert_eq!(spawn_color(9), PlayerColor::Green);
}
