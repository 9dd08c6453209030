use multiplayer_core::player::{
    apply_deadzone, facing_for, local_update, reconcile_all, should_snap, FacingDir, Player,
    PlayerAnimState, PlayerFacing, PlayerInputState, PlayerState,
};
use multiplayer_core::protocol::ClientMessage;

#[test]
fn small_offset_is_not_corrected() {
    assert!(!should_snap(0, 0, 1000, 1000));
    let mut p = PlayerState::new(2, 0, 0);
    let snapped = p.apply_remote_update(Some(1), 2, 1000, 1000, 0, 0);
    assert!(!snapped);
    assert_eq!((p.x, p.y), (0, 0));
}

#[test]
fn large_offset_snaps() {
    assert!(should_snap(0, 0, 3000, 3000));
    let mut p = PlayerState::new(2, 0, 0);
    let snapped = p.apply_remote_update(Some(1), 2, 3000, 3000, 0, 0);
    assert!(snapped);
    assert_eq!((p.x, p.y), (3000, 3000));
}

#[test]
fn threshold_is_exclusive() {
    assert!(!should_snap(0, 0, 2000, 0));
    assert!(should_snap(0, 0, 2001, 0));
    assert!(should_snap(i32::MIN, i32::MIN, i32::MAX, i32::MAX));
}

#[test]
fn self_update_never_moves_local_player() {
    let mut p = PlayerState::new(1, 5, 5);
    let snapped = p.apply_remote_update(Some(1), 1, 90000, -90000, 1000, 0);
    assert!(!snapped);
    assert_eq!((p.x, p.y), (5, 5));
    assert_eq!(p.input, PlayerInputState { horizontal: 0, vertical: 0 });
}

#[test]
fn update_for_other_player_is_ignored() {
    let mut p = PlayerState::new(3, 0, 0);
    assert!(!p.apply_remote_update(Some(1), 2, 9000, 9000, 1000, 0));
    assert_eq!((p.x, p.y), (0, 0));
}

#[test]
fn facing_follows_dominant_axis() {
    let mut p = PlayerState::new(1, 0, 0);
    p.apply_input(500, 100);
    assert_eq!(p.facing, PlayerFacing(FacingDir::Right));
    p.apply_input(100, -500);
    assert_eq!(p.facing, PlayerFacing(FacingDir::Up));
    assert_eq!(p.animation(), "run_up");
    p.apply_input(0, 0);
    assert_eq!(p.facing, PlayerFacing(FacingDir::Up));
    assert_eq!(p.animation(), "idle_up");
}

#[test]
fn facing_tie_prefers_horizontal() {
    assert_eq!(facing_for(FacingDir::Up, -400, 400), FacingDir::Left);
    assert_eq!(facing_for(FacingDir::Up, 0, 300), FacingDir::Down);
    assert_eq!(facing_for(FacingDir::Left, 0, 0), FacingDir::Left);
}

#[test]
fn deadzone_filters_small_input() {
    assert_eq!(apply_deadzone(199), 0);
    assert_eq!(apply_deadzone(-199), 0);
    assert_eq!(apply_deadzone(200), 200);
    assert_eq!(apply_deadzone(-200), -200);
    assert_eq!(apply_deadzone(i32::MIN), i32::MIN);
}

#[test]
fn default_facing_is_down() {
    assert_eq!(FacingDir::default(), FacingDir::Down);
    let p = PlayerState::new(4, 1, 2);
    assert_eq!(p.owner, Player(4));
    assert_eq!(p.animation(), "idle_down");
}

#[test]
fn animation_switches_only_on_change() {
    let mut anim = PlayerAnimState { current: String::new() };
    assert!(anim.switch_to("idle_down".to_string()));
    assert!(!anim.switch_to("idle_down".to_string()));
    assert!(anim.switch_to("run_left".to_string()));
    assert_eq!(anim.current, "run_left");
}

#[test]
fn local_update_applies_deadzone() {
    match local_update(10, 20, 150, -900) {
        ClientMessage::PlayerUpdate { x, y, horizontal, vertical } => {
            assert_eq!((x, y, horizontal, vertical), (10, 20, 0, -900));
        }
        _ => panic!("expected PlayerUpdate"),
    }
}

#[test]
fn reconcile_all_touches_only_owner() {
    let mut players = vec![
        PlayerState::new(1, 0, 0),
        PlayerState::new(2, 0, 0),
        PlayerState::new(3, 0, 0),
    ];
    reconcile_all(&mut players, Some(1), 2, 5000, 0, -700, 0);
    assert_eq!((players[0].x, players[0].y), (0, 0));
    assert_eq!((players[1].x, players[1].y), (5000, 0));
    assert_eq!(players[1].facing, PlayerFacing(FacingDir::Left));
    assert_eq!(players[1].animation(), "run_left");
    assert_eq!((players[2].x, players[2].y), (0, 0));
    reconcile_all(&mut players, Some(1), 1, 5000, 5000, 0, 0);
    assert_eq!((players[0].x, players[0].y), (0, 0));
}

#[test]
fn input_at_deadzone_is_idle() {
    let mut p = PlayerState::new(1, 0, 0);
    p.apply_input(200, 0);
    assert_eq!(p.input, PlayerInputState { horizontal: 200, vertical: 0 });
    assert_eq!(p.facing, PlayerFacing(FacingDir::Right));
    assert_eq!(p.animation(), "idle_right");
    p.apply_input(0, -201);
    assert_eq!(p.animation(), "run_up");
}
