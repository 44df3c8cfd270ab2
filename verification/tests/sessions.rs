use treasure_quest::game::Direction;
use treasure_quest::game::GameAction;
use treasure_quest::registry::Registry;
use treasure_quest::registry::RegistryError;

#[test]
fn create_then_get_returns_the_stored_state() {
    let mut reg = Registry::new();
    let (id, created) = reg.create();
    assert_eq!(id, created.game_id);
    let got = reg.get_state(&id).expect("created session must be readable");
    assert_eq!(got.game_id, created.game_id);
    assert_eq!(got.player.x, 0);
    assert_eq!(got.player.y, 0);
    assert_eq!(got.player.health, 10);
    assert!(got.player.inventory.is_empty());
    assert_eq!(got.log.len(), 1);
    assert!(!got.game_over);
    assert!(!got.victory);
}

#[test]
fn unknown_id_is_not_found_and_creates_nothing() {
    let mut reg = Registry::new();
    let missing = "no-such-session".to_string();
    assert!(matches!(reg.get_state(&missing), Err(RegistryError::NotFound)));
    assert!(matches!(
        reg.apply(&missing, &GameAction::Inspect),
        Err(RegistryError::NotFound)
    ));
    let (_id, _state) = reg.create();
    assert!(matches!(reg.get_state(&missing), Err(RegistryError::NotFound)));
}

#[test]
fn apply_replaces_the_stored_state() {
    let mut reg = Registry::new();
    let (id, _) = reg.create();
    let updated = reg.apply(&id, &GameAction::Inspect).expect("session exists");
    assert_eq!(updated.log.len(), 2);
    let got = reg.get_state(&id).expect("session exists");
    assert_eq!(got.log.len(), 2);
    assert_eq!(got.log[1], updated.log[1]);
}

#[test]
fn sequential_applies_keep_every_update() {
    let mut reg = Registry::new();
    let (id, _) = reg.create();
    let n = 5;
    for _ in 0..n {
        reg.apply(&id, &GameAction::Inspect).expect("session exists");
    }
    let got = reg.get_state(&id).expect("session exists");
    assert_eq!(got.log.len(), n + 1);
}

#[test]
fn sessions_are_independent() {
    let mut reg = Registry::new();
    let (id_a, _) = reg.create();
    let (id_b, _) = reg.create();
    assert_ne!(id_a, id_b);
    let east = GameAction::Move { direction: Direction::East };
    reg.apply(&id_a, &east).expect("session exists");
    let a = reg.get_state(&id_a).expect("session exists");
    let b = reg.get_state(&id_b).expect("session exists");
    assert_eq!(a.player.x, 1);
    assert_eq!(b.player.x, 0);
}

#[test]
fn apply_with_roll_is_deterministic() {
    let mut reg = Registry::new();
    let (id, _) = reg.create();
    let east = GameAction::Move { direction: Direction::East };
    let south = GameAction::Move { direction: Direction::South };
    reg.apply(&id, &east).expect("session exists");
    reg.apply(&id, &east).expect("session exists");
    reg.apply(&id, &south).expect("session exists");
    let hurt = reg
        .apply_with_roll(&id, &GameAction::Attack, 80)
        .expect("session exists");
    assert_eq!(hurt.player.health, 7);
    let stored = reg.get_state(&id).expect("session exists");
    assert_eq!(stored.player.health, 7);
}
