use treasure_quest::game::apply_action;
use treasure_quest::game::apply_action_with_roll;
use treasure_quest::game::describe_tile;
use treasure_quest::game::new_game;
use treasure_quest::game::Direction;
use treasure_quest::game::GameAction;
use treasure_quest::game::GameState;
use treasure_quest::game::PlayerState;

fn mv(d: Direction) -> GameAction {
    GameAction::Move { direction: d }
}

fn use_item(name: &str) -> GameAction {
    GameAction::UseItem { item: name.to_string() }
}

#[test]
fn new_game_is_fresh() {
    let g = new_game();
    assert_eq!(g.player.x, 0);
    assert_eq!(g.player.y, 0);
    assert_eq!(g.player.health, 10);
    assert!(g.player.inventory.is_empty());
    assert!(!g.game_over);
    assert!(!g.victory);
    assert_eq!(g.log.len(), 1);
    assert_eq!(
        g.log[0],
        "You wake up in a small village at (0,0). To the east lies a dark forest."
    );
    assert_eq!(g.game_id.len(), 36);
}

#[test]
fn new_game_ids_differ() {
    let a = new_game();
    let b = new_game();
    assert_eq!(a.game_id.len(), 36);
    assert_eq!(b.game_id.len(), 36);
    assert_ne!(a.game_id, b.game_id);
}

#[test]
fn move_east_updates_position_and_log() {
    let g = new_game();
    let g = apply_action(&g, &mv(Direction::East));
    assert_eq!(g.player.x, 1);
    assert_eq!(g.player.y, 0);
    assert_eq!(g.log.len(), 2);
    assert_eq!(
        g.log[1],
        "You move to (1,0) - a dense forest. You hear distant howls and see something glinting on the ground."
    );
}

#[test]
fn move_out_of_bounds_is_rejected() {
    let g = new_game();
    let g = apply_action(&g, &mv(Direction::North));
    assert_eq!(g.player.x, 0);
    assert_eq!(g.player.y, 0);
    assert_eq!(g.log.len(), 2);
    assert_eq!(g.log[1], "You can't go that way. The world seems to end there.");
    let g = apply_action(&g, &mv(Direction::West));
    assert_eq!(g.player.x, 0);
    assert_eq!(g.player.y, 0);
    assert_eq!(g.log.len(), 3);
    assert_eq!(g.log[2], "You can't go that way. The world seems to end there.");
}

#[test]
fn inspect_describes_current_tile() {
    let g = new_game();
    let g = apply_action(&g, &GameAction::Inspect);
    assert_eq!(g.player.x, 0);
    assert_eq!(g.player.y, 0);
    assert_eq!(g.log.len(), 2);
    assert_eq!(
        g.log[1],
        "You inspect your surroundings: a quiet village square with a well in the center."
    );
}

#[test]
fn describe_tile_covers_grid_and_beyond() {
    assert_eq!(describe_tile(0, 0), "a quiet village square with a well in the center.");
    assert_eq!(describe_tile(0, 1), "a small riverbank. The water is clear and cold.");
    assert_eq!(describe_tile(1, 1), "a rocky path leading between the forest and the cave.");
    assert_eq!(describe_tile(5, 7), "featureless terrain.");
}

#[test]
fn pickup_is_idempotent_at_forest() {
    let g = new_game();
    let g = apply_action(&g, &mv(Direction::East));
    let g = apply_action(&g, &GameAction::Pickup);
    assert_eq!(g.player.inventory, vec!["potion".to_string()]);
    assert_eq!(g.log.last().unwrap(), "You find a small potion on the ground and pick it up.");
    let g = apply_action(&g, &GameAction::Pickup);
    assert_eq!(g.player.inventory, vec!["potion".to_string()]);
    assert_eq!(g.log.last().unwrap(), "You already picked up the potion here.");
}

#[test]
fn pickup_key_at_cave_entrance() {
    let g = new_game();
    let g = apply_action(&g, &mv(Direction::East));
    let g = apply_action(&g, &mv(Direction::East));
    let g = apply_action(&g, &GameAction::Pickup);
    assert_eq!(g.player.inventory, vec!["rusty key".to_string()]);
    assert_eq!(
        g.log.last().unwrap(),
        "You notice a rusty key wedged between rocks and carefully take it."
    );
    let g = apply_action(&g, &GameAction::Pickup);
    assert_eq!(g.player.inventory, vec!["rusty key".to_string()]);
    assert_eq!(g.log.last().unwrap(), "You already picked up the key here.");
}

#[test]
fn pickup_elsewhere_finds_nothing() {
    let g = new_game();
    let g = apply_action(&g, &GameAction::Pickup);
    assert!(g.player.inventory.is_empty());
    assert_eq!(g.log.last().unwrap(), "You search around but don't find anything interesting.");
}

#[test]
fn potion_heals_to_exactly_ten() {
    let g = new_game();
    let g = apply_action(&g, &mv(Direction::East));
    let g = apply_action(&g, &GameAction::Pickup);
    let g = apply_action(&g, &mv(Direction::East));
    let g = apply_action(&g, &mv(Direction::South));
    let g = apply_action_with_roll(&g, &GameAction::Attack, 60);
    assert_eq!(g.player.health, 7);
    let g = apply_action(&g, &use_item("potion"));
    assert_eq!(g.player.health, 10);
    assert!(g.player.inventory.is_empty());
    assert_eq!(g.log.last().unwrap(), "You drink the potion. Your health is fully restored.");
}

#[test]
fn potion_at_full_health_stays_ten() {
    let g = new_game();
    let g = apply_action(&g, &mv(Direction::East));
    let g = apply_action(&g, &GameAction::Pickup);
    let g = apply_action(&g, &use_item("potion"));
    assert_eq!(g.player.health, 10);
    assert!(g.player.inventory.is_empty());
}

#[test]
fn using_missing_item_changes_nothing() {
    let g = new_game();
    let before_health = g.player.health;
    let g2 = apply_action(&g, &use_item("potion"));
    assert_eq!(g2.player.health, before_health);
    assert!(g2.player.inventory.is_empty());
    assert_eq!(g2.log.last().unwrap(), "You don't have a potion to use.");
    assert_eq!(g2.log.len(), g.log.len() + 1);
}

#[test]
fn key_does_not_fit_outside_cave_chamber() {
    let g = new_game();
    let g = apply_action(&g, &mv(Direction::East));
    let g = apply_action(&g, &mv(Direction::East));
    let g = apply_action(&g, &GameAction::Pickup);
    let g = apply_action(&g, &use_item("rusty key"));
    assert!(!g.game_over);
    assert_eq!(g.player.inventory, vec!["rusty key".to_string()]);
    assert_eq!(
        g.log.last().unwrap(),
        "You idly play with the rusty key, but it doesn't seem to fit anything here."
    );
}

#[test]
fn unknown_held_item_cannot_be_used() {
    let g = GameState {
        game_id: "test-game".to_string(),
        player: PlayerState {
            x: 0,
            y: 0,
            health: 10,
            inventory: vec!["torch".to_string()],
        },
        log: vec!["start".to_string()],
        game_over: false,
        victory: false,
    };
    let g2 = apply_action(&g, &use_item("torch"));
    assert_eq!(g2.player.inventory, vec!["torch".to_string()]);
    assert_eq!(g2.player.health, 10);
    assert_eq!(g2.log.last().unwrap(), "You can't figure out how to use the torch.");
}

#[test]
fn winning_scenario_ends_with_victory() {
    let g = new_game();
    let g = apply_action(&g, &mv(Direction::East));
    let g = apply_action(&g, &mv(Direction::East));
    assert_eq!((g.player.x, g.player.y), (2, 0));
    let g = apply_action(&g, &GameAction::Pickup);
    let g = apply_action(&g, &mv(Direction::South));
    assert_eq!((g.player.x, g.player.y), (2, 1));
    let g = apply_action(&g, &use_item("rusty key"));
    assert!(g.game_over);
    assert!(g.victory);
    assert_eq!(g.player.inventory, vec!["rusty key".to_string()]);
    let n = g.log.len();
    assert_eq!(g.log[n - 2], "You use the rusty key to open the ancient chest in the cave.");
    assert_eq!(
        g.log[n - 1],
        "Inside, you find a pile of gold and a glowing gem. You have found the treasure!"
    );
}

#[test]
fn attack_outside_cave_chamber_hits_air() {
    let g = new_game();
    let g = apply_action(&g, &GameAction::Attack);
    assert_eq!(g.player.health, 10);
    assert!(!g.game_over);
    assert_eq!(g.log.last().unwrap(), "You swing at the air. There's nothing to attack here.");
}

#[test]
fn attack_low_roll_is_narrative_only() {
    let g = new_game();
    let g = apply_action(&g, &mv(Direction::East));
    let g = apply_action(&g, &mv(Direction::East));
    let g = apply_action(&g, &mv(Direction::South));
    let before = g.log.len();
    let g = apply_action_with_roll(&g, &GameAction::Attack, 10);
    assert_eq!(g.player.health, 10);
    assert!(!g.game_over);
    assert_eq!(g.log.len(), before + 2);
    assert_eq!(
        g.log[before],
        "You lunge forward and strike the lurking shadow. It vanishes!"
    );
    assert_eq!(
        g.log[before + 1],
        "With the guardian defeated, you can now safely search for treasure here."
    );
}

#[test]
fn losing_scenario_ends_the_game() {
    let g = new_game();
    let g = apply_action(&g, &mv(Direction::East));
    let g = apply_action(&g, &mv(Direction::East));
    let g = apply_action(&g, &mv(Direction::South));
    let g = apply_action_with_roll(&g, &GameAction::Attack, 99);
    assert_eq!(g.player.health, 7);
    assert_eq!(g.log.last().unwrap(), "You barely survive the attack and stagger back.");
    let g = apply_action_with_roll(&g, &GameAction::Attack, 50);
    assert_eq!(g.player.health, 4);
    let g = apply_action_with_roll(&g, &GameAction::Attack, 75);
    assert_eq!(g.player.health, 1);
    assert!(!g.game_over);
    let g = apply_action_with_roll(&g, &GameAction::Attack, 100);
    assert_eq!(g.player.health, -2);
    assert!(g.game_over);
    assert!(!g.victory);
    assert_eq!(g.log.last().unwrap(), "You collapse to the ground. The darkness closes in...");
}

#[test]
fn finished_game_only_appends_the_notice() {
    let g = new_game();
    let g = apply_action(&g, &mv(Direction::East));
    let g = apply_action(&g, &mv(Direction::East));
    let g = apply_action(&g, &GameAction::Pickup);
    let g = apply_action(&g, &mv(Direction::South));
    let g = apply_action(&g, &use_item("rusty key"));
    assert!(g.game_over && g.victory);
    let frozen = g;
    let actions = [
        mv(Direction::West),
        GameAction::Inspect,
        GameAction::Pickup,
        use_item("rusty key"),
        GameAction::Attack,
    ];
    let mut cur = apply_action(&frozen, &actions[0]);
    for a in &actions[1..] {
        cur = apply_action(&cur, a);
    }
    assert_eq!((cur.player.x, cur.player.y), (frozen.player.x, frozen.player.y));
    assert_eq!(cur.player.health, frozen.player.health);
    assert_eq!(cur.player.inventory, frozen.player.inventory);
    assert!(cur.game_over);
    assert!(cur.victory);
    assert_eq!(cur.log.len(), frozen.log.len() + actions.len());
    for i in 0..actions.len() {
        assert_eq!(
            cur.log[frozen.log.len() + i],
            "The game is already over. Start a new one to continue playing."
        );
    }
}

#[test]
fn random_attack_in_chamber_takes_one_branch() {
    let g = new_game();
    let g = apply_action(&g, &mv(Direction::East));
    let g = apply_action(&g, &mv(Direction::East));
    let g = apply_action(&g, &mv(Direction::South));
    let before = g.log.len();
    let g2 = apply_action(&g, &GameAction::Attack);
    assert_eq!(g2.log.len(), before + 2);
    if g2.player.health == 10 {
        assert_eq!(
            g2.log[before],
            "You lunge forward and strike the lurking shadow. It vanishes!"
        );
    } else {
        assert_eq!(g2.player.health, 7);
        assert_eq!(
            g2.log[before],
            "A dark creature lashes out from the shadows and hits you for 3 damage!"
        );
    }
}
