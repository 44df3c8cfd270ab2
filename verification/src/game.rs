//! The world/action engine: game state, actions, and the pure transition
//! logic that turns (state, action) into a successor state with appended
//! narrative log lines.

use vstd::assert_by_contradiction;
use vstd::prelude::*;
use vstd::string::*;

verus! {

/// Player position and stats.
#[derive(Debug)]
pub struct PlayerState {
    pub x: i32,
    pub y: i32,
    pub health: i32,
    pub inventory: Vec<String>,
}

/// Core game state, one per session.
#[derive(Debug)]
pub struct GameState {
    pub game_id: String,
    pub player: PlayerState,
    pub log: Vec<String>,
    pub game_over: bool,
    pub victory: bool,
}

/// Directions for movement.
#[derive(Debug, Clone, Copy, PartialEq, Eq, Structural)]
pub enum Direction {
    North,
    South,
    East,
    West,
}

/// Actions a player can request.
#[derive(Debug, Clone)]
pub enum GameAction {
    Move { direction: Direction },
    Inspect,
    Pickup,
    UseItem { item: String },
    Attack,
}

/// Mathematical model of a player: coordinates and health as unbounded
/// integers, the inventory as a sequence of item names.
#[verifier::ext_equal]
pub struct PlayerModel {
    pub x: int,
    pub y: int,
    pub health: int,
    pub inventory: Seq<Seq<char>>,
}

/// Mathematical model of a game state.
#[verifier::ext_equal]
pub struct StateModel {
    pub game_id: Seq<char>,
    pub player: PlayerModel,
    pub log: Seq<Seq<char>>,
    pub game_over: bool,
    pub victory: bool,
}

/// Mathematical model of an action; the item of `UseItem` is a character
/// sequence.
pub enum ActionModel {
    Move { direction: Direction },
    Inspect,
    Pickup,
    UseItem { item: Seq<char> },
    Attack,
}

impl View for PlayerState {
    type V = PlayerModel;

    open spec fn view(&self) -> PlayerModel {
        PlayerModel {
            x: self.x as int,
            y: self.y as int,
            health: self.health as int,
            inventory: self.inventory.deep_view(),
        }
    }
}

impl View for GameState {
    type V = StateModel;

    open spec fn view(&self) -> StateModel {
        StateModel {
            game_id: self.game_id@,
            player: self.player@,
            log: self.log.deep_view(),
            game_over: self.game_over,
            victory: self.victory,
        }
    }
}

impl View for GameAction {
    type V = ActionModel;

    open spec fn view(&self) -> ActionModel {
        match self {
            GameAction::Move { direction } => ActionModel::Move { direction: *direction },
            GameAction::Inspect => ActionModel::Inspect,
            GameAction::Pickup => ActionModel::Pickup,
            GameAction::UseItem { item } => ActionModel::UseItem { item: item@ },
            GameAction::Attack => ActionModel::Attack,
        }
    }
}

/// The fixed grid: x ranges over 0..=2, y over 0..=1.
pub open spec fn in_bounds(x: int, y: int) -> bool {
    0 <= x <= 2 && 0 <= y <= 1
}

/// No item name occurs twice.
pub open spec fn distinct(s: Seq<Seq<char>>) -> bool {
    forall|i: int, j: int| 0 <= i < j < s.len() ==> s[i] != s[j]
}

impl StateModel {
    /// Well-formedness, preserved by every transition: the player stays on
    /// the grid, health never exceeds 10 and only drops below 1 when the
    /// game ends, the inventory holds no duplicate item, and victory is
    /// only meaningful once the game is over.
    pub open spec fn wf(self) -> bool {
        &&& in_bounds(self.player.x, self.player.y)
        &&& self.player.health <= 10
        &&& self.player.health >= -2
        &&& (!self.game_over ==> self.player.health >= 1)
        &&& distinct(self.player.inventory)
        &&& (self.victory ==> self.game_over)
    }
}

pub open spec fn potion_name() -> Seq<char> {
    "potion"@
}

pub open spec fn key_name() -> Seq<char> {
    "rusty key"@
}

pub open spec fn intro_line() -> Seq<char> {
    "You wake up in a small village at (0,0). To the east lies a dark forest."@
}

pub open spec fn already_over_line() -> Seq<char> {
    "The game is already over. Start a new one to continue playing."@
}

pub open spec fn blocked_line() -> Seq<char> {
    "You can't go that way. The world seems to end there."@
}

/// Narrative description of the tile at (x, y).
pub open spec fn tile_desc(x: int, y: int) -> Seq<char> {
    if x == 0 && y == 0 {
        "a quiet village square with a well in the center."@
    } else if x == 1 && y == 0 {
        "a dense forest. You hear distant howls and see something glinting on the ground."@
    } else if x == 2 && y == 0 {
        "the entrance to a dark cave. Cold air flows from within."@
    } else if x == 2 && y == 1 {
        "a deep cave chamber. You feel an ominous presence and see a locked chest."@
    } else if x == 0 && y == 1 {
        "a small riverbank. The water is clear and cold."@
    } else if x == 1 && y == 1 {
        "a rocky path leading between the forest and the cave."@
    } else {
        "featureless terrain."@
    }
}

/// Prefix of the log line for a successful move onto (x, y).
pub open spec fn move_prefix(x: int, y: int) -> Seq<char> {
    if x == 0 && y == 0 {
        "You move to (0,0) - "@
    } else if x == 1 && y == 0 {
        "You move to (1,0) - "@
    } else if x == 2 && y == 0 {
        "You move to (2,0) - "@
    } else if x == 0 && y == 1 {
        "You move to (0,1) - "@
    } else if x == 1 && y == 1 {
        "You move to (1,1) - "@
    } else {
        "You move to (2,1) - "@
    }
}

pub open spec fn move_line(x: int, y: int) -> Seq<char> {
    move_prefix(x, y) + tile_desc(x, y)
}

pub open spec fn inspect_line(x: int, y: int) -> Seq<char> {
    "You inspect your surroundings: "@ + tile_desc(x, y)
}

pub open spec fn found_potion_line() -> Seq<char> {
    "You find a small potion on the ground and pick it up."@
}

pub open spec fn have_potion_line() -> Seq<char> {
    "You already picked up the potion here."@
}

pub open spec fn found_key_line() -> Seq<char> {
    "You notice a rusty key wedged between rocks and carefully take it."@
}

pub open spec fn have_key_line() -> Seq<char> {
    "You already picked up the key here."@
}

pub open spec fn nothing_here_line() -> Seq<char> {
    "You search around but don't find anything interesting."@
}

pub open spec fn dont_have_line(item: Seq<char>) -> Seq<char> {
    "You don't have a "@ + item + " to use."@
}

pub open spec fn restore_line() -> Seq<char> {
    "You drink the potion. Your health is fully restored."@
}

pub open spec fn chest_line() -> Seq<char> {
    "You use the rusty key to open the ancient chest in the cave."@
}

pub open spec fn treasure_line() -> Seq<char> {
    "Inside, you find a pile of gold and a glowing gem. You have found the treasure!"@
}

pub open spec fn key_nofit_line() -> Seq<char> {
    "You idly play with the rusty key, but it doesn't seem to fit anything here."@
}

pub open spec fn cant_use_line(item: Seq<char>) -> Seq<char> {
    "You can't figure out how to use the "@ + item + "."@
}

pub open spec fn nothing_to_attack_line() -> Seq<char> {
    "You swing at the air. There's nothing to attack here."@
}

pub open spec fn strike_line() -> Seq<char> {
    "You lunge forward and strike the lurking shadow. It vanishes!"@
}

pub open spec fn guardian_line() -> Seq<char> {
    "With the guardian defeated, you can now safely search for treasure here."@
}

pub open spec fn damage_line() -> Seq<char> {
    "A dark creature lashes out from the shadows and hits you for 3 damage!"@
}

pub open spec fn collapse_line() -> Seq<char> {
    "You collapse to the ground. The darkness closes in..."@
}

pub open spec fn survive_line() -> Seq<char> {
    "You barely survive the attack and stagger back."@
}

pub open spec fn delta_x(d: Direction) -> int {
    match d {
        Direction::North => 0,
        Direction::South => 0,
        Direction::East => 1,
        Direction::West => -1,
    }
}

pub open spec fn delta_y(d: Direction) -> int {
    match d {
        Direction::North => -1,
        Direction::South => 1,
        Direction::East => 0,
        Direction::West => 0,
    }
}

/// Moving: a step outside the grid is rejected with a fixed line and no
/// position change; a step inside updates the position and logs the new
/// coordinates with the tile description.
pub open spec fn move_step(s: StateModel, d: Direction) -> StateModel {
    let nx = s.player.x + delta_x(d);
    let ny = s.player.y + delta_y(d);
    if !in_bounds(nx, ny) {
        StateModel { log: s.log.push(blocked_line()), ..s }
    } else {
        StateModel {
            player: PlayerModel { x: nx, y: ny, ..s.player },
            log: s.log.push(move_line(nx, ny)),
            ..s
        }
    }
}

/// Inspecting only appends the current tile's description.
pub open spec fn inspect_step(s: StateModel) -> StateModel {
    StateModel { log: s.log.push(inspect_line(s.player.x, s.player.y)), ..s }
}

/// Picking up: the potion at (1,0) and the rusty key at (2,0), each at
/// most once; anywhere else nothing is found.
pub open spec fn pickup_step(s: StateModel) -> StateModel {
    if s.player.x == 1 && s.player.y == 0 {
        if !s.player.inventory.contains(potion_name()) {
            StateModel {
                player: PlayerModel {
                    inventory: s.player.inventory.push(potion_name()),
                    ..s.player
                },
                log: s.log.push(found_potion_line()),
                ..s
            }
        } else {
            StateModel { log: s.log.push(have_potion_line()), ..s }
        }
    } else if s.player.x == 2 && s.player.y == 0 {
        if !s.player.inventory.contains(key_name()) {
            StateModel {
                player: PlayerModel { inventory: s.player.inventory.push(key_name()), ..s.player },
                log: s.log.push(found_key_line()),
                ..s
            }
        } else {
            StateModel { log: s.log.push(have_key_line()), ..s }
        }
    } else {
        StateModel { log: s.log.push(nothing_here_line()), ..s }
    }
}

/// Using an item: a missing item is only logged; the potion heals to
/// exactly 10 and is consumed; the rusty key wins the game at (2,1) and is
/// never consumed; any other held item only yields a log line.
pub open spec fn use_item_step(s: StateModel, item: Seq<char>) -> StateModel {
    if !s.player.inventory.contains(item) {
        StateModel { log: s.log.push(dont_have_line(item)), ..s }
    } else if item == potion_name() {
        StateModel {
            player: PlayerModel {
                health: 10,
                inventory: without(s.player.inventory, potion_name()),
                ..s.player
            },
            log: s.log.push(restore_line()),
            ..s
        }
    } else if item == key_name() {
        if s.player.x == 2 && s.player.y == 1 {
            StateModel {
                log: s.log.push(chest_line()).push(treasure_line()),
                game_over: true,
                victory: true,
                ..s
            }
        } else {
            StateModel { log: s.log.push(key_nofit_line()), ..s }
        }
    } else {
        StateModel { log: s.log.push(cant_use_line(item)), ..s }
    }
}

/// Attacking: meaningful only at (2,1). A roll below 50 yields narrative
/// only; otherwise 3 damage, and the game is lost once health drops to 0
/// or below.
pub open spec fn attack_step(s: StateModel, roll: int) -> StateModel {
    if !(s.player.x == 2 && s.player.y == 1) {
        StateModel { log: s.log.push(nothing_to_attack_line()), ..s }
    } else if roll < 50 {
        StateModel { log: s.log.push(strike_line()).push(guardian_line()), ..s }
    } else {
        let h = s.player.health - 3;
        if h <= 0 {
            StateModel {
                player: PlayerModel { health: h, ..s.player },
                log: s.log.push(damage_line()).push(collapse_line()),
                game_over: true,
                victory: false,
                ..s
            }
        } else {
            StateModel {
                player: PlayerModel { health: h, ..s.player },
                log: s.log.push(damage_line()).push(survive_line()),
                ..s
            }
        }
    }
}

/// The full transition: once the game is over every action only appends
/// the fixed notice line; otherwise the action's handler decides. `roll`
/// is the combat roll, used by `Attack` alone.
pub open spec fn transition(s: StateModel, a: ActionModel, roll: int) -> StateModel {
    if s.game_over {
        StateModel { log: s.log.push(already_over_line()), ..s }
    } else {
        match a {
            ActionModel::Move { direction } => move_step(s, direction),
            ActionModel::Inspect => inspect_step(s),
            ActionModel::Pickup => pickup_step(s),
            ActionModel::UseItem { item } => use_item_step(s, item),
            ActionModel::Attack => attack_step(s, roll),
        }
    }
}

/// The state of a freshly created game with identifier `id`: player at
/// (0,0) with full health and empty inventory, the log seeded with exactly
/// the one introductory line, and both terminal flags clear.
pub open spec fn fresh_state(id: Seq<char>) -> StateModel {
    StateModel {
        game_id: id,
        player: PlayerModel { x: 0, y: 0, health: 10, inventory: Seq::empty() },
        log: seq![intro_line()],
        game_over: false,
        victory: false,
    }
}

/// Relies on `uuid::Uuid::new_v4` and its `Display` impl: the identifier
/// is random, so nothing is assumed of its content, only that the
/// hyphenated rendering is 36 characters long.
#[verifier::external_body]
fn fresh_game_id() -> (r: String)
    ensures
        r@.len() == 36,
{
    uuid::Uuid::new_v4().to_string()
}

/// Relies on `fastrand::u8` with the inclusive range 0..=100: the result
/// is random, but always within the requested range.
#[verifier::external_body]
fn combat_roll() -> (r: u8)
    ensures
        r <= 100,
{
    fastrand::u8(0..=100)
}

/// Create a brand new game: a fresh random identifier and the fixed
/// starting state.
pub fn new_game() -> (r: GameState)
    ensures
        r@ == fresh_state(r@.game_id),
        r@.game_id.len() == 36,
        r@.wf(),
{
    let mut log: Vec<String> = Vec::new();
    log.push(String::from_str(
        "You wake up in a small village at (0,0). To the east lies a dark forest.",
    ));
    let state = GameState {
        game_id: fresh_game_id(),
        player: PlayerState { x: 0, y: 0, health: 10, inventory: Vec::new() },
        log,
        game_over: false,
        victory: false,
    };
    proof {
        assert(state@.player.inventory =~~= Seq::<Seq<char>>::empty());
        assert(state@.log =~~= seq![intro_line()]);
        assert(state@ =~~= fresh_state(state@.game_id));
    }
    state
}

/// The inventory with every occurrence of `name` removed.
pub open spec fn without(s: Seq<Seq<char>>, name: Seq<char>) -> Seq<Seq<char>> {
    s.filter(|i: Seq<char>| i != name)
}

proof fn lemma_deep_view_push(pre: Vec<String>, post: Vec<String>, item: String)
    requires
        post@ == pre@.push(item),
    ensures
        post.deep_view() == pre.deep_view().push(item@),
{
    assert forall|i: int| 0 <= i < post@.len() implies post.deep_view()[i] == pre.deep_view().push(
        item@,
    )[i] by {
        assert(post.deep_view()[i] == post@[i].deep_view());
        if i < pre@.len() {
            assert(pre.deep_view()[i] == pre@[i].deep_view());
        }
    }
    assert(post.deep_view() =~~= pre.deep_view().push(item@));
}

proof fn lemma_filter_push(s: Seq<Seq<char>>, x: Seq<char>, pred: spec_fn(Seq<char>) -> bool)
    ensures
        s.push(x).filter(pred) == (if pred(x) {
            s.filter(pred).push(x)
        } else {
            s.filter(pred)
        }),
{
    reveal(Seq::filter);
    assert(s.push(x).drop_last() =~~= s);
    assert(s.push(x).last() == x);
}

/// Whether `name` occurs in `v`.
fn contains_string(v: &Vec<String>, name: &String) -> (r: bool)
    ensures
        r == v.deep_view().contains(name@),
{
    let mut idx: usize = 0;
    while idx < v.len()
        invariant
            idx <= v.len(),
            forall|j: int| 0 <= j < idx ==> v.deep_view()[j] != name@,
        decreases v.len() - idx,
    {
        if v[idx] == *name {
            proof {
                assert(v.deep_view()[idx as int] == name@);
            }
            return true;
        }
        idx += 1;
    }
    proof {
        assert(forall|j: int| 0 <= j < v.deep_view().len() ==> v.deep_view()[j] != name@);
    }
    false
}

/// Remove every occurrence of `name` from `v`, keeping the order of the
/// remaining items.
fn remove_item(v: &mut Vec<String>, name: &String)
    ensures
        final(v).deep_view() == without(old(v).deep_view(), name@),
{
    let ghost orig: Seq<Seq<char>> = v.deep_view();
    let ghost pred = |i: Seq<char>| i != name@;
    let mut kept: Vec<String> = Vec::new();
    let mut idx: usize = 0;
    while idx < v.len()
        invariant
            idx <= v.len(),
            v.deep_view() == orig,
            pred == (|i: Seq<char>| i != name@),
            kept.deep_view() == orig.take(idx as int).filter(pred),
        decreases v.len() - idx,
    {
        proof {
            assert(orig.take(idx as int + 1) =~~= orig.take(idx as int).push(orig[idx as int]));
            lemma_filter_push(orig.take(idx as int), orig[idx as int], pred);
        }
        if !(v[idx] == *name) {
            let item = v[idx].clone();
            let ghost gitem = item;
            let ghost pre = kept;
            kept.push(item);
            proof {
                lemma_deep_view_push(pre, kept, gitem);
                assert(gitem@ == orig[idx as int]);
                assert(pred(orig[idx as int]));
            }
        } else {
            proof {
                assert(orig[idx as int] == v@[idx as int]@);
                assert(!pred(orig[idx as int]));
            }
        }
        idx += 1;
    }
    proof {
        assert(orig.take(v.len() as int) =~~= orig);
    }
    *v = kept;
}

/// Copy a vector of strings, preserving its contents.
fn clone_string_vec(v: &Vec<String>) -> (r: Vec<String>)
    ensures
        r.deep_view() == v.deep_view(),
{
    let mut out: Vec<String> = Vec::new();
    let mut idx: usize = 0;
    while idx < v.len()
        invariant
            idx <= v.len(),
            out.deep_view() == v.deep_view().take(idx as int),
        decreases v.len() - idx,
    {
        let item = v[idx].clone();
        let ghost gitem = item;
        let ghost pre = out;
        out.push(item);
        proof {
            lemma_deep_view_push(pre, out, gitem);
            assert(gitem@ == v.deep_view()[idx as int]);
            assert(v.deep_view().take(idx as int + 1) =~~= v.deep_view().take(
                idx as int,
            ).push(v.deep_view()[idx as int]));
        }
        idx += 1;
    }
    proof {
        assert(v.deep_view().take(v.len() as int) =~~= v.deep_view());
    }
    out
}

impl Clone for PlayerState {
    fn clone(&self) -> (r: Self)
        ensures
            r@ == self@,
    {
        let r = PlayerState {
            x: self.x,
            y: self.y,
            health: self.health,
            inventory: clone_string_vec(&self.inventory),
        };
        proof {
            assert(r@ =~~= self@);
        }
        r
    }
}

impl Clone for GameState {
    fn clone(&self) -> (r: Self)
        ensures
            r@ == self@,
    {
        let r = GameState {
            game_id: self.game_id.clone(),
            player: self.player.clone(),
            log: clone_string_vec(&self.log),
            game_over: self.game_over,
            victory: self.victory,
        };
        proof {
            assert(r@ =~~= self@);
        }
        r
    }
}

/// Describe the tile at coordinates (x, y).
pub fn describe_tile(x: i32, y: i32) -> (r: &'static str)
    ensures
        r@ == tile_desc(x as int, y as int),
{
    if x == 0 && y == 0 {
        "a quiet village square with a well in the center."
    } else if x == 1 && y == 0 {
        "a dense forest. You hear distant howls and see something glinting on the ground."
    } else if x == 2 && y == 0 {
        "the entrance to a dark cave. Cold air flows from within."
    } else if x == 2 && y == 1 {
        "a deep cave chamber. You feel an ominous presence and see a locked chest."
    } else if x == 0 && y == 1 {
        "a small riverbank. The water is clear and cold."
    } else if x == 1 && y == 1 {
        "a rocky path leading between the forest and the cave."
    } else {
        "featureless terrain."
    }
}

/// Move the player, or log the rejection when the step leaves the grid.
pub fn handle_move(state: &mut GameState, direction: &Direction)
    requires
        old(state)@.wf(),
    ensures
        final(state)@ == move_step(old(state)@, *direction),
{
    let (dx, dy): (i32, i32) = match direction {
        Direction::North => (0, -1),
        Direction::South => (0, 1),
        Direction::East => (1, 0),
        Direction::West => (-1, 0),
    };
    let new_x = state.player.x + dx;
    let new_y = state.player.y + dy;
    if new_x < 0 || new_x > 2 || new_y < 0 || new_y > 1 {
        let ghost pre = state.log;
        state.log.push(String::from_str("You can't go that way. The world seems to end there."));
        proof {
            lemma_deep_view_push(pre, state.log, state.log@.last());
            assert(state@ =~~= move_step(old(state)@, *direction));
        }
        return;
    }
    state.player.x = new_x;
    state.player.y = new_y;
    let prefix: &'static str = if new_x == 0 && new_y == 0 {
        "You move to (0,0) - "
    } else if new_x == 1 && new_y == 0 {
        "You move to (1,0) - "
    } else if new_x == 2 && new_y == 0 {
        "You move to (2,0) - "
    } else if new_x == 0 && new_y == 1 {
        "You move to (0,1) - "
    } else if new_x == 1 && new_y == 1 {
        "You move to (1,1) - "
    } else {
        "You move to (2,1) - "
    };
    let desc = describe_tile(new_x, new_y);
    let line = String::from_str(prefix).concat(desc);
    let ghost gline = line;
    let ghost pre = state.log;
    state.log.push(line);
    proof {
        lemma_deep_view_push(pre, state.log, gline);
        assert(gline@ == move_line(new_x as int, new_y as int));
        assert(state@ =~~= move_step(old(state)@, *direction));
    }
}

/// Append the description of the player's current tile.
pub fn handle_inspect(state: &mut GameState)
    ensures
        final(state)@ == inspect_step(old(state)@),
{
    let desc = describe_tile(state.player.x, state.player.y);
    let line = String::from_str("You inspect your surroundings: ").concat(desc);
    let ghost gline = line;
    let ghost pre = state.log;
    state.log.push(line);
    proof {
        lemma_deep_view_push(pre, state.log, gline);
        assert(state@ =~~= inspect_step(old(state)@));
    }
}

/// Pick up the item of the current tile, if any is left there.
pub fn handle_pickup(state: &mut GameState)
    ensures
        final(state)@ == pickup_step(old(state)@),
{
    let x = state.player.x;
    let y = state.player.y;
    if x == 1 && y == 0 {
        let potion = String::from_str("potion");
        if !contains_string(&state.player.inventory, &potion) {
            let ghost pre_inv = state.player.inventory;
            let ghost gpotion = potion;
            state.player.inventory.push(potion);
            let ghost pre = state.log;
            state.log.push(
                String::from_str("You find a small potion on the ground and pick it up."),
            );
            proof {
                lemma_deep_view_push(pre_inv, state.player.inventory, gpotion);
                lemma_deep_view_push(pre, state.log, state.log@.last());
                assert(state@ =~~= pickup_step(old(state)@));
            }
        } else {
            let ghost pre = state.log;
            state.log.push(String::from_str("You already picked up the potion here."));
            proof {
                lemma_deep_view_push(pre, state.log, state.log@.last());
                assert(state@ =~~= pickup_step(old(state)@));
            }
        }
    } else if x == 2 && y == 0 {
        let key = String::from_str("rusty key");
        if !contains_string(&state.player.inventory, &key) {
            let ghost pre_inv = state.player.inventory;
            let ghost gkey = key;
            state.player.inventory.push(key);
            let ghost pre = state.log;
            state.log.push(
                String::from_str(
                    "You notice a rusty key wedged between rocks and carefully take it.",
                ),
            );
            proof {
                lemma_deep_view_push(pre_inv, state.player.inventory, gkey);
                lemma_deep_view_push(pre, state.log, state.log@.last());
                assert(state@ =~~= pickup_step(old(state)@));
            }
        } else {
            let ghost pre = state.log;
            state.log.push(String::from_str("You already picked up the key here."));
            proof {
                lemma_deep_view_push(pre, state.log, state.log@.last());
                assert(state@ =~~= pickup_step(old(state)@));
            }
        }
    } else {
        let ghost pre = state.log;
        state.log.push(String::from_str("You search around but don't find anything interesting."));
        proof {
            lemma_deep_view_push(pre, state.log, state.log@.last());
            assert(state@ =~~= pickup_step(old(state)@));
        }
    }
}

/// Use a named item from the inventory.
pub fn handle_use_item(state: &mut GameState, item: &str)
    ensures
        final(state)@ == use_item_step(old(state)@, item@),
{
    let item_string = item.to_owned();
    if !contains_string(&state.player.inventory, &item_string) {
        let line = String::from_str("You don't have a ").concat(item).concat(" to use.");
        let ghost gline = line;
        let ghost pre = state.log;
        state.log.push(line);
        proof {
            lemma_deep_view_push(pre, state.log, gline);
            assert(gline@ == dont_have_line(item@));
            assert(state@ =~~= use_item_step(old(state)@, item@));
        }
        return;
    }
    let potion = String::from_str("potion");
    let key = String::from_str("rusty key");
    if item_string == potion {
        state.player.health = 10;
        remove_item(&mut state.player.inventory, &potion);
        let ghost pre = state.log;
        state.log.push(String::from_str("You drink the potion. Your health is fully restored."));
        proof {
            lemma_deep_view_push(pre, state.log, state.log@.last());
            assert(state@ =~~= use_item_step(old(state)@, item@));
        }
    } else if item_string == key {
        if state.player.x == 2 && state.player.y == 1 {
            let ghost pre = state.log;
            state.log.push(
                String::from_str("You use the rusty key to open the ancient chest in the cave."),
            );
            let ghost mid = state.log;
            state.log.push(
                String::from_str(
                    "Inside, you find a pile of gold and a glowing gem. You have found the treasure!",
                ),
            );
            state.game_over = true;
            state.victory = true;
            proof {
                lemma_deep_view_push(pre, mid, mid@.last());
                lemma_deep_view_push(mid, state.log, state.log@.last());
                assert(state@ =~~= use_item_step(old(state)@, item@));
            }
        } else {
            let ghost pre = state.log;
            state.log.push(
                String::from_str(
                    "You idly play with the rusty key, but it doesn't seem to fit anything here.",
                ),
            );
            proof {
                lemma_deep_view_push(pre, state.log, state.log@.last());
                assert(state@ =~~= use_item_step(old(state)@, item@));
            }
        }
    } else {
        let line = String::from_str("You can't figure out how to use the ").concat(item).concat(
            ".",
        );
        let ghost gline = line;
        let ghost pre = state.log;
        state.log.push(line);
        proof {
            lemma_deep_view_push(pre, state.log, gline);
            assert(gline@ == cant_use_line(item@));
            assert(state@ =~~= use_item_step(old(state)@, item@));
        }
    }
}

/// Resolve an attack with the given combat roll.
pub fn handle_attack(state: &mut GameState, roll: u8)
    requires
        old(state)@.wf(),
    ensures
        final(state)@ == attack_step(old(state)@, roll as int),
{
    let x = state.player.x;
    let y = state.player.y;
    if !(x == 2 && y == 1) {
        let ghost pre = state.log;
        state.log.push(String::from_str("You swing at the air. There's nothing to attack here."));
        proof {
            lemma_deep_view_push(pre, state.log, state.log@.last());
            assert(state@ =~~= attack_step(old(state)@, roll as int));
        }
        return;
    }
    if roll < 50 {
        let ghost pre = state.log;
        state.log.push(
            String::from_str("You lunge forward and strike the lurking shadow. It vanishes!"),
        );
        let ghost mid = state.log;
        state.log.push(
            String::from_str(
                "With the guardian defeated, you can now safely search for treasure here.",
            ),
        );
        proof {
            lemma_deep_view_push(pre, mid, mid@.last());
            lemma_deep_view_push(mid, state.log, state.log@.last());
            assert(state@ =~~= attack_step(old(state)@, roll as int));
        }
    } else {
        state.player.health = state.player.health - 3;
        let ghost pre = state.log;
        state.log.push(
            String::from_str(
                "A dark creature lashes out from the shadows and hits you for 3 damage!",
            ),
        );
        let ghost mid = state.log;
        if state.player.health <= 0 {
            state.log.push(String::from_str("You collapse to the ground. The darkness closes in..."));
            state.game_over = true;
            state.victory = false;
            proof {
                lemma_deep_view_push(pre, mid, mid@.last());
                lemma_deep_view_push(mid, state.log, state.log@.last());
                assert(state@ =~~= attack_step(old(state)@, roll as int));
            }
        } else {
            state.log.push(String::from_str("You barely survive the attack and stagger back."));
            proof {
                lemma_deep_view_push(pre, mid, mid@.last());
                lemma_deep_view_push(mid, state.log, state.log@.last());
                assert(state@ =~~= attack_step(old(state)@, roll as int));
            }
        }
    }
}

/// The transition for any action, already-over states included, with the
/// combat roll supplied by the caller: the returned state is exactly the
/// mathematical `transition`, and the input state is left untouched.
pub fn apply_action_with_roll(state: &GameState, action: &GameAction, roll: u8) -> (r: GameState)
    requires
        state@.wf(),
    ensures
        r@ == transition(state@, action@, roll as int),
        r@.wf(),
{
    proof {
        lemma_transition_preserves_wf(state@, action@, roll as int);
    }
    let mut new_state = state.clone();
    if new_state.game_over {
        let ghost pre = new_state.log;
        new_state.log.push(
            String::from_str("The game is already over. Start a new one to continue playing."),
        );
        proof {
            lemma_deep_view_push(pre, new_state.log, new_state.log@.last());
            assert(new_state@ =~~= transition(state@, action@, roll as int));
        }
        return new_state;
    }
    match action {
        GameAction::Move { direction } => handle_move(&mut new_state, direction),
        GameAction::Inspect => handle_inspect(&mut new_state),
        GameAction::Pickup => handle_pickup(&mut new_state),
        GameAction::UseItem { item } => handle_use_item(&mut new_state, item.as_str()),
        GameAction::Attack => handle_attack(&mut new_state, roll),
    }
    new_state
}

/// For every action but `Attack` the transition ignores the roll.
pub proof fn lemma_roll_independent(s: StateModel, a: ActionModel, roll: int)
    requires
        !(a matches ActionModel::Attack),
    ensures
        transition(s, a, roll) == transition(s, a, 0),
{
}

/// Apply an action to the state and return an updated copy; the caller's
/// state is never mutated. The combat roll is drawn here: the result is
/// the mathematical `transition` under some roll in 0..=100, and does not
/// depend on the roll at all unless the action is `Attack`.
pub fn apply_action(state: &GameState, action: &GameAction) -> (r: GameState)
    requires
        state@.wf(),
    ensures
        exists|roll: int| 0 <= roll <= 100 && r@ == transition(state@, action@, roll),
        !(action@ matches ActionModel::Attack) ==> r@ == transition(state@, action@, 0),
        r@.wf(),
{
    let roll = combat_roll();
    let r = apply_action_with_roll(state, action, roll);
    proof {
        assert(0 <= roll as int <= 100 && r@ == transition(state@, action@, roll as int));
        if !(action@ matches ActionModel::Attack) {
            lemma_roll_independent(state@, action@, roll as int);
        }
    }
    r
}

proof fn lemma_without_membership(s: Seq<Seq<char>>, name: Seq<char>, x: Seq<char>)
    requires
        without(s, name).contains(x),
    ensures
        s.contains(x),
        x != name,
    decreases s.len(),
{
    reveal(Seq::filter);
    let pred = |i: Seq<char>| i != name;
    if s.len() == 0 {
        assert(false);
    } else {
        let sub = s.drop_last();
        if pred(s.last()) && x == s.last() {
            assert(s[s.len() - 1] == x);
        } else {
            assert(without(sub, name).contains(x));
            lemma_without_membership(sub, name, x);
            let i = choose|i: int| 0 <= i < sub.len() && sub[i] == x;
            assert(s[i] == x);
        }
    }
}

proof fn lemma_without_distinct(s: Seq<Seq<char>>, name: Seq<char>)
    requires
        distinct(s),
    ensures
        distinct(without(s, name)),
    decreases s.len(),
{
    reveal(Seq::filter);
    let pred = |i: Seq<char>| i != name;
    if s.len() == 0 {
    } else {
        let sub = s.drop_last();
        assert(distinct(sub)) by {
            assert(forall|i: int, j: int|
                0 <= i < j < sub.len() ==> sub[i] == s[i] && sub[j] == s[j]);
        }
        lemma_without_distinct(sub, name);
        if pred(s.last()) {
            let w = without(sub, name).push(s.last());
            assert(without(s, name) == w);
            assert_by_contradiction!(!without(sub, name).contains(s.last()), {
                lemma_without_membership(sub, name, s.last());
                let i = choose|i: int| 0 <= i < sub.len() && sub[i] == s.last();
                assert(s[i] == s[s.len() - 1]);
            });
            assert forall|i: int, j: int| 0 <= i < j < w.len() implies w[i] != w[j] by {
                if j < w.len() - 1 {
                    assert(w[i] == without(sub, name)[i] && w[j] == without(sub, name)[j]);
                } else {
                    assert(w[j] == s.last());
                    assert(without(sub, name)[i] == w[i]);
                    assert(without(sub, name).contains(w[i]));
                }
            }
        }
    }
}

/// Every transition preserves well-formedness: the player never leaves
/// the grid, health stays within its bounds, the inventory never holds a
/// duplicate, and `victory` implies `game_over`.
pub proof fn lemma_transition_preserves_wf(s: StateModel, a: ActionModel, roll: int)
    requires
        s.wf(),
    ensures
        transition(s, a, roll).wf(),
{
    if !s.game_over {
        match a {
            ActionModel::Pickup => {
                let inv = s.player.inventory;
                if s.player.x == 1 && s.player.y == 0 && !inv.contains(potion_name()) {
                    let w = inv.push(potion_name());
                    assert forall|i: int, j: int| 0 <= i < j < w.len() implies w[i] != w[j] by {
                        if j == w.len() - 1 {
                            assert(inv[i] == w[i]);
                            assert(!inv.contains(potion_name()));
                        }
                    }
                } else if s.player.x == 2 && s.player.y == 0 && !inv.contains(key_name()) {
                    let w = inv.push(key_name());
                    assert forall|i: int, j: int| 0 <= i < j < w.len() implies w[i] != w[j] by {
                        if j == w.len() - 1 {
                            assert(inv[i] == w[i]);
                            assert(!inv.contains(key_name()));
                        }
                    }
                }
            },
            ActionModel::UseItem { item } => {
                if s.player.inventory.contains(item) && item == potion_name() {
                    lemma_without_distinct(s.player.inventory, potion_name());
                }
            },
            _ => {},
        }
    }
}

/// Once the game is over, every further action appends exactly the fixed
/// notice line and changes nothing else: not the player, not the victory
/// flag, not the identifier, and no other log content.
pub proof fn lemma_game_over_frozen(s: StateModel, a: ActionModel, roll: int)
    requires
        s.game_over,
    ensures
        transition(s, a, roll).player == s.player,
        transition(s, a, roll).victory == s.victory,
        transition(s, a, roll).game_over,
        transition(s, a, roll).game_id == s.game_id,
        transition(s, a, roll).log == s.log.push(already_over_line()),
{
}

/// `game_over` never reverts: once set, every successor keeps it.
pub proof fn lemma_game_over_monotone(s: StateModel, a: ActionModel, roll: int)
    requires
        s.game_over,
    ensures
        transition(s, a, roll).game_over,
{
}

/// A move whose target lies outside the grid leaves the position (and all
/// other player state) unchanged and appends exactly the one rejection
/// line.
pub proof fn lemma_move_out_of_bounds(s: StateModel, d: Direction, roll: int)
    requires
        !s.game_over,
        !in_bounds(s.player.x + delta_x(d), s.player.y + delta_y(d)),
    ensures
        transition(s, ActionModel::Move { direction: d }, roll).player == s.player,
        transition(s, ActionModel::Move { direction: d }, roll).log == s.log.push(blocked_line()),
        transition(s, ActionModel::Move { direction: d }, roll).game_over == s.game_over,
        transition(s, ActionModel::Move { direction: d }, roll).victory == s.victory,
{
}

/// Picking up at (1,0) is idempotent: after one pickup the potion is
/// held; a second pickup appends only the "already picked up" line and
/// leaves the inventory unchanged, so the potion is never duplicated.
pub proof fn lemma_pickup_idempotent(s: StateModel, roll1: int, roll2: int)
    requires
        s.wf(),
        !s.game_over,
        s.player.x == 1,
        s.player.y == 0,
    ensures
        ({
            let s1 = transition(s, ActionModel::Pickup, roll1);
            let s2 = transition(s1, ActionModel::Pickup, roll2);
            &&& s1.player.inventory.contains(potion_name())
            &&& s2.player.inventory == s1.player.inventory
            &&& distinct(s2.player.inventory)
            &&& s2.log == s1.log.push(have_potion_line())
        }),
{
    let s1 = transition(s, ActionModel::Pickup, roll1);
    lemma_transition_preserves_wf(s, ActionModel::Pickup, roll1);
    if !s.player.inventory.contains(potion_name()) {
        assert(s1.player.inventory.last() == potion_name());
    }
}

/// Using the potion while holding it restores health to exactly 10,
/// whatever it was before, and consumes the potion; using any item that
/// is not held changes nothing but the log, which gains one "don't have"
/// line.
pub proof fn lemma_use_potion(s: StateModel, item: Seq<char>, roll: int)
    requires
        !s.game_over,
    ensures
        s.player.inventory.contains(potion_name()) ==> {
            let t = transition(s, ActionModel::UseItem { item: potion_name() }, roll);
            &&& t.player.health == 10
            &&& !t.player.inventory.contains(potion_name())
            &&& t.log == s.log.push(restore_line())
        },
        !s.player.inventory.contains(item) ==> {
            let t = transition(s, ActionModel::UseItem { item }, roll);
            &&& t.player == s.player
            &&& t.game_over == s.game_over
            &&& t.victory == s.victory
            &&& t.log == s.log.push(dont_have_line(item))
        },
{
    if s.player.inventory.contains(potion_name()) {
        let t = transition(s, ActionModel::UseItem { item: potion_name() }, roll);
        assert_by_contradiction!(!t.player.inventory.contains(potion_name()), {
            lemma_without_membership(s.player.inventory, potion_name(), potion_name());
        });
    }
}

/// An attack at (2,1) that rolls at least 50 costs exactly 3 health; the
/// game is lost, with `victory` false, exactly when that drop reaches 0
/// or below.
pub proof fn lemma_attack_damage(s: StateModel, roll: int)
    requires
        !s.game_over,
        s.player.x == 2,
        s.player.y == 1,
        roll >= 50,
    ensures
        ({
            let t = transition(s, ActionModel::Attack, roll);
            &&& t.player.health == s.player.health - 3
            &&& t.player.inventory == s.player.inventory
            &&& (s.player.health - 3 <= 0 ==> t.game_over && !t.victory)
            &&& (s.player.health - 3 > 0 ==> t.game_over == s.game_over && t.victory == s.victory)
        }),
{
}

/// Every transition appends to the log: the old log is a strict prefix of
/// the new one, longer by one or two lines.
pub proof fn lemma_log_grows(s: StateModel, a: ActionModel, roll: int)
    ensures
        transition(s, a, roll).log.len() >= s.log.len() + 1,
        transition(s, a, roll).log.len() <= s.log.len() + 2,
        transition(s, a, roll).log.take(s.log.len() as int) == s.log,
{
    let t = transition(s, a, roll);
    assert(t.log.take(s.log.len() as int) =~~= s.log);
}

/// Actions that append exactly one log line, whatever the state and the
/// roll: moving, inspecting and picking up. Using an item or attacking
/// can append two.
pub open spec fn one_line_action(a: ActionModel) -> bool {
    ||| a matches ActionModel::Move { .. }
    ||| a matches ActionModel::Inspect
    ||| a matches ActionModel::Pickup
}

/// The state after applying a list of (action, roll) pairs in order.
pub open spec fn apply_all(s: StateModel, actions: Seq<(ActionModel, int)>) -> StateModel
    decreases actions.len(),
{
    if actions.len() == 0 {
        s
    } else {
        apply_all(transition(s, actions[0].0, actions[0].1), actions.drop_first())
    }
}

/// Sequential applications never lose a log entry: a run of N one-line
/// actions grows the log by exactly N, one entry per action, whatever
/// the states passed through.
pub proof fn lemma_log_count_exact(s: StateModel, actions: Seq<(ActionModel, int)>)
    requires
        forall|i: int| 0 <= i < actions.len() ==> one_line_action(#[trigger] actions[i].0),
    ensures
        apply_all(s, actions).log.len() == s.log.len() + actions.len(),
    decreases actions.len(),
{
    if actions.len() > 0 {
        let t = transition(s, actions[0].0, actions[0].1);
        assert(t.log.len() == s.log.len() + 1);
        let rest = actions.drop_first();
        assert(forall|i: int| 0 <= i < rest.len() ==> one_line_action(#[trigger] rest[i].0)) by {
            assert(forall|i: int| 0 <= i < rest.len() ==> rest[i] == actions[i + 1]);
        }
        lemma_log_count_exact(t, rest);
    }
}

/// The game is won only one way: `victory` first becomes true exactly on
/// using the rusty key while standing at (2,1).
pub proof fn lemma_victory_only_by_key(s: StateModel, a: ActionModel, roll: int)
    requires
        !s.victory,
        transition(s, a, roll).victory,
    ensures
        a == (ActionModel::UseItem { item: key_name() }),
        s.player.x == 2,
        s.player.y == 1,
        s.player.inventory.contains(key_name()),
        transition(s, a, roll).game_over,
{
}


} // verus!
